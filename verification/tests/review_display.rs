use decon::display::format_with_bold_highlights;

#[test]
fn test_format_with_bold_highlights_passages() {
    let input = "This is ⟨highlighted passage⟩ text";
    let expected = "This is \x1b[36mhighlighted passage\x1b[0m text";
    assert_eq!(format_with_bold_highlights(input), expected);
}

#[test]
fn test_format_with_bold_highlights_questions() {
    let input = "This is 【highlighted question】 text";
    let expected = "This is \x1b[31mhighlighted question\x1b[0m text";
    assert_eq!(format_with_bold_highlights(input), expected);
}

#[test]
fn test_format_with_bold_highlights_answers() {
    let input = "This is ⟦highlighted answer⟧ text";
    let expected = "This is \x1b[35mhighlighted answer\x1b[0m text";
    assert_eq!(format_with_bold_highlights(input), expected);
}

#[test]
fn test_format_with_bold_highlights_mixed() {
    let input = "⟨passage⟩ and 【question】 and ⟦answer⟧";
    let expected = "\x1b[36mpassage\x1b[0m and \x1b[31mquestion\x1b[0m and \x1b[35manswer\x1b[0m";
    assert_eq!(format_with_bold_highlights(input), expected);
}

#[test]
fn test_format_with_bold_highlights_nested() {
    let input = "⟨outer ⟦inner⟧ outer⟩";
    let expected = "\x1b[36mouter \x1b[35minner\x1b[0m outer\x1b[0m";
    assert_eq!(format_with_bold_highlights(input), expected);
}

#[test]
fn test_format_with_bold_highlights_empty() {
    let input = "";
    let expected = "";
    assert_eq!(format_with_bold_highlights(input), expected);
}

#[test]
fn test_format_with_bold_highlights_no_markers() {
    let input = "Plain text without markers";
    let expected = "Plain text without markers";
    assert_eq!(format_with_bold_highlights(input), expected);
}

#[test]
fn test_format_with_bold_highlights_empty_markers() {
    let input = "Empty ⟨⟩ markers 【】 here ⟦⟧";
    let expected = "Empty \x1b[36m\x1b[0m markers \x1b[31m\x1b[0m here \x1b[35m\x1b[0m";
    assert_eq!(format_with_bold_highlights(input), expected);
}

#[test]
fn test_format_with_bold_highlights_unicode_content() {
    let input = "Unicode ⟨こんにちは⟩ content 【世界】 test ⟦🌍⟧";
    let expected = "Unicode \x1b[36mこんにちは\x1b[0m content \x1b[31m世界\x1b[0m test \x1b[35m🌍\x1b[0m";
    assert_eq!(format_with_bold_highlights(input), expected);
}
