use decon::text::{clean_text, default_punctuation_chars};

#[test]
fn test_clean_text_with_default_punctuation() {
    let input = "  Hello, world! This is a test.  ";
    let expected = "hello world this is a test";
    let punctuation = default_punctuation_chars();
    assert_eq!(clean_text(input, &punctuation), expected);
}

#[test]
fn test_clean_text_with_custom_punctuation() {
    let input = "Remove|these|character!s";
    let expected = "remove these character!s";
    let punctuation = "|";
    assert_eq!(clean_text(input, punctuation), expected);
}

#[test]
fn test_clean_text_multiple_whitespace() {
    let input = "lots   of   whitespace";
    let expected = "lots of whitespace";
    let punctuation = default_punctuation_chars();
    assert_eq!(clean_text(input, &punctuation), expected);
}

#[test]
fn test_clean_text_uppercase() {
    let input = "UPPERCASE";
    let expected = "uppercase";
    let punctuation = default_punctuation_chars();
    assert_eq!(clean_text(input, &punctuation), expected);
}

#[test]
fn test_clean_text_empty_string() {
    let input = "";
    let expected = "";
    let punctuation = default_punctuation_chars();
    assert_eq!(clean_text(input, &punctuation), expected);
}

#[test]
fn test_clean_text_no_changes() {
    let input = "this should not change";
    let expected = "this should not change";
    let punctuation = default_punctuation_chars();
    assert_eq!(clean_text(input, &punctuation), expected);
}

#[test]
fn clean_text_collapses_tabs_and_newlines() {
    let punctuation = default_punctuation_chars();
    assert_eq!(clean_text("a\t\tb\n\nc", &punctuation), "a b c");
}

#[test]
fn clean_text_is_idempotent_on_an_example() {
    let punctuation = default_punctuation_chars();
    let once = clean_text("  Who wrote 'Hamlet'?  — Shakespeare. ", &punctuation);
    let twice = clean_text(&once, &punctuation);
    assert_eq!(once, twice);
    assert_eq!(once, "who wrote hamlet shakespeare");
}

#[test]
fn default_punctuation_chars_lists_ascii_and_quotes() {
    let p = default_punctuation_chars();
    assert!(p.contains('!'));
    assert!(p.contains('~'));
    assert!(p.contains('\u{201c}'));
    assert!(p.contains('\u{2014}'));
    assert_eq!(p.chars().count(), 38);
}

#[test]
fn readme_clean_text_example() {
    assert_eq!(decon::text::clean_text("Hello,  World!", &decon::text::default_punctuation_chars()), "hello world");
}
