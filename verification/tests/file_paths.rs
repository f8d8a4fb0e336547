use decon::paths::{extract_dataset_name_from_report_path, generate_purified_filename};

#[test]
fn test_generate_purified_filename_with_jsonl_gz() {
    let base_dir = "/data/input";
    let input_file = "/data/input/subdir/test.jsonl.gz";

    let result = generate_purified_filename(input_file, base_dir);
    assert_eq!(result, "subdir/test.jsonl.gz");
}

#[test]
fn test_generate_purified_filename_with_jsonl() {
    let base_dir = "/data/input";
    let input_file = "/data/input/test.jsonl";

    let result = generate_purified_filename(input_file, base_dir);
    assert_eq!(result, "test.jsonl.gz");
}

#[test]
fn test_generate_purified_filename_without_jsonl() {
    let base_dir = "/data/input";
    let input_file = "/data/input/test.txt";

    let result = generate_purified_filename(input_file, base_dir);
    assert_eq!(result, "test.jsonl.gz");
}

#[test]
fn purified_filename_outside_base_uses_file_name() {
    let result = generate_purified_filename("/elsewhere/deep/part.jsonl.zst", "/data/input");
    assert_eq!(result, "part.jsonl.gz");
}

#[test]
fn purified_filename_keeps_nested_directories() {
    let result = generate_purified_filename("/data/input/a/b/c/x.json.gz", "/data/input/");
    assert_eq!(result, "a/b/c/x.json.jsonl.gz");
}

#[test]
fn test_extract_dataset_name_simple() {
    let name = extract_dataset_name_from_report_path("/reports/dataset1/results.jsonl", "/reports");
    assert_eq!(name, "dataset1");
}

#[test]
fn test_extract_dataset_name_nested() {
    let name = extract_dataset_name_from_report_path("/reports/dataset2/subfolder/results.jsonl", "/reports");
    assert_eq!(name, "dataset2");
}

#[test]
fn test_extract_dataset_name_unknown() {
    let name = extract_dataset_name_from_report_path("/other/path/results.jsonl", "/reports");
    assert_eq!(name, "unknown");
}

#[test]
fn test_extract_dataset_name_direct_file() {
    let name = extract_dataset_name_from_report_path("/reports/results.jsonl", "/reports");
    // A direct file in the base directory will return the filename itself
    assert_eq!(name, "results.jsonl");
}

#[test]
fn dataset_name_of_base_directory_itself_is_unknown() {
    assert_eq!(extract_dataset_name_from_report_path("/reports", "/reports"), "unknown");
}

#[test]
fn a_leading_current_directory_is_a_component() {
    assert_eq!(extract_dataset_name_from_report_path("./evals/sub/x.jsonl", "evals"), "unknown");
    assert_eq!(generate_purified_filename("./evals/sub/x.jsonl", "evals"), "x.jsonl.gz");
    assert_eq!(generate_purified_filename("./evals/sub/x.jsonl", "./evals"), "sub/x.jsonl.gz");
    assert_eq!(extract_dataset_name_from_report_path("evals/./sub/x.jsonl", "evals"), "sub");
    assert_eq!(generate_purified_filename(".", "other"), "unknown.jsonl.gz");
}

#[test]
fn naming_a_cleaned_file_again_keeps_its_name() {
    for (input, base) in [
        ("/data/input/subdir/test.jsonl.gz", "/data/input"),
        ("/data/input/a/b/file.json", "/data/input/"),
        ("/elsewhere/x.jsonl.zst", "/data/input"),
        ("./a/b.jsonl", ""),
        ("rel/dir/c.tar", "rel"),
    ] {
        let r = generate_purified_filename(input, base);
        assert!(r.ends_with(".jsonl.gz"));
        assert!(!r.starts_with('/'));
        let joined = std::path::Path::new(base).join(&r);
        assert_eq!(generate_purified_filename(joined.to_str().unwrap(), base), r);
    }
}
