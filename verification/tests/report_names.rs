use decon::paths::{extract_base_filename, generate_report_filename};

fn threshold_text(threshold: f32) -> String {
    format!("{:.2}", threshold)
}

#[test]
fn test_generate_report_filename_with_simple_mode() {
    let base_dir = "/data/input";
    let input_file = "/data/input/subdir/test.jsonl";

    let result = generate_report_filename(input_file, "simple", &threshold_text(0.75), base_dir);
    assert_eq!(result, "subdir/test-simple-0.75.jsonl");
}

#[test]
fn test_generate_report_filename_with_other_mode() {
    let base_dir = "/data/input";
    let input_file = "/data/input/test.jsonl";

    let result = generate_report_filename(input_file, "minhash", &threshold_text(0.75), base_dir);
    assert_eq!(result, "test-minhash-0.75.jsonl");
}

#[test]
fn test_generate_report_filename_strip_prefix_fails() {
    let base_dir = "/different/path";
    let input_file = "/data/input/test.jsonl";

    let result = generate_report_filename(input_file, "simple", &threshold_text(0.5), base_dir);
    assert_eq!(result, "test-simple-0.50.jsonl");
}

#[test]
fn report_filename_keeps_compressed_stem() {
    let result = generate_report_filename("/data/in/a/b/part.jsonl.gz", "simple", "0.80", "/data/in");
    assert_eq!(result, "a/b/part.jsonl-simple-0.80.jsonl");
}

#[test]
fn base_filename_drops_compression_extensions() {
    assert_eq!(extract_base_filename("/x/y/data.jsonl.gz"), "data.jsonl");
    assert_eq!(extract_base_filename("/x/y/data.jsonl.zst"), "data.jsonl");
    assert_eq!(extract_base_filename("data.jsonl.zstd"), "data.jsonl");
    assert_eq!(extract_base_filename("/x/y/data.jsonl"), "data.jsonl");
    assert_eq!(extract_base_filename("/x/y/data.jsonl.bz2"), "data.jsonl.bz2");
    assert_eq!(extract_base_filename("/x/y/.gz"), ".gz");
    assert_eq!(extract_base_filename("/"), "unknown");
}
