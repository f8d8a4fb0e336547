use decon::compare;
use decon::review::{
    compute_contamination_metrics, count_eval_examples, dataset_removal_counts, suite_eval_instance_counts,
    suite_training_doc_counts, summarize_ngram_matches, ContaminationRecord, ContaminationRecordWithSource,
};
use decon::sort::{sort_ascending, sort_by_count};

fn record(training_file: &str, training_line: usize, eval_dataset: &str, eval_line: usize, eval_instance_index: Option<usize>) -> ContaminationRecord {
    ContaminationRecord {
        training_file: training_file.to_string(),
        training_line,
        eval_dataset: eval_dataset.to_string(),
        eval_key: None,
        eval_line,
        eval_instance_index,
        split: None,
        ngram_match_cnt: None,
    }
}

fn compare_record(
    training_file: &str,
    training_line: usize,
    eval_dataset: &str,
    eval_line: usize,
    eval_instance_index: Option<usize>,
    eval_key: Option<String>,
    split: Option<String>,
) -> ContaminationRecord {
    ContaminationRecord {
        training_file: training_file.to_string(),
        training_line,
        eval_dataset: eval_dataset.to_string(),
        eval_key,
        eval_line,
        eval_instance_index,
        split,
        ngram_match_cnt: None,
    }
}

fn example(eval_dataset: &str, eval_line: usize, training_file: &str) -> ContaminationRecord {
    record(training_file, 1, eval_dataset, eval_line, None)
}

fn with_source(training_file: &str, training_line: usize, source_file: &str) -> ContaminationRecordWithSource {
    ContaminationRecordWithSource {
        result: record(training_file, training_line, "mmlu", 1, None),
        source_file: source_file.to_string(),
    }
}

fn lookup<'a>(counts: &'a [(String, usize)], name: &str) -> Option<&'a usize> {
    counts.iter().find(|(n, _)| n == name).map(|(_, c)| c)
}

fn example_count(counts: &[((String, usize), usize)], dataset: &str, line: usize) -> Option<usize> {
    counts.iter().find(|((d, l), _)| d == dataset && *l == line).map(|(_, c)| *c)
}

#[test]
fn test_compute_contamination_metrics_basic() {
    let results = vec![
        record("file1.txt", 10, "mmlu", 100, None),
        record("file1.txt", 20, "mmlu", 200, None),
        record("file2.txt", 30, "gsm8k", 300, None),
    ];
    let metrics = compute_contamination_metrics(&results);
    assert_eq!(metrics.training_docs_contaminated, 3);
    assert_eq!(metrics.contamination_instances, 3);
    assert_eq!(metrics.contaminated_evals, 3);
}

#[test]
fn test_compute_contamination_metrics_duplicate_training_docs() {
    let results = vec![
        record("file1.txt", 10, "mmlu", 100, None),
        record("file1.txt", 10, "mmlu", 200, None),
        record("file1.txt", 10, "gsm8k", 300, None),
    ];
    let metrics = compute_contamination_metrics(&results);
    assert_eq!(metrics.training_docs_contaminated, 1);
    assert_eq!(metrics.contamination_instances, 3);
    assert_eq!(metrics.contaminated_evals, 3);
}

#[test]
fn test_compute_contamination_metrics_duplicate_eval_instances() {
    let results = vec![
        record("file1.txt", 10, "mmlu", 100, None),
        record("file2.txt", 20, "mmlu", 100, None),
        record("file3.txt", 30, "mmlu", 100, None),
    ];
    let metrics = compute_contamination_metrics(&results);
    assert_eq!(metrics.training_docs_contaminated, 3);
    assert_eq!(metrics.contamination_instances, 3);
    assert_eq!(metrics.contaminated_evals, 1);
}

#[test]
fn test_compute_contamination_metrics_with_eval_instance_index() {
    let results = vec![
        record("file1.txt", 10, "mmlu", 100, Some(1)),
        record("file2.txt", 20, "mmlu", 200, Some(1)),
        record("file3.txt", 30, "mmlu", 300, Some(2)),
    ];
    let metrics = compute_contamination_metrics(&results);
    assert_eq!(metrics.training_docs_contaminated, 3);
    assert_eq!(metrics.contamination_instances, 3);
    assert_eq!(metrics.contaminated_evals, 2);
}

#[test]
fn test_compute_contamination_metrics_empty() {
    let results = vec![];
    let metrics = compute_contamination_metrics(&results);
    assert_eq!(metrics.training_docs_contaminated, 0);
    assert_eq!(metrics.contamination_instances, 0);
    assert_eq!(metrics.contaminated_evals, 0);
}

#[test]
fn test_compute_contamination_metrics_mixed_instance_index() {
    let results = vec![
        record("file1.txt", 10, "mmlu", 100, Some(1)),
        record("file2.txt", 20, "mmlu", 200, None),
        record("file3.txt", 30, "gsm8k", 300, Some(3)),
    ];
    let metrics = compute_contamination_metrics(&results);
    assert_eq!(metrics.training_docs_contaminated, 3);
    assert_eq!(metrics.contamination_instances, 3);
    assert_eq!(metrics.contaminated_evals, 3);
}

#[test]
fn metrics_test_empty_results() {
    let results = vec![];
    let metrics = compare::compute_contamination_metrics(&results);
    assert_eq!(metrics.training_docs_contaminated, 0);
    assert_eq!(metrics.contamination_instances, 0);
    assert_eq!(metrics.contaminated_evals, 0);
}

#[test]
fn test_single_contamination_result() {
    let results = vec![compare_record(
        "train1.jsonl", 10, "mmlu", 5, Some(100), Some("mmlu_pro".to_string()), Some("test".to_string()),
    )];
    let metrics = compare::compute_contamination_metrics(&results);
    assert_eq!(metrics.training_docs_contaminated, 1);
    assert_eq!(metrics.contamination_instances, 1);
    assert_eq!(metrics.contaminated_evals, 1);
}

#[test]
fn test_multiple_results_same_training_doc() {
    let results = vec![
        compare_record("train1.jsonl", 10, "mmlu", 5, Some(100), Some("mmlu_pro".to_string()), Some("test".to_string())),
        compare_record("train1.jsonl", 10, "mmlu", 15, Some(101), Some("mmlu_pro".to_string()), Some("test".to_string())),
        compare_record("train1.jsonl", 10, "mmlu", 25, Some(102), Some("mmlu_pro".to_string()), Some("test".to_string())),
    ];
    let metrics = compare::compute_contamination_metrics(&results);
    assert_eq!(metrics.training_docs_contaminated, 1);
    assert_eq!(metrics.contamination_instances, 3);
    assert_eq!(metrics.contaminated_evals, 3);
}

#[test]
fn test_multiple_results_different_training_docs() {
    let results = vec![
        compare_record("train1.jsonl", 10, "mmlu", 5, Some(100), Some("mmlu_pro".to_string()), Some("test".to_string())),
        compare_record("train2.jsonl", 20, "mmlu", 5, Some(100), Some("mmlu_pro".to_string()), Some("test".to_string())),
        compare_record("train3.jsonl", 30, "mmlu", 5, Some(100), Some("mmlu_pro".to_string()), Some("test".to_string())),
    ];
    let metrics = compare::compute_contamination_metrics(&results);
    assert_eq!(metrics.training_docs_contaminated, 3);
    assert_eq!(metrics.contamination_instances, 3);
    assert_eq!(metrics.contaminated_evals, 1);
}

#[test]
fn test_duplicate_training_docs_counted_once() {
    let results = vec![
        compare_record("train1.jsonl", 10, "mmlu", 5, Some(100), None, None),
        compare_record("train1.jsonl", 10, "gsm8k", 15, Some(200), None, None),
    ];
    let metrics = compare::compute_contamination_metrics(&results);
    assert_eq!(metrics.training_docs_contaminated, 1);
    assert_eq!(metrics.contamination_instances, 2);
    assert_eq!(metrics.contaminated_evals, 2);
}

#[test]
fn test_eval_key_fallback_to_dataset() {
    let results = vec![compare_record("train1.jsonl", 10, "mmlu", 5, Some(100), None, Some("test".to_string()))];
    let metrics = compare::compute_contamination_metrics(&results);
    assert_eq!(metrics.contaminated_evals, 1);
}

#[test]
fn test_split_defaults_to_unknown() {
    let results = vec![compare_record("train1.jsonl", 10, "mmlu", 5, Some(100), Some("mmlu_pro".to_string()), None)];
    let metrics = compare::compute_contamination_metrics(&results);
    assert_eq!(metrics.contaminated_evals, 1);
}

#[test]
fn test_same_eval_instance_different_splits() {
    let results = vec![
        compare_record("train1.jsonl", 10, "mmlu", 5, Some(100), Some("mmlu_pro".to_string()), Some("train".to_string())),
        compare_record("train2.jsonl", 20, "mmlu", 5, Some(100), Some("mmlu_pro".to_string()), Some("test".to_string())),
    ];
    let metrics = compare::compute_contamination_metrics(&results);
    assert_eq!(metrics.training_docs_contaminated, 2);
    assert_eq!(metrics.contamination_instances, 2);
    assert_eq!(metrics.contaminated_evals, 2);
}

#[test]
fn compare_metrics_split_named_unknown_matches_missing_split() {
    let results = vec![
        compare_record("train1.jsonl", 10, "mmlu", 5, Some(100), None, Some("unknown".to_string())),
        compare_record("train2.jsonl", 20, "mmlu", 5, Some(100), None, None),
    ];
    let metrics = compare::compute_contamination_metrics(&results);
    assert_eq!(metrics.contaminated_evals, 1);
}

#[test]
fn test_count_eval_examples_basic() {
    let results = vec![
        example("mmlu", 10, "file1.txt"),
        example("mmlu", 10, "file2.txt"),
        example("mmlu", 20, "file3.txt"),
        example("gsm8k", 30, "file4.txt"),
    ];
    let eval_counts = count_eval_examples(&results);
    assert_eq!(eval_counts.len(), 3);
    assert_eq!(example_count(&eval_counts, "mmlu", 10), Some(2));
    assert_eq!(example_count(&eval_counts, "mmlu", 20), Some(1));
    assert_eq!(example_count(&eval_counts, "gsm8k", 30), Some(1));
}

#[test]
fn test_sort_eval_examples_by_count() {
    let results = vec![
        example("mmlu", 10, "file1.txt"),
        example("mmlu", 10, "file2.txt"),
        example("mmlu", 10, "file3.txt"),
        example("mmlu", 20, "file4.txt"),
        example("gsm8k", 30, "file5.txt"),
        example("gsm8k", 30, "file6.txt"),
    ];
    let sorted_counts = count_eval_examples(&results);
    assert_eq!(sorted_counts.len(), 3);
    assert_eq!(sorted_counts[0].0, ("mmlu".to_string(), 10));
    assert_eq!(sorted_counts[0].1, 3);
    assert_eq!(sorted_counts[1].0, ("gsm8k".to_string(), 30));
    assert_eq!(sorted_counts[1].1, 2);
    assert_eq!(sorted_counts[2].0, ("mmlu".to_string(), 20));
    assert_eq!(sorted_counts[2].1, 1);
}

#[test]
fn top_examples_test_empty_results() {
    let results: Vec<ContaminationRecord> = vec![];
    let eval_counts = count_eval_examples(&results);
    assert_eq!(eval_counts.len(), 0);
}

#[test]
fn test_single_result() {
    let results = vec![example("mmlu", 10, "file1.txt")];
    let eval_counts = count_eval_examples(&results);
    assert_eq!(eval_counts.len(), 1);
    assert_eq!(example_count(&eval_counts, "mmlu", 10), Some(1));
}

#[test]
fn test_all_unique_eval_examples() {
    let results = vec![
        example("mmlu", 10, "file1.txt"),
        example("mmlu", 20, "file2.txt"),
        example("gsm8k", 30, "file3.txt"),
        example("gsm8k", 40, "file4.txt"),
    ];
    let eval_counts = count_eval_examples(&results);
    assert_eq!(eval_counts.len(), 4);
    for (_, count) in &eval_counts {
        assert_eq!(*count, 1);
    }
}

#[test]
fn test_dataset_counts_unique_removals() {
    let results = vec![
        with_source("file1.txt", 10, "/reports/dataset1/results.jsonl"),
        with_source("file1.txt", 10, "/reports/dataset1/results.jsonl"),
        with_source("file2.txt", 20, "/reports/dataset1/results.jsonl"),
        with_source("file3.txt", 30, "/reports/dataset2/results.jsonl"),
    ];
    let dataset_removals = dataset_removal_counts(&results, "/reports");
    assert_eq!(dataset_removals.len(), 2);
    assert_eq!(lookup(&dataset_removals, "dataset1"), Some(&2));
    assert_eq!(lookup(&dataset_removals, "dataset2"), Some(&1));
    assert_eq!(dataset_removals[0].0, "dataset1");
}

#[test]
fn test_dataset_counts_empty_results() {
    let results: Vec<ContaminationRecordWithSource> = vec![];
    let dataset_removals = dataset_removal_counts(&results, "/reports");
    assert_eq!(dataset_removals.len(), 0);
}

#[test]
fn dataset_counts_outside_base_are_unknown() {
    let results = vec![
        with_source("file1.txt", 10, "/elsewhere/a.jsonl"),
        with_source("file2.txt", 10, "/reports/d/a.jsonl"),
    ];
    let counts = dataset_removal_counts(&results, "/reports");
    assert_eq!(counts.len(), 2);
    assert_eq!(lookup(&counts, "unknown"), Some(&1));
    assert_eq!(lookup(&counts, "d"), Some(&1));
}

#[test]
fn suite_counts_use_eval_key_when_present() {
    let mut a = record("t1", 1, "mmlu", 5, None);
    a.eval_key = Some("mmlu_pro".to_string());
    let b = record("t1", 1, "mmlu", 6, None);
    let c = record("t2", 2, "mmlu", 7, None);
    let d = record("t2", 2, "gsm8k", 7, None);
    let results = vec![a, b, c, d];
    let docs = suite_training_doc_counts(&results);
    assert_eq!(docs.len(), 3);
    assert_eq!(docs[0], ("mmlu".to_string(), 2));
    assert_eq!(lookup(&docs, "mmlu_pro"), Some(&1));
    assert_eq!(lookup(&docs, "gsm8k"), Some(&1));
}

#[test]
fn suite_eval_instance_counts_prefer_instance_index() {
    let results = vec![
        record("t1", 1, "mmlu", 5, Some(9)),
        record("t2", 2, "mmlu", 6, Some(9)),
        record("t3", 3, "mmlu", 9, None),
        record("t4", 4, "mmlu", 10, None),
    ];
    let evals = suite_eval_instance_counts(&results);
    assert_eq!(evals, vec![("mmlu".to_string(), 2)]);
}

#[test]
fn ngram_summary_absent_without_counts() {
    let results = vec![record("t1", 1, "mmlu", 5, None)];
    assert!(summarize_ngram_matches(&results).is_none());
    assert!(summarize_ngram_matches(&vec![]).is_none());
}

#[test]
fn ngram_summary_statistics_and_histogram() {
    let mut results = Vec::new();
    for (i, c) in [3usize, 12, 7, 600, 2, 40].iter().enumerate() {
        let mut r = record("t", i, "mmlu", i, None);
        r.ngram_match_cnt = Some(*c);
        results.push(r);
    }
    results.push(record("t", 99, "mmlu", 99, None));
    let s = summarize_ngram_matches(&results).unwrap();
    assert_eq!(s.sorted_counts, vec![2, 3, 7, 12, 40, 600]);
    assert_eq!(s.missing, 1);
    assert_eq!(s.min, 2);
    assert_eq!(s.max, 600);
    assert_eq!(s.median, 9);
    assert_eq!(
        s.buckets,
        vec![
            ("1-5".to_string(), 2),
            ("6-10".to_string(), 1),
            ("11-20".to_string(), 1),
            ("21-50".to_string(), 1),
            ("500+".to_string(), 1),
        ]
    );
}

#[test]
fn ngram_summary_odd_median_and_zero_counts() {
    let mut results = Vec::new();
    for (i, c) in [0usize, 5, 1].iter().enumerate() {
        let mut r = record("t", i, "mmlu", i, None);
        r.ngram_match_cnt = Some(*c);
        results.push(r);
    }
    let s = summarize_ngram_matches(&results).unwrap();
    assert_eq!(s.median, 1);
    assert_eq!(s.buckets, vec![("1-5".to_string(), 2)]);
}

#[test]
fn ngram_summary_median_of_large_counts_does_not_overflow() {
    let mut results = Vec::new();
    for (i, c) in [usize::MAX, usize::MAX - 2].iter().enumerate() {
        let mut r = record("t", i, "mmlu", i, None);
        r.ngram_match_cnt = Some(*c);
        results.push(r);
    }
    let s = summarize_ngram_matches(&results).unwrap();
    assert_eq!(s.median, usize::MAX - 1);
}

#[test]
fn sorting_helpers_order_and_keep_items() {
    assert_eq!(sort_ascending(vec![5, 1, 4, 1]), vec![1, 1, 4, 5]);
    let sorted = sort_by_count(vec![(1, 0), (3, 1), (2, 2), (3, 3)]);
    let counts: Vec<usize> = sorted.iter().map(|p| p.0).collect();
    assert_eq!(counts, vec![3, 3, 2, 1]);
    let mut items: Vec<usize> = sorted.iter().map(|p| p.1).collect();
    items.sort();
    assert_eq!(items, vec![0, 1, 2, 3]);
}

#[test]
fn comparison_keys_find_lines_only_in_one_report() {
    let first = vec![record("train1.jsonl", 10, "mmlu", 5, None), record("train2.jsonl", 20, "gsm8k", 15, None)];
    let second = vec![record("train1.jsonl", 10, "mmlu", 5, Some(3)), record("train3.jsonl", 30, "humaneval", 25, None)];
    assert_eq!(compare::keys_present(&first, &second), vec![true, false]);
    assert_eq!(compare::keys_present(&second, &first), vec![true, false]);
    assert_eq!(compare::keys_present(&first, &vec![]), vec![false, false]);
}

#[test]
fn comparison_keys_tell_line_numbers_apart() {
    let first = vec![record("train1.jsonl", 1, "mmlu", 23, None)];
    let second = vec![record("train1.jsonl", 12, "mmlu", 3, None)];
    assert_eq!(compare::keys_present(&first, &second), vec![false]);
}

#[test]
fn text_key_set_membership() {
    let mut set = decon::keyset::TextKeySet::new();
    let key = vec![vec!['a', 'b'], vec!['1']];
    assert!(!set.contains(&key));
    assert!(set.insert(key.clone()));
    assert!(set.contains(&key));
    assert!(!set.contains(&vec![vec!['a'], vec!['b', '1']]));
    assert!(!set.insert(key));
}

#[test]
fn hot_bucket_analysis_of_sizes() {
    let s = decon::hot_buckets::analyze(vec![3, 600, 12, 1, 60, 3]);
    assert_eq!(s.total_ngrams, 6);
    assert_eq!(s.sorted_sizes, vec![1, 3, 3, 12, 60, 600]);
    assert_eq!(s.median_bucket_size, 12);
    assert_eq!(s.max_bucket_size, 600);
    let rows: Vec<(usize, usize, String, usize)> = s.bucket_histogram.clone();
    assert_eq!(
        rows,
        vec![
            (1, 10, "1-10 docs".to_string(), 3),
            (11, 50, "11-50 docs".to_string(), 1),
            (51, 100, "51-100 docs".to_string(), 1),
            (101, 500, "101-500 docs".to_string(), 0),
            (501, usize::MAX, "500+ docs".to_string(), 1),
        ]
    );
}

#[test]
fn hot_bucket_analysis_of_nothing() {
    let s = decon::hot_buckets::analyze(vec![]);
    assert_eq!(s.total_ngrams, 0);
    assert_eq!(s.median_bucket_size, 0);
    assert_eq!(s.max_bucket_size, 0);
    assert!(s.bucket_histogram.iter().all(|r| r.3 == 0));
    assert_eq!(s.bucket_histogram.len(), 5);
}

#[test]
fn hot_bucket_largest_possible_size_is_not_counted() {
    let s = decon::hot_buckets::analyze(vec![usize::MAX, usize::MAX - 1]);
    assert_eq!(s.bucket_histogram[4].3, 1);
}
