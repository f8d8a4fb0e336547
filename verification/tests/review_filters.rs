use decon::compare::suite_count_changes;
use decon::review::{passes_match_filters, ContaminationRecord};
use decon::text::clean_text;

fn rec(eval_dataset: &str, eval_key: Option<&str>, ngram_match_cnt: Option<usize>) -> ContaminationRecord {
    ContaminationRecord {
        training_file: "train.jsonl".to_string(),
        training_line: 1,
        eval_dataset: eval_dataset.to_string(),
        eval_key: eval_key.map(|k| k.to_string()),
        eval_line: 1,
        eval_instance_index: Some(0),
        split: None,
        ngram_match_cnt,
    }
}

#[test]
fn match_length_filter_needs_a_count() {
    assert!(passes_match_filters(&rec("mmlu", None, Some(10)), Some(10), None));
    assert!(!passes_match_filters(&rec("mmlu", None, Some(9)), Some(10), None));
    assert!(!passes_match_filters(&rec("mmlu", None, None), Some(0), None));
    assert!(passes_match_filters(&rec("mmlu", None, None), None, None));
}

#[test]
fn eval_filter_reads_the_eval_key_first() {
    assert!(passes_match_filters(&rec("mmlu_file", Some("mmlu"), None), None, Some("mmlu")));
    assert!(!passes_match_filters(&rec("mmlu", Some("gsm8k"), None), None, Some("mmlu")));
    assert!(passes_match_filters(&rec("gsm8k", None, None), None, Some("gsm8k")));
    assert!(!passes_match_filters(&rec("gsm8k", None, None), None, Some("gsm")));
}

#[test]
fn change_table_merges_and_orders_by_change() {
    let first = vec![("a".to_string(), 5), ("b".to_string(), 2)];
    let second = vec![("b".to_string(), 7), ("c".to_string(), 1)];
    let rows = suite_count_changes(&first, &second);
    assert_eq!(
        rows,
        vec![
            ("b".to_string(), 2, 7, 5),
            ("c".to_string(), 0, 1, 1),
            ("a".to_string(), 5, 0, -5),
        ]
    );
    assert!(suite_count_changes(&vec![], &vec![]).is_empty());
}

#[test]
fn cleaned_text_is_clean_again() {
    let p = ".,!?";
    for t in ["  Hello,   World!! ", "a\t\nb", "...", "Ünïcode\u{a0}Text?"] {
        let r = clean_text(t, p);
        assert_eq!(r.trim(), r);
        assert!(!r.contains("  "));
        assert!(!r.chars().any(|c| p.contains(c)));
        assert_eq!(clean_text(&r, p), r);
    }
    assert_eq!(clean_text("  Hello,   World!! ", ".,!?"), "hello world");
}
