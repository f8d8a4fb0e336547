use decon::eval_stats::{collect_eval_stats, eval_record_of_line, EvalRecord};

fn lines(ls: &[&str]) -> Vec<EvalRecord> {
    ls.iter().filter_map(|l| eval_record_of_line(l)).collect()
}

fn rec(key: Option<&str>, q: Option<&str>, a: Option<&str>, p: Option<&str>) -> EvalRecord {
    let len = |t: Option<&str>| t.filter(|s| !s.trim().is_empty()).map(|s| s.len());
    EvalRecord { eval_key: key.map(|k| k.to_string()), question_len: len(q), answer_len: len(a), passage_len: len(p) }
}

#[test]
fn test_process_file_with_valid_json() {
    let records = lines(&[
        r#"{"eval_key": "test_eval", "question": "What is 2+2?", "answer": "4"}"#,
        r#"{"eval_key": "test_eval", "question": "What is the capital of France?", "answer": "Paris", "passage": "France is a country in Europe."}"#,
        r#"{"eval_key": "test_eval", "question": "", "answer": "Empty question"}"#,
        r#"{"question": "Missing eval_key", "answer": "Should be skipped"}"#,
    ]);
    let s = collect_eval_stats(&records);
    assert_eq!(s.rows.len(), 1);
    assert_eq!(s.skipped_records, 1);
    let r = &s.rows[0];
    assert_eq!(r.eval_key, "test_eval");
    assert_eq!(r.question_lengths, vec![12, 30]);
    assert_eq!(r.answer_lengths.len(), 3);
    assert_eq!(r.passage_lengths.len(), 1);
}

#[test]
fn eval_stats_skip_missing_and_blank_keys() {
    let records = vec![
        rec(None, None, None, None),
        rec(Some("test_eval"), Some("Only question"), None, None),
        rec(Some("test_eval"), None, Some("Only answer"), None),
        rec(Some("test_eval"), None, None, Some("Only passage")),
        rec(Some(""), Some("Empty eval_key"), None, None),
        rec(Some("  \t"), Some("Blank eval_key"), None, None),
    ];
    let s = collect_eval_stats(&records);
    assert_eq!(s.skipped_records, 3);
    assert_eq!(s.rows.len(), 1);
    assert_eq!(s.rows[0].question_lengths.len(), 1);
    assert_eq!(s.rows[0].answer_lengths.len(), 1);
    assert_eq!(s.rows[0].passage_lengths.len(), 1);
}

#[test]
fn test_eval_key_aggregation() {
    let records = lines(&[
        r#"{"eval_key": "shared_eval", "question": "Q1", "answer": "A1"}"#,
        r#"{"eval_key": "shared_eval", "question": "Q2", "answer": "A2"}"#,
        r#"{"eval_key": "shared_eval", "question": "Q3", "answer": "A3"}"#,
        r#"{"eval_key": "different_eval", "question": "Q4", "answer": "A4"}"#,
    ]);
    let s = collect_eval_stats(&records);
    assert_eq!(s.skipped_records, 0);
    assert_eq!(s.rows.len(), 2);
    let shared = s.rows.iter().find(|r| r.eval_key == "shared_eval").unwrap();
    assert_eq!(shared.question_lengths.len(), 3);
    assert_eq!(shared.answer_lengths.len(), 3);
    let different = s.rows.iter().find(|r| r.eval_key == "different_eval").unwrap();
    assert_eq!(different.question_lengths.len(), 1);
}

#[test]
fn test_length_calculations() {
    let records = lines(&[
        r#"{"eval_key": "test_eval", "question": "Short", "answer": "S"}"#,
        r#"{"eval_key": "test_eval", "question": "Medium length question", "answer": "Med"}"#,
        r#"{"eval_key": "test_eval", "question": "This is a very long question that should have the maximum length", "answer": "Long answer here"}"#,
    ]);
    let s = collect_eval_stats(&records);
    let stats = &s.rows[0];
    assert_eq!(*stats.question_lengths.iter().min().unwrap(), 5);
    assert_eq!(*stats.question_lengths.iter().max().unwrap(), 64);
    assert_eq!(*stats.answer_lengths.iter().min().unwrap(), 1);
    assert_eq!(*stats.answer_lengths.iter().max().unwrap(), 16);
    assert_eq!(stats.question_lengths, vec![5, 22, 64]);
    assert_eq!(stats.answer_lengths, vec![1, 3, 16]);
}

#[test]
fn test_process_file_missing_fields() {
    let records = lines(&[
        r#"{"text": "No question or answer"}"#,
        r#"{"eval_key": "test_eval", "question": "Only question"}"#,
        r#"{"eval_key": "test_eval", "answer": "Only answer"}"#,
        r#"{"eval_key": "test_eval", "passage": "Only passage"}"#,
        r#"{"eval_key": "", "question": "Empty eval_key"}"#,
    ]);
    let s = collect_eval_stats(&records);
    assert_eq!(s.skipped_records, 2);
    let stats = s.rows.iter().find(|r| r.eval_key == "test_eval").unwrap();
    assert_eq!(stats.question_lengths.len(), 1);
    assert_eq!(stats.answer_lengths.len(), 1);
    assert_eq!(stats.passage_lengths.len(), 1);
}

#[test]
fn test_collect_eval_stats_multiple_files() {
    let records = lines(&[
        r#"{"eval_key": "dataset1", "question": "Q1", "answer": "A1"}"#,
        r#"{"question": "Q_no_key", "answer": "A_no_key"}"#,
        r#"{"eval_key": "dataset2", "question": "Q2", "answer": "A2", "passage": "P2"}"#,
    ]);
    let s = collect_eval_stats(&records);
    assert_eq!(s.skipped_records, 1);
    assert_eq!(s.rows.len(), 2);
}

#[test]
fn test_collect_eval_stats_empty_dir() {
    let s = collect_eval_stats(&vec![]);
    assert_eq!(s.rows.len(), 0);
    assert_eq!(s.skipped_records, 0);
}

#[test]
fn test_process_file_with_invalid_json() {
    let records = lines(&[
        r#"{"eval_key": "test_eval", "question": "Valid JSON", "answer": "yes"}"#,
        "This is not JSON",
        "",
        r#"{"eval_key": "test_eval", "question": "Another valid", "answer": "line"}"#,
    ]);
    let s = collect_eval_stats(&records);
    assert_eq!(s.skipped_records, 0);
    let stats = s.rows.iter().find(|r| r.eval_key == "test_eval").unwrap();
    assert_eq!(stats.question_lengths.len(), 2);
    assert_eq!(stats.answer_lengths.len(), 2);
}

#[test]
fn eval_lines_measure_bytes() {
    let r = eval_record_of_line(r#"{"eval_key": "k", "question": "héllo", "answer": "  ", "passage": 5}"#).unwrap();
    assert_eq!(r.eval_key.as_deref(), Some("k"));
    assert_eq!(r.question_len, Some(6));
    assert_eq!(r.answer_len, None);
    assert_eq!(r.passage_len, None);
    assert!(eval_record_of_line("{").is_none());
}
