use std::collections::{HashMap, HashSet};

use decon::index::{
    build_question_index, get_or_create_ngram_id, EvalDocumentCounts, ReferenceIndexBuilder,
};
use decon::keyset::TextKeySet;
use decon::ngram::hash_ngram;
use decon::reference::{
    build_combined_text_for_filtering, check_and_mark_duplicate, parse_reference_entry,
    decide_reference_line, reference_fields_of_line, should_skip_by_unique_words, LineDecision, ReferenceEntry,
    ReferenceEntryError, ReferenceFields,
};
use decon::text::clean_text;
use decon::tokenizer::OmniTokenizer;

const PUNCTUATION: &str = ".,!?";

fn create_test_tokenizer() -> OmniTokenizer {
    OmniTokenizer::new("cl100k").unwrap()
}

/// Tokens of a cleaned text as indexing takes them: padded with a space in
/// front, none for an empty text.
fn extract_tokens(cleaned: &str, tokenizer: &OmniTokenizer) -> Option<Vec<usize>> {
    if cleaned.is_empty() {
        return None;
    }
    Some(tokenizer.encode(&format!(" {}", cleaned)))
}

fn fields_from_json(text: &str) -> ReferenceFields {
    reference_fields_of_line(text).unwrap()
}

fn entry(doc_id: u32, eval_key: &str, fingerprint: Option<&str>) -> ReferenceEntry {
    ReferenceEntry {
        doc_id,
        eval_key: eval_key.to_string(),
        eval_instance_index: 0,
        has_answer_fields: false,
        fingerprint: fingerprint.map(|f| f.to_string()),
        is_correct: None,
        split: None,
        question_text: "test".to_string(),
        answer_text: String::new(),
        passage_text: String::new(),
    }
}

fn zero_counts() -> EvalDocumentCounts {
    EvalDocumentCounts { unique_ngrams: 0, token_count: 0, answer_token_length: 0, passage_token_length: 0 }
}

#[test]
fn reference_index_test_hash_ngram_consistency() {
    let tokens1 = vec![1, 2, 3];
    let tokens2 = vec![1, 2, 3];
    let tokens3 = vec![1, 2, 4];

    assert_eq!(hash_ngram(&tokens1), hash_ngram(&tokens2));
    assert_ne!(hash_ngram(&tokens1), hash_ngram(&tokens3));

    let empty: Vec<usize> = vec![];
    let _ = hash_ngram(&empty);
}

#[test]
fn detection_test_hash_ngram_consistency() {
    let tokens1 = vec![1, 2, 3];
    let tokens2 = vec![1, 2, 3];
    let tokens3 = vec![3, 2, 1];

    assert_eq!(hash_ngram(&tokens1), hash_ngram(&tokens2));
    assert_ne!(hash_ngram(&tokens1), hash_ngram(&tokens3));
}

#[test]
fn test_ngram_maps_basic() {
    let mut question_ngram_to_id: HashMap<u64, u32> = HashMap::new();
    let mut question_ngram_id_to_eval_doc_ids: HashMap<u32, HashSet<u32>> = HashMap::new();

    let test_tokens = vec![1, 2, 3];
    let test_hash = hash_ngram(&test_tokens);

    question_ngram_to_id.insert(test_hash, 100);
    let mut doc_ids = HashSet::new();
    doc_ids.insert(1);
    doc_ids.insert(2);
    doc_ids.insert(3);
    question_ngram_id_to_eval_doc_ids.insert(100, doc_ids.clone());

    let ngram_id = question_ngram_to_id.get(&test_hash);
    assert!(ngram_id.is_some());
    assert_eq!(*ngram_id.unwrap(), 100);

    let docs = question_ngram_id_to_eval_doc_ids.get(&100);
    assert!(docs.is_some());
    assert_eq!(docs.unwrap().len(), 3);
}

#[test]
fn test_get_or_create_ngram_id() {
    let mut ngram_to_id: HashMap<u64, u32> = HashMap::new();
    let mut next_id: u32 = 0;

    let tokens1 = vec![1, 2, 3];
    let tokens2 = vec![1, 2, 3];
    let tokens3 = vec![4, 5, 6];

    let id1 = get_or_create_ngram_id(&tokens1, &mut ngram_to_id, &mut next_id);
    assert_eq!(id1, 0);

    let id2 = get_or_create_ngram_id(&tokens2, &mut ngram_to_id, &mut next_id);
    assert_eq!(id2, id1);

    let id3 = get_or_create_ngram_id(&tokens3, &mut ngram_to_id, &mut next_id);
    assert_eq!(id3, 1);
    assert_ne!(id3, id1);
}

#[test]
fn test_should_skip_by_unique_words() {
    assert!(!should_skip_by_unique_words("test", 0));
    assert!(should_skip_by_unique_words("test test", 3));
    assert!(!should_skip_by_unique_words("one two three", 3));
    assert!(!should_skip_by_unique_words("one two three three", 3));
}

#[test]
fn test_build_combined_text_for_filtering() {
    let combined = build_combined_text_for_filtering(
        "passage text",
        "question text",
        "answer text",
        true,
        PUNCTUATION,
        true,
        true,
    );
    assert!(combined.contains("passage"));
    assert!(combined.contains("question"));
    assert!(combined.contains("answer"));

    let combined_no_answer = build_combined_text_for_filtering(
        "passage text",
        "question text",
        "answer text",
        false,
        PUNCTUATION,
        true,
        true,
    );
    assert!(!combined_no_answer.contains("answer"));

    let combined_empty = build_combined_text_for_filtering("", "question", "", true, PUNCTUATION, true, true);
    assert_eq!(combined_empty, "question");
}

#[test]
fn combined_text_is_cleaned_and_joined_in_order() {
    let combined = build_combined_text_for_filtering("The Passage!", "A  Question?", "An answer.", true, PUNCTUATION, true, true);
    assert_eq!(combined, "the passage a question an answer");
}

#[test]
fn test_check_and_mark_duplicate() {
    let mut dedup_map = Some(TextKeySet::new());

    let entry1 = entry(1, "test_eval", Some("fp123"));
    assert!(!check_and_mark_duplicate(&entry1, &mut dedup_map));
    assert!(check_and_mark_duplicate(&entry1, &mut dedup_map));

    let entry2 = entry(1, "different_eval", Some("fp123"));
    assert!(!check_and_mark_duplicate(&entry2, &mut dedup_map));

    let entry3 = entry(1, "test_eval", None);
    assert!(!check_and_mark_duplicate(&entry3, &mut dedup_map));

    let mut disabled: Option<TextKeySet> = None;
    assert!(!check_and_mark_duplicate(&entry1, &mut disabled));
}

#[test]
fn duplicate_check_separates_key_and_fingerprint() {
    let mut dedup_map = Some(TextKeySet::new());
    assert!(!check_and_mark_duplicate(&entry(1, "ab", Some("c")), &mut dedup_map));
    assert!(!check_and_mark_duplicate(&entry(2, "a", Some("bc")), &mut dedup_map));
    assert!(check_and_mark_duplicate(&entry(3, "a", Some("bc")), &mut dedup_map));
}

#[test]
fn test_parse_reference_entry() {
    let fields = fields_from_json(
        r#"{"doc_id": 42, "eval_key": "test_dataset", "eval_instance_index": 5,
            "question": "What is the capital?", "answer": "Paris",
            "passage": "France is a country...", "fingerprint": "abc123",
            "is_correct": true, "split": "train"}"#,
    );
    let entry = parse_reference_entry(fields, 0, "fallback").unwrap();
    assert_eq!(entry.doc_id, 42);
    assert_eq!(entry.eval_key, "test_dataset");
    assert_eq!(entry.eval_instance_index, 5);
    assert_eq!(entry.question_text, "What is the capital?");
    assert_eq!(entry.answer_text, "Paris");
    assert_eq!(entry.passage_text, "France is a country...");
    assert_eq!(entry.fingerprint, Some("abc123".to_string()));
    assert_eq!(entry.is_correct, Some(true));
    assert_eq!(entry.split, Some("train".to_string()));
    assert!(entry.has_answer_fields);

    let fields_min = fields_from_json(r#"{"doc_id": 1, "question": "Test?"}"#);
    let entry_min = parse_reference_entry(fields_min, 10, "fallback_eval").unwrap();
    assert_eq!(entry_min.doc_id, 1);
    assert_eq!(entry_min.eval_key, "fallback_eval");
    assert_eq!(entry_min.eval_instance_index, 10);
    assert_eq!(entry_min.question_text, "Test?");
    assert_eq!(entry_min.answer_text, "");
    assert_eq!(entry_min.passage_text, "");
    assert_eq!(entry_min.fingerprint, None);
    assert!(!entry_min.has_answer_fields);

    let fields_bad = fields_from_json(r#"{"question": "Test?"}"#);
    assert!(parse_reference_entry(fields_bad, 0, "fallback").is_err());
}

#[test]
fn parse_reference_entry_falls_back_to_eval_name_and_truncates_ids() {
    let fields = fields_from_json(r#"{"doc_id": 4294967297, "eval_name": "named"}"#);
    let entry = parse_reference_entry(fields, 3, "fallback").unwrap();
    assert_eq!(entry.doc_id, 1);
    assert_eq!(entry.eval_key, "named");

    let missing = fields_from_json(r#"{"doc_id": "7"}"#);
    assert!(matches!(parse_reference_entry(missing, 0, "f"), Err(ReferenceEntryError::MissingDocId)));
}

#[test]
fn test_process_question_field() {
    let tokenizer = create_test_tokenizer();
    let mut builder = ReferenceIndexBuilder::new();

    let entry = ReferenceEntry {
        doc_id: 1,
        eval_key: "test_eval".to_string(),
        eval_instance_index: 5,
        has_answer_fields: false,
        fingerprint: Some("fp123".to_string()),
        is_correct: Some(true),
        split: Some("train".to_string()),
        question_text: "This is a test question with multiple words".to_string(),
        answer_text: String::new(),
        passage_text: String::new(),
    };

    let cleaned = clean_text(&entry.question_text, PUNCTUATION);
    let tokens = extract_tokens(&cleaned, &tokenizer);
    let indexed = builder.process_question_field(&entry, 0, 0, &cleaned, tokens.as_deref(), 3);
    assert!(indexed);

    assert!(builder.eval_documents.contains_key(&1));
    assert!(builder.eval_document_metadata.contains_key(&1));
    let metadata = builder.eval_document_metadata.get(&1).unwrap();
    assert_eq!(metadata.eval_key, "test_eval");
    assert_eq!(metadata.is_correct, Some(true));
    assert_eq!(metadata.eval_instance_index, 5);

    assert!(builder.eval_text_snippets.contains_key(&1));

    assert!(!builder.question_ngram_to_id.is_empty());
    assert!(builder.eval_doc_id_to_question_ngram_ids.contains_key(&1));
}

#[test]
fn test_process_answer_field() {
    let tokenizer = create_test_tokenizer();
    let mut builder = ReferenceIndexBuilder::new();
    builder.eval_documents.insert(1, zero_counts());
    builder.eval_documents.insert(2, zero_counts());

    let cleaned = clean_text("Short", PUNCTUATION);
    let tokens = extract_tokens(&cleaned, &tokenizer);
    builder.process_answer_field(1, &cleaned, tokens.as_deref(), 10, 3);

    assert!(builder.eval_doc_id_to_answer_tokens.contains_key(&1));
    assert!(builder.eval_doc_id_to_answer_tokens_ordered.contains_key(&1));
    let doc_info = builder.eval_documents.get(&1).unwrap();
    assert!(doc_info.answer_token_length > 0);
    assert!(!builder.eval_doc_id_to_answer_ngram_ids.contains_key(&1));

    let long_answer = "This is a much longer answer that exceeds the token threshold for ngram indexing";
    let cleaned = clean_text(long_answer, PUNCTUATION);
    let tokens = extract_tokens(&cleaned, &tokenizer);
    builder.process_answer_field(2, &cleaned, tokens.as_deref(), 10, 3);

    assert!(builder.eval_doc_id_to_answer_tokens.contains_key(&2));
    assert!(builder.eval_doc_id_to_answer_ngram_ids.contains_key(&2));
    assert!(!builder.answer_ngram_doc_freq.is_empty());
    let doc_info = builder.eval_documents.get(&2).unwrap();
    assert!(doc_info.answer_token_length > 0);
}

#[test]
fn test_process_passage_field() {
    let tokenizer = create_test_tokenizer();
    let mut builder = ReferenceIndexBuilder::new();

    let passage = "This is a test passage with enough words to create multiple ngrams";
    builder.eval_documents.insert(1, zero_counts());

    let cleaned = clean_text(passage, PUNCTUATION);
    let tokens = extract_tokens(&cleaned, &tokenizer);
    builder.process_passage_field(1, &cleaned, tokens.as_deref(), 4);

    assert!(builder.eval_doc_id_to_passage_tokens.contains_key(&1));
    if let Some(entry) = builder.eval_documents.get(&1) {
        assert!(entry.passage_token_length > 0);
    }
    assert!(builder.eval_doc_id_to_passage_ngram_ids.contains_key(&1));
    assert!(!builder.passage_ngram_doc_freq.is_empty());
    assert!(builder.eval_passage_text_snippets.contains_key(&1));

    let snippet = builder.eval_passage_text_snippets.get(&1).unwrap();
    assert!(snippet.contains("passage"));
}

#[test]
fn test_index_control_flags() {
    let combined = build_combined_text_for_filtering("passage text", "question text", "answer text", true, PUNCTUATION, true, true);
    assert!(combined.contains("passage"));
    assert!(combined.contains("question"));
    assert!(combined.contains("answer"));

    let combined = build_combined_text_for_filtering("passage text", "question text", "answer text", true, PUNCTUATION, false, false);
    assert!(!combined.contains("passage"));
    assert!(combined.contains("question"));
    assert!(!combined.contains("answer"));

    let combined = build_combined_text_for_filtering("passage text", "question text", "answer text", true, PUNCTUATION, false, true);
    assert!(!combined.contains("passage"));
    assert!(combined.contains("question"));
    assert!(combined.contains("answer"));

    let combined = build_combined_text_for_filtering("passage text", "question text", "answer text", true, PUNCTUATION, true, false);
    assert!(combined.contains("passage"));
    assert!(combined.contains("question"));
    assert!(!combined.contains("answer"));
}

#[test]
fn short_question_counts_as_one_ngram() {
    let mut builder = ReferenceIndexBuilder::new();
    let total = builder.process_question_tokens(7, &[10, 11], 5);
    assert_eq!(total, 1);
    assert_eq!(builder.question_ngram_to_id.len(), 1);
    let id = builder.question_ngram_to_id[&hash_ngram(&[10, 11])];
    assert!(builder.question_ngram_id_to_eval_doc_ids[&id].contains(&7));
    assert_eq!(builder.eval_documents[&7].unique_ngrams, 1);
    assert_eq!(builder.eval_documents[&7].token_count, 2);
}

#[test]
fn indexed_question_ngrams_list_their_document() {
    let mut builder = ReferenceIndexBuilder::new();
    let total = builder.process_question_tokens(1, &[1, 2, 3, 4, 5], 3);
    assert_eq!(total, 3);
    builder.process_question_tokens(2, &[3, 4, 5, 6], 3);
    for window in [[1, 2, 3], [2, 3, 4], [3, 4, 5]] {
        let id = builder.question_ngram_to_id[&hash_ngram(&window)];
        assert!(builder.question_ngram_id_to_eval_doc_ids[&id].contains(&1));
    }
    let shared = builder.question_ngram_to_id[&hash_ngram(&[3, 4, 5])];
    assert_eq!(builder.question_ngram_id_to_eval_doc_ids[&shared], HashSet::from([1, 2]));
    assert_eq!(builder.next_ngram_id, 4);
    assert_eq!(builder.token_eval_doc_freq[&3], 2);
    assert_eq!(builder.token_eval_doc_freq[&1], 1);
}

#[test]
fn new_question_ngrams_are_counted_before_indexing() {
    let mut builder = ReferenceIndexBuilder::new();
    builder.process_question_tokens(1, &[1, 2, 3, 4], 3);
    assert_eq!(builder.count_new_question_ngrams(&[2, 3, 4, 5, 2, 3, 4], 3), 3);
    assert_eq!(builder.count_new_question_ngrams(&[1, 2, 3], 3), 0);
}

#[test]
fn hot_buckets_keep_their_documents_aside() {
    let mut builder = ReferenceIndexBuilder::new();
    for doc in 1..=5u32 {
        builder.track_doc_id(doc);
        builder.process_question_tokens(doc, &[100, 200, 300, doc as usize], 3);
    }
    let (index, replaced) = build_question_index(
        builder.question_ngram_to_id,
        builder.question_ngram_id_to_eval_doc_ids,
        builder.max_doc_id,
        3,
    );
    assert_eq!(replaced, 1);
    assert_eq!(index.hot_bucket_id, 6);
    let hot_id = index.question_ngram_to_id[&hash_ngram(&[100, 200, 300])];
    assert_eq!(index.question_ngram_id_to_eval_doc_ids[&hot_id], HashSet::from([6]));
    assert_eq!(index.question_ngram_id_to_hot_bucket_doc_ids[&hot_id], HashSet::from([1, 2, 3, 4, 5]));
    let cold_id = index.question_ngram_to_id[&hash_ngram(&[200, 300, 2])];
    assert_eq!(index.question_ngram_id_to_eval_doc_ids[&cold_id], HashSet::from([2]));
}

#[test]
fn reference_line_fields_read_json_members() {
    let f = reference_fields_of_line(
        r#"{"doc_id": 18446744073709551615, "eval_instance_index": 2.0, "is_correct": false, "answer": 7, "eval_key": "k"}"#,
    )
    .unwrap();
    assert_eq!(f.doc_id, Some(u64::MAX));
    assert_eq!(f.eval_instance_index, None);
    assert_eq!(f.is_correct, Some(false));
    assert!(f.has_answer);
    assert_eq!(f.answer, None);
    assert_eq!(f.eval_key.as_deref(), Some("k"));
    assert_eq!(reference_fields_of_line(r#"{"doc_id": -3}"#).unwrap().doc_id, None);
    assert_eq!(reference_fields_of_line(r#"{"doc_id": 1e3}"#).unwrap().doc_id, None);
    assert!(reference_fields_of_line("{not json").is_none());
}

#[test]
fn reference_lines_are_decided_in_order_of_the_checks() {
    let text = "alpha beta gamma delta";
    let mut dedup = Some(TextKeySet::new());
    let e = entry(1, "suite", Some("fp"));
    assert_eq!(decide_reference_line(&e, text, true, 0, true, true, &mut dedup), LineDecision::SkipMinTokens);
    assert_eq!(decide_reference_line(&e, text, false, 10, true, true, &mut dedup), LineDecision::SkipMinUniqueWords);
    assert_eq!(
        decide_reference_line(&e, text, false, 4, true, true, &mut dedup),
        LineDecision::Index { answer: false, passage: false }
    );
    assert_eq!(decide_reference_line(&e, text, false, 4, true, true, &mut dedup), LineDecision::SkipDuplicate);
    let mut with_fields = entry(2, "suite", None);
    with_fields.has_answer_fields = true;
    with_fields.answer_text = "an answer".to_string();
    with_fields.passage_text = "a passage".to_string();
    assert_eq!(
        decide_reference_line(&with_fields, text, false, 0, true, false, &mut dedup),
        LineDecision::Index { answer: true, passage: false }
    );
    let mut no_question = entry(3, "suite", None);
    no_question.question_text = String::new();
    assert_eq!(decide_reference_line(&no_question, text, false, 0, true, true, &mut None), LineDecision::NoQuestion);
}
