use std::collections::{HashMap, HashSet};

fn create_test_ngram_doc_frequencies() -> HashMap<u32, usize> {
    let mut map = HashMap::new();
    // ngram_id 1 appears in 3 docs
    map.insert(1, 3);
    // ngram_id 2 appears in 1 doc
    map.insert(2, 1);
    // ngram_id 3 appears in 2 docs
    map.insert(3, 2);
    map
}

#[test]
fn test_question_idf_sum_calculation() {
    let ngram_doc_frequencies = create_test_ngram_doc_frequencies();
    let total_docs = 10.0;

    // Test with ngrams 1 and 2
    let mut ngram_ids = HashSet::new();
    ngram_ids.insert(1); // appears in 3 docs
    ngram_ids.insert(2); // appears in 1 doc

    // Calculate IDF sum directly using cached frequencies
    let mut idf_sum = 0.0f32;
    let mut sorted_ids: Vec<u32> = ngram_ids.iter().copied().collect();
    sorted_ids.sort_unstable();
    for ngram_id in sorted_ids {
        if let Some(&doc_freq) = ngram_doc_frequencies.get(&ngram_id) {
            let idf = (total_docs / doc_freq as f32).ln();
            idf_sum += idf;
        }
    }

    // IDF for ngram 1: ln(10/3) ≈ 1.204
    // IDF for ngram 2: ln(10/1) ≈ 2.303
    // Sum ≈ 3.507
    assert!((idf_sum - 3.507).abs() < 0.01);
}
