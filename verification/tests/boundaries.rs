use std::collections::{HashMap, HashSet};

use decon::boundary::{find_answer_ngram_ranges, find_passage_match, find_short_answer_position};
use decon::ngram::hash_ngram;

struct PassageIndex {
    question_ngram_to_id: HashMap<u64, u32>,
    eval_doc_id_to_passage_ngram_ids: HashMap<u32, HashSet<u32>>,
    passage_ngram_idf: HashMap<u32, f32>,
    eval_passage_idf_cache: HashMap<u32, f32>,
}

struct AnswerIndex {
    question_ngram_to_id: HashMap<u64, u32>,
    eval_doc_id_to_answer_ngram_ids: HashMap<u32, HashSet<u32>>,
    answer_ngram_idf: HashMap<u32, f32>,
    answer_token_idf: HashMap<usize, f32>,
}

fn create_passage_index() -> PassageIndex {
    let mut question_ngram_to_id = HashMap::new();
    let mut eval_doc_id_to_passage_ngram_ids = HashMap::new();
    let mut passage_ngram_idf = HashMap::new();
    let mut eval_passage_idf_cache = HashMap::new();

    question_ngram_to_id.insert(hash_ngram(&[100, 101, 102]), 1000);
    question_ngram_to_id.insert(hash_ngram(&[102, 103, 104]), 1001);
    question_ngram_to_id.insert(hash_ngram(&[200, 201, 202]), 2000);
    question_ngram_to_id.insert(hash_ngram(&[300, 301, 302]), 3000);

    eval_doc_id_to_passage_ngram_ids.insert(1, HashSet::from([1000, 1001]));
    passage_ngram_idf.insert(1000, 2.0);
    passage_ngram_idf.insert(1001, 3.0);
    eval_passage_idf_cache.insert(1, 5.0);

    eval_doc_id_to_passage_ngram_ids.insert(2, HashSet::from([2000]));
    passage_ngram_idf.insert(2000, 4.0);
    eval_passage_idf_cache.insert(2, 4.0);

    PassageIndex { question_ngram_to_id, eval_doc_id_to_passage_ngram_ids, passage_ngram_idf, eval_passage_idf_cache }
}

fn create_answer_index() -> AnswerIndex {
    let mut question_ngram_to_id = HashMap::new();
    question_ngram_to_id.insert(hash_ngram(&[100, 101, 102]), 1000);
    question_ngram_to_id.insert(hash_ngram(&[102, 103, 104]), 1001);
    question_ngram_to_id.insert(hash_ngram(&[200, 201, 202]), 2000);
    question_ngram_to_id.insert(hash_ngram(&[300, 301, 302]), 3000);

    let mut eval_doc_id_to_answer_ngram_ids = HashMap::new();
    eval_doc_id_to_answer_ngram_ids.insert(1, HashSet::from([1000, 1001, 3000]));

    let mut answer_ngram_idf = HashMap::new();
    answer_ngram_idf.insert(1000, 2.5);
    answer_ngram_idf.insert(1001, 3.0);
    answer_ngram_idf.insert(2000, 1.5);
    answer_ngram_idf.insert(3000, 4.0);

    let mut answer_token_idf = HashMap::new();
    answer_token_idf.insert(500, 1.0);
    answer_token_idf.insert(501, 1.5);
    answer_token_idf.insert(502, 2.0);

    AnswerIndex { question_ngram_to_id, eval_doc_id_to_answer_ngram_ids, answer_ngram_idf, answer_token_idf }
}

fn sum_idf(ids: &[u32], idf: &HashMap<u32, f32>) -> f32 {
    let mut sorted: Vec<u32> = ids.to_vec();
    sorted.sort_unstable();
    sorted.iter().filter_map(|id| idf.get(id)).sum()
}

/// The passage lookup as detection runs it: the document's passage n-grams
/// and their cached IDF total decide whether to look, and the IDF of the
/// n-grams found gives the overlap.
fn passage_boundaries(
    index: &PassageIndex,
    doc_id: u32,
    question_start_idx: usize,
    training_tokens: &[usize],
    window_size: usize,
    passage_ngram_size: usize,
    max_misses: usize,
) -> Option<(usize, usize, f32)> {
    let ids = index.eval_doc_id_to_passage_ngram_ids.get(&doc_id)?;
    let total = *index.eval_passage_idf_cache.get(&doc_id)?;
    if total == 0.0 {
        return None;
    }
    let m = find_passage_match(
        question_start_idx,
        training_tokens,
        window_size,
        passage_ngram_size,
        max_misses,
        ids,
        &index.question_ngram_to_id,
    )?;
    let found = sum_idf(&m.matched_ngram_ids, &index.passage_ngram_idf);
    Some((m.start, m.end, found / total))
}

fn answer_boundaries(
    index: &AnswerIndex,
    doc_id: u32,
    question_end_idx: usize,
    training_tokens: &[usize],
    window_size: usize,
    ngram_size: usize,
) -> Option<(Vec<(usize, usize)>, f32)> {
    let window_start = question_end_idx + 1;
    let window_end = (window_start + window_size).min(training_tokens.len());
    if window_end <= window_start || window_end - window_start < ngram_size {
        return None;
    }
    let ids = index.eval_doc_id_to_answer_ngram_ids.get(&doc_id)?;
    let all: Vec<u32> = ids.iter().copied().collect();
    let total = sum_idf(&all, &index.answer_ngram_idf);
    if total == 0.0 {
        return None;
    }
    let m = find_answer_ngram_ranges(question_end_idx, training_tokens, window_size, ngram_size, ids, &index.question_ngram_to_id)?;
    let found = sum_idf(&m.matched_ngram_ids, &index.answer_ngram_idf);
    Some((m.boundaries, found / total))
}

fn short_answer(
    answer_tokens: &[usize],
    answer_token_set: &HashSet<usize>,
    question_end_idx: usize,
    training_tokens: &[usize],
    window_size: usize,
    answer_token_idf: &HashMap<usize, f32>,
) -> Option<(Vec<(usize, usize)>, f32)> {
    let (s, e) = find_short_answer_position(answer_tokens, question_end_idx, training_tokens, window_size)?;
    let matched: HashSet<usize> = answer_tokens.iter().copied().collect();
    let total: f32 = answer_token_set.iter().filter_map(|t| answer_token_idf.get(t)).sum();
    let found: f32 = matched.iter().filter(|t| answer_token_set.contains(t)).filter_map(|t| answer_token_idf.get(t)).sum();
    let overlap = if total > 0.0 { found / total } else { 0.0 };
    Some((vec![(s, e)], overlap))
}

fn answer_set() -> HashSet<usize> {
    HashSet::from([500, 501, 502])
}

#[test]
fn test_find_answer_boundaries_happy_path() {
    let index = create_answer_index();
    let training_tokens = vec![0, 1, 2, 3, 4, 5, 100, 101, 102, 103, 104, 200, 201, 202];
    let result = answer_boundaries(&index, 1, 5, &training_tokens, 10, 3);
    assert!(result.is_some());
    let (clusters, idf_overlap) = result.unwrap();
    assert_eq!(clusters.len(), 1);
    assert_eq!(clusters[0], (6, 10));
    assert!((idf_overlap - 0.579).abs() < 0.01);
}

#[test]
fn test_find_answer_boundaries_multiple_clusters() {
    let index = create_answer_index();
    let training_tokens = vec![
        0, 1, 2, 3, 4, 5, 100, 101, 102, 103, 104, 200, 201, 202, 203, 204, 205, 300, 301, 302,
    ];
    let result = answer_boundaries(&index, 1, 5, &training_tokens, 20, 3);
    assert!(result.is_some());
    let (clusters, idf_overlap) = result.unwrap();
    assert_eq!(clusters.len(), 2);
    assert_eq!(clusters[0], (6, 10));
    assert_eq!(clusters[1], (17, 19));
    assert_eq!(idf_overlap, 1.0);
}

#[test]
fn test_find_answer_boundaries_window_too_small() {
    let index = create_answer_index();
    let training_tokens = vec![0, 1, 2, 3, 4, 5, 100];
    assert!(answer_boundaries(&index, 1, 5, &training_tokens, 1, 3).is_none());
}

#[test]
fn test_find_answer_boundaries_no_matching_ngrams() {
    let index = create_answer_index();
    let training_tokens = vec![0, 1, 2, 3, 4, 5, 400, 401, 402, 403, 404];
    assert!(answer_boundaries(&index, 1, 5, &training_tokens, 10, 3).is_none());
}

#[test]
fn test_find_answer_boundaries_missing_doc_id() {
    let index = create_answer_index();
    let training_tokens = vec![0, 1, 2, 3, 4, 5, 100, 101, 102];
    assert!(answer_boundaries(&index, 999, 5, &training_tokens, 10, 3).is_none());
}

#[test]
fn test_find_answer_boundaries_zero_idf() {
    let mut index = create_answer_index();
    let mut answer_ngram_idf = HashMap::new();
    answer_ngram_idf.insert(1000, 0.0);
    answer_ngram_idf.insert(1001, 0.0);
    index.answer_ngram_idf = answer_ngram_idf;
    let training_tokens = vec![0, 1, 2, 3, 4, 5, 100, 101, 102, 103, 104];
    assert!(answer_boundaries(&index, 1, 5, &training_tokens, 10, 3).is_none());
}

#[test]
fn test_find_short_answer_exact_match_happy_path() {
    let index = create_answer_index();
    let training_tokens = vec![0, 1, 2, 3, 4, 5, 500, 501, 502, 600, 601];
    let result = short_answer(&[500, 501, 502], &answer_set(), 5, &training_tokens, 10, &index.answer_token_idf);
    assert!(result.is_some());
    let (clusters, idf_overlap) = result.unwrap();
    assert_eq!(clusters.len(), 1);
    assert_eq!(clusters[0], (6, 8));
    assert_eq!(idf_overlap, 1.0);
}

#[test]
fn test_find_short_answer_at_window_start() {
    let index = create_answer_index();
    let training_tokens = vec![0, 1, 2, 500, 501, 502, 600, 601];
    let result = short_answer(&[500, 501, 502], &answer_set(), 2, &training_tokens, 5, &index.answer_token_idf);
    assert!(result.is_some());
    let (clusters, _) = result.unwrap();
    assert_eq!(clusters[0], (3, 5));
}

#[test]
fn test_find_short_answer_at_window_end() {
    let index = create_answer_index();
    let training_tokens = vec![0, 1, 2, 600, 601, 602, 500, 501, 502];
    let result = short_answer(&[500, 501, 502], &answer_set(), 2, &training_tokens, 6, &index.answer_token_idf);
    assert!(result.is_some());
    let (clusters, _) = result.unwrap();
    assert_eq!(clusters[0], (6, 8));
}

#[test]
fn test_find_short_answer_no_match() {
    let index = create_answer_index();
    let training_tokens = vec![0, 1, 2, 3, 4, 5, 500, 501, 600, 700, 701];
    assert!(short_answer(&[500, 501, 502], &answer_set(), 5, &training_tokens, 10, &index.answer_token_idf).is_none());
}

#[test]
fn test_find_short_answer_outside_window() {
    let index = create_answer_index();
    let training_tokens = vec![0, 1, 2, 3, 4, 5, 600, 601, 500, 501, 502];
    assert!(short_answer(&[500, 501, 502], &answer_set(), 5, &training_tokens, 2, &index.answer_token_idf).is_none());
}

#[test]
fn test_find_short_answer_empty_answer() {
    let index = create_answer_index();
    let training_tokens = vec![0, 1, 2, 3, 4, 5, 600, 601];
    let result = short_answer(&[], &HashSet::new(), 5, &training_tokens, 10, &index.answer_token_idf);
    assert!(result.is_some());
    let (clusters, idf_overlap) = result.unwrap();
    assert_eq!(clusters[0], (6, 5));
    assert_eq!(idf_overlap, 0.0);
}

#[test]
fn test_find_passage_boundaries_happy_path() {
    let index = create_passage_index();
    let training_tokens = vec![0, 1, 2, 100, 101, 102, 103, 104, 105, 106, 200, 201, 202];
    let result = passage_boundaries(&index, 1, 10, &training_tokens, 10, 3, 2);
    assert!(result.is_some());
    let (start, end, idf_overlap) = result.unwrap();
    assert_eq!(start, 3);
    assert_eq!(end, 7);
    assert_eq!(idf_overlap, 1.0);
}

#[test]
fn test_find_passage_boundaries_no_matches() {
    let index = create_passage_index();
    let training_tokens = vec![400, 401, 402, 403, 404, 405, 406, 407, 408, 409, 200, 201, 202];
    assert!(passage_boundaries(&index, 1, 10, &training_tokens, 10, 3, 2).is_none());
}

#[test]
fn test_find_passage_boundaries_partial_match() {
    let index = create_passage_index();
    let training_tokens = vec![0, 1, 2, 3, 100, 101, 102, 105, 106, 200, 201, 202];
    let result = passage_boundaries(&index, 1, 10, &training_tokens, 10, 3, 2);
    assert!(result.is_some());
    let (start, end, idf_overlap) = result.unwrap();
    assert_eq!(start, 4);
    assert_eq!(end, 6);
    assert_eq!(idf_overlap, 0.4);
}

#[test]
fn test_find_passage_boundaries_with_gaps() {
    let mut question_ngram_to_id = HashMap::new();
    question_ngram_to_id.insert(hash_ngram(&[100, 101, 102]), 1000);
    question_ngram_to_id.insert(hash_ngram(&[300, 301, 302]), 3000);
    let mut eval_doc_id_to_passage_ngram_ids = HashMap::new();
    eval_doc_id_to_passage_ngram_ids.insert(3, HashSet::from([1000, 3000]));
    let mut passage_ngram_idf = HashMap::new();
    passage_ngram_idf.insert(1000, 2.0);
    passage_ngram_idf.insert(3000, 3.0);
    let mut eval_passage_idf_cache = HashMap::new();
    eval_passage_idf_cache.insert(3, 5.0);
    let index = PassageIndex { question_ngram_to_id, eval_doc_id_to_passage_ngram_ids, passage_ngram_idf, eval_passage_idf_cache };

    let training_tokens = vec![100, 101, 102, 200, 201, 300, 301, 302, 400, 401, 402, 403, 404, 500, 501, 502];
    let result = passage_boundaries(&index, 3, 15, &training_tokens, 15, 3, 2);
    assert!(result.is_some());
    let (start, end, idf_overlap) = result.unwrap();
    assert_eq!(start, 5);
    assert_eq!(end, 7);
    assert_eq!(idf_overlap, 0.6);
}

#[test]
fn test_find_passage_boundaries_exceeds_consecutive_misses() {
    let index = create_passage_index();
    let training_tokens = vec![100, 101, 102, 200, 201, 202, 203, 204, 205, 206, 102, 103, 104, 500, 501];
    let result = passage_boundaries(&index, 1, 15, &training_tokens, 15, 3, 2);
    assert!(result.is_some());
    let (start, end, idf_overlap) = result.unwrap();
    assert_eq!(start, 10);
    assert_eq!(end, 12);
    assert_eq!(idf_overlap, 0.6);
}

#[test]
fn test_find_passage_boundaries_window_too_small() {
    let index = create_passage_index();
    let training_tokens = vec![100, 101, 102, 103, 104, 200, 201, 202];
    assert!(passage_boundaries(&index, 1, 5, &training_tokens, 2, 3, 2).is_none());
}

#[test]
fn test_find_passage_boundaries_doc_not_in_index() {
    let index = create_passage_index();
    let training_tokens = vec![100, 101, 102, 103, 104, 105, 106, 107, 108, 109, 200, 201, 202];
    assert!(passage_boundaries(&index, 999, 10, &training_tokens, 10, 3, 2).is_none());
}

#[test]
fn test_find_passage_boundaries_zero_idf_cache() {
    let mut question_ngram_to_id = HashMap::new();
    question_ngram_to_id.insert(hash_ngram(&[100, 101, 102]), 1000);
    let mut eval_doc_id_to_passage_ngram_ids = HashMap::new();
    eval_doc_id_to_passage_ngram_ids.insert(4, HashSet::from([1000]));
    let mut passage_ngram_idf = HashMap::new();
    passage_ngram_idf.insert(1000, 2.0);
    let mut eval_passage_idf_cache = HashMap::new();
    eval_passage_idf_cache.insert(4, 0.0);
    let index = PassageIndex { question_ngram_to_id, eval_doc_id_to_passage_ngram_ids, passage_ngram_idf, eval_passage_idf_cache };

    let tokens = [100, 101, 102, 103, 104, 105, 106, 107, 108, 109, 200, 201];
    assert!(passage_boundaries(&index, 4, 10, &tokens, 10, 3, 2).is_none());
}

#[test]
fn test_find_passage_boundaries_backward_traversal() {
    let index = create_passage_index();
    let training_tokens = vec![100, 101, 102, 103, 104, 105, 102, 103, 104, 106, 200, 201, 202];
    let result = passage_boundaries(&index, 1, 10, &training_tokens, 10, 3, 5);
    assert!(result.is_some());
    let (start, end, idf_overlap) = result.unwrap();
    assert_eq!(start, 0);
    assert_eq!(end, 8);
    assert_eq!(idf_overlap, 1.0);
}

#[test]
fn test_find_passage_boundaries_duplicate_ngrams() {
    let index = create_passage_index();
    let training_tokens = vec![100, 101, 102, 100, 101, 102, 100, 101, 102, 103, 104, 105, 200, 201];
    let result = passage_boundaries(&index, 1, 15, &training_tokens, 12, 3, 2);
    assert!(result.is_some());
    let (start, end, idf_overlap) = result.unwrap();
    assert_eq!(start, 3);
    assert_eq!(end, 10);
    assert_eq!(idf_overlap, 1.0);
}

#[test]
fn test_find_passage_boundaries_at_window_edge() {
    let index = create_passage_index();
    let training_tokens = vec![100, 101, 102, 103, 104, 105, 200, 201, 202];
    let result = passage_boundaries(&index, 1, 6, &training_tokens, 6, 3, 2);
    assert!(result.is_some());
    let (start, end, idf_overlap) = result.unwrap();
    assert_eq!(start, 0);
    assert_eq!(end, 4);
    assert_eq!(idf_overlap, 1.0);
}
