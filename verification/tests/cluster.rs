use std::collections::{HashMap, HashSet};

use decon::cluster::{
    check_ngram_for_match, expand_simple_contamination_cluster, traverse_left, traverse_right,
    ExpansionContext, SimpleContaminationCluster, TraversalState,
};
use decon::ngram::hash_ngram;
use decon::stats::ThreadLocalStats;

struct TestMaps {
    ngram_to_id: HashMap<u64, u32>,
    id_to_docs: HashMap<u32, HashSet<u32>>,
    hot: HashMap<u32, HashSet<u32>>,
}

fn create_test_maps() -> TestMaps {
    let mut ngram_to_id = HashMap::new();
    let mut id_to_docs = HashMap::new();

    ngram_to_id.insert(1000, 1);
    ngram_to_id.insert(2000, 2);
    ngram_to_id.insert(3000, 3);
    ngram_to_id.insert(4000, 4);

    id_to_docs.insert(1, HashSet::from([10, 11]));
    id_to_docs.insert(2, HashSet::from([11, 12]));
    id_to_docs.insert(3, HashSet::from([10, 12, 13]));
    id_to_docs.insert(4, HashSet::new());

    TestMaps { ngram_to_id, id_to_docs, hot: HashMap::new() }
}

fn context(maps: &TestMaps, ngram_size: usize, misses: u32) -> ExpansionContext<'_> {
    ExpansionContext {
        question_ngram_to_id: &maps.ngram_to_id,
        question_ngram_id_to_eval_doc_ids: &maps.id_to_docs,
        ngram_size,
        question_max_consecutive_misses: misses,
        hot_bucket_id: 999999,
        question_ngram_id_to_hot_bucket_doc_ids: &maps.hot,
    }
}

fn empty_state(active: &[u32]) -> TraversalState {
    TraversalState {
        active_documents: active.iter().copied().collect(),
        document_matches: HashMap::new(),
        document_misses: HashMap::new(),
        document_boundaries: HashMap::new(),
        ngram_doc_frequencies: HashMap::new(),
    }
}

#[test]
fn test_check_ngram_for_match_found() {
    let maps = create_test_maps();
    let ctx = context(&maps, 3, 2);
    let result = check_ngram_for_match(1000, &ctx);
    assert!(result.is_some());
    let (ngram_id, doc_set) = result.unwrap();
    assert_eq!(ngram_id, 1);
    assert_eq!(doc_set.len(), 2);
    assert!(doc_set.contains(&10));
    assert!(doc_set.contains(&11));
}

#[test]
fn test_check_ngram_for_match_not_found() {
    let maps = create_test_maps();
    let ctx = context(&maps, 3, 2);
    assert!(check_ngram_for_match(9999, &ctx).is_none());
}

#[test]
fn test_check_ngram_for_match_empty_docs() {
    let maps = create_test_maps();
    let ctx = context(&maps, 3, 2);
    assert!(check_ngram_for_match(4000, &ctx).is_none());
}

#[test]
fn check_ngram_for_match_resolves_hot_bucket() {
    let mut maps = create_test_maps();
    maps.id_to_docs.insert(2, HashSet::from([999999]));
    maps.hot.insert(2, HashSet::from([20, 21, 22]));
    let ctx = context(&maps, 3, 2);
    let (id, docs) = check_ngram_for_match(2000, &ctx).unwrap();
    assert_eq!(id, 2);
    assert_eq!(docs, &HashSet::from([20, 21, 22]));
}

#[test]
fn test_simple_contamination_cluster_new() {
    let mut doc_matches = HashMap::new();
    doc_matches.insert(1, HashSet::from([100, 101]));
    let mut doc_boundaries = HashMap::new();
    doc_boundaries.insert(1, (5, 10));
    let mut ngram_doc_frequencies = HashMap::new();
    ngram_doc_frequencies.insert(100, 5);
    ngram_doc_frequencies.insert(101, 3);

    let cluster = SimpleContaminationCluster::new(doc_matches.clone(), doc_boundaries.clone(), ngram_doc_frequencies, 15);

    assert_eq!(cluster.document_matches.len(), 1);
    assert_eq!(cluster.document_boundaries.len(), 1);
    assert_eq!(cluster.end_idx, 15);
    assert_eq!(cluster.document_matches[&1].len(), 2);
    assert_eq!(cluster.document_boundaries[&1], (5, 10));
}

#[test]
fn test_simple_contamination_cluster_clone() {
    let mut doc_matches = HashMap::new();
    doc_matches.insert(1, HashSet::from([100]));
    let mut doc_boundaries = HashMap::new();
    doc_boundaries.insert(1, (5, 10));
    let mut ngram_doc_frequencies = HashMap::new();
    ngram_doc_frequencies.insert(100, 5);

    let cluster = SimpleContaminationCluster::new(doc_matches, doc_boundaries, ngram_doc_frequencies, 15);
    let cloned = cluster.clone();
    assert_eq!(cloned.document_matches.len(), cluster.document_matches.len());
    assert_eq!(cloned.document_boundaries.len(), cluster.document_boundaries.len());
    assert_eq!(cloned.end_idx, cluster.end_idx);
}

#[test]
fn test_traverse_left_basic() {
    let maps = create_test_maps();
    let ctx = context(&maps, 3, 2);
    let mut stats = ThreadLocalStats::default();
    let word_tokens = vec![100, 101, 102, 103, 104, 105, 106, 107, 108];
    let mut state = empty_state(&[10, 11]);
    state.document_matches.insert(10, HashSet::new());
    state.document_matches.insert(11, HashSet::new());
    state.document_misses.insert(10, 0);
    state.document_misses.insert(11, 0);
    state.document_boundaries.insert(10, (5, 5));
    state.document_boundaries.insert(11, (5, 5));

    let result = traverse_left(5, &word_tokens, &ctx, &mut state, &mut stats);
    assert!(result <= 5);
}

#[test]
fn test_traverse_left_boundary() {
    let maps = create_test_maps();
    let ctx = context(&maps, 3, 2);
    let mut stats = ThreadLocalStats::default();
    let word_tokens = vec![100, 101, 102];
    let mut state = empty_state(&[10]);

    let result = traverse_left(0, &word_tokens, &ctx, &mut state, &mut stats);
    assert_eq!(result, 0);
}

#[test]
fn test_traverse_right_basic() {
    let maps = create_test_maps();
    let ctx = context(&maps, 3, 2);
    let mut stats = ThreadLocalStats::default();
    let word_tokens = vec![100, 101, 102, 103, 104, 105, 106, 107, 108];
    let total_ngrams = word_tokens.len() - ctx.ngram_size + 1;
    let mut state = empty_state(&[10, 11]);
    state.document_matches.insert(10, HashSet::new());
    state.document_matches.insert(11, HashSet::new());
    state.document_misses.insert(10, 0);
    state.document_misses.insert(11, 0);
    state.document_boundaries.insert(10, (3, 3));
    state.document_boundaries.insert(11, (3, 3));

    let result = traverse_right(3, &word_tokens, &ctx, total_ngrams, &mut state, &mut stats);
    assert!(result >= 3);
    assert!(result < total_ngrams);
}

#[test]
fn test_traverse_right_boundary() {
    let maps = create_test_maps();
    let ctx = context(&maps, 3, 2);
    let mut stats = ThreadLocalStats::default();
    let word_tokens = vec![100, 101, 102];
    let mut state = empty_state(&[10]);

    let result = traverse_right(0, &word_tokens, &ctx, 1, &mut state, &mut stats);
    assert_eq!(result, 0);
}

#[test]
fn test_expand_contamination_cluster_insufficient_tokens() {
    let maps = create_test_maps();
    let ctx = context(&maps, 5, 2);
    let mut stats = ThreadLocalStats::default();
    let word_tokens = vec![1, 2, 3];
    let result = expand_simple_contamination_cluster(0, &word_tokens, &ctx, HashSet::new(), &[1, 2, 3], &mut stats);
    assert!(result.is_none());
}

#[test]
fn test_expand_contamination_cluster_basic() {
    let maps = create_test_maps();
    let ctx = context(&maps, 3, 2);
    let mut stats = ThreadLocalStats::default();
    let word_tokens = vec![100, 101, 102, 103, 104, 105, 106];
    let initial_docs: HashSet<u32> = HashSet::from([10, 11]);

    let result = expand_simple_contamination_cluster(2, &word_tokens, &ctx, initial_docs.clone(), &[102, 103, 104], &mut stats);
    assert!(result.is_some());
    let cluster = result.unwrap();
    for doc_id in &initial_docs {
        assert!(cluster.document_matches.contains_key(doc_id));
        assert!(cluster.document_boundaries.contains_key(doc_id));
    }
    for (start, end) in cluster.document_boundaries.values() {
        assert!(start <= end);
        assert!(*start < word_tokens.len());
        assert!(*end < word_tokens.len());
    }
}

#[test]
fn test_expand_contamination_cluster_single_document() {
    let maps = create_test_maps();
    let ctx = context(&maps, 3, 2);
    let mut stats = ThreadLocalStats::default();
    let word_tokens = vec![100, 101, 102, 103, 104];
    let result = expand_simple_contamination_cluster(1, &word_tokens, &ctx, HashSet::from([10]), &[101, 102, 103], &mut stats);
    assert!(result.is_some());
    let cluster = result.unwrap();
    assert_eq!(cluster.document_matches.len(), 1);
    assert!(cluster.document_matches.contains_key(&10));
    assert_eq!(cluster.document_boundaries.len(), 1);
    assert!(cluster.document_boundaries.contains_key(&10));
}

#[test]
fn test_document_removal_on_misses() {
    let maps = create_test_maps();
    let ctx = context(&maps, 3, 2);
    let mut stats = ThreadLocalStats::default();
    let word_tokens = vec![100, 101, 102, 103, 104, 105, 106, 107];
    let mut state = empty_state(&[10, 11]);
    state.document_misses.insert(10, 1);
    state.document_misses.insert(11, 0);

    let _result = traverse_right(0, &word_tokens, &ctx, word_tokens.len() - 2, &mut state, &mut stats);
    assert!(state.active_documents.is_empty() || state.document_misses.values().all(|&v| v < 2));
}

#[test]
fn test_empty_active_documents() {
    let maps = create_test_maps();
    let ctx = context(&maps, 3, 2);
    let mut stats = ThreadLocalStats::default();
    let word_tokens = vec![100, 101, 102, 103, 104];
    let mut state = empty_state(&[]);
    let result = traverse_left(2, &word_tokens, &ctx, &mut state, &mut stats);
    assert_eq!(result, 2);
}

/// Builds maps in which the n-grams of `tokens` at the given positions belong to `docs`.
fn maps_for(tokens: &[usize], n: usize, entries: &[(usize, u32, &[u32])]) -> TestMaps {
    let mut maps = TestMaps { ngram_to_id: HashMap::new(), id_to_docs: HashMap::new(), hot: HashMap::new() };
    for (pos, id, docs) in entries {
        maps.ngram_to_id.insert(hash_ngram(&tokens[*pos..*pos + n]), *id);
        maps.id_to_docs.insert(*id, docs.iter().copied().collect());
    }
    maps
}

#[test]
fn expansion_follows_matching_run_both_ways() {
    let tokens: Vec<usize> = (0..12).collect();
    // n-grams at 2..=6 all belong to document 7
    let maps = maps_for(&tokens, 3, &[(2, 1, &[7]), (3, 2, &[7]), (4, 3, &[7]), (5, 4, &[7]), (6, 5, &[7])]);
    let ctx = context(&maps, 3, 2);
    let mut stats = ThreadLocalStats::default();
    let cluster = expand_simple_contamination_cluster(4, &tokens, &ctx, HashSet::from([7]), &tokens[4..7], &mut stats).unwrap();
    assert_eq!(cluster.document_boundaries[&7], (2, 6));
    assert_eq!(cluster.document_matches[&7], HashSet::from([1, 2, 3, 4, 5]));
    // two misses on each side before the document is dropped
    assert_eq!(cluster.end_idx, 8);
    assert_eq!(stats.left_traversals, 4);
    assert_eq!(stats.right_traversals, 4);
    assert_eq!(cluster.ngram_doc_frequencies[&3], 1);
}
