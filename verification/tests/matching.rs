use std::collections::{HashMap, HashSet};

use decon::matching::{calculate_excess_tokens, match_answer_tokens, passage_tokens_lookup, tokens_in_ranges};
use decon::ngram::hash_ngram;
use decon::overlap::{extract_overlap_with_question_and_answer, overlap_layout, render_overlap, OverlapPiece, PieceKind};
use decon::tokenizer::OmniTokenizer;

#[test]
fn test_match_answer_tokens_empty_answer() {
    let answer_token_set: HashSet<usize> = HashSet::new();
    let training_tokens = vec![1, 2, 3, 4, 5];
    let question_ngram_to_id: HashMap<u64, u32> = HashMap::new();
    // document boundaries (0, 100), n-gram size 5, no excess tokens
    let result = match_answer_tokens(
        &answer_token_set,
        &[],
        0,
        100,
        0,
        &training_tokens,
        5,
        2,
        3,
        50,
        100,
        None,
        &question_ngram_to_id,
    );
    assert!(result.boundaries.is_none());
    let overlap_ratio = if answer_token_set.is_empty() {
        0.0
    } else {
        result.matched_tokens.len() as f32 / answer_token_set.len() as f32
    };
    assert_eq!(overlap_ratio, 0.0);
    assert!(result.matched_ngram_ids.is_empty());
}

#[test]
fn test_passage_tokens_lookup_empty_passage() {
    let passage_token_set: HashSet<usize> = HashSet::new();
    let training_tokens = vec![1, 2, 3, 4, 5];
    let question_ngram_to_id: HashMap<u64, u32> = HashMap::new();
    // document starts at 0; the document has no passage n-grams
    let (matches, boundaries) =
        passage_tokens_lookup(&passage_token_set, 0, 0, &training_tokens, 300, 3, 5, None, &question_ngram_to_id);
    assert!(matches.is_empty());
    assert!(boundaries.is_none());
}

#[test]
fn excess_tokens_is_the_cluster_surplus() {
    assert_eq!(calculate_excess_tokens(Some(12), Some(9)), 3);
    assert_eq!(calculate_excess_tokens(Some(9), Some(12)), 0);
    assert_eq!(calculate_excess_tokens(None, Some(12)), 0);
    assert_eq!(calculate_excess_tokens(Some(12), None), 0);
}

#[test]
fn tokens_in_ranges_collects_wanted_tokens_only() {
    let tokens = vec![5, 6, 7, 8, 9, 5];
    let wanted = HashSet::from([5, 7, 9]);
    let found = tokens_in_ranges(&tokens, &vec![(0, 1), (4, 5)], &wanted);
    assert_eq!(found, HashSet::from([5, 9]));
    let none = tokens_in_ranges(&tokens, &vec![(3, 2)], &wanted);
    assert!(none.is_empty());
}

#[test]
fn short_answer_found_after_question_with_tokens() {
    let tokens = vec![1, 2, 3, 4, 5, 6, 7, 50, 51, 9];
    let answer = vec![50, 51];
    let set: HashSet<usize> = answer.iter().copied().collect();
    let map: HashMap<u64, u32> = HashMap::new();
    // question n-grams end at position 2 with n = 5: the question ends at token 6
    let r = match_answer_tokens(&set, &answer, 2, 2, 0, &tokens, 5, 2, 3, 50, 100, None, &map);
    assert_eq!(r.boundaries, Some(vec![(7, 8)]));
    assert_eq!(r.matched_tokens, set);
}

#[test]
fn long_answer_found_by_ngrams_and_excess_moves_the_window() {
    let mut map: HashMap<u64, u32> = HashMap::new();
    map.insert(hash_ngram(&[20, 21]), 7);
    map.insert(hash_ngram(&[21, 22]), 8);
    let ids = HashSet::from([7, 8]);
    let answer = vec![20, 21, 22, 23];
    let set: HashSet<usize> = answer.iter().copied().collect();
    let tokens = vec![1, 2, 3, 20, 21, 22, 9, 9];
    // question n-grams end at 2 with n = 2: question ends at 3; one excess token moves it to 2
    let r = match_answer_tokens(&set, &answer, 4, 2, 1, &tokens, 2, 2, 3, 50, 10, Some(&ids), &map);
    assert_eq!(r.boundaries, Some(vec![(3, 5)]));
    assert_eq!(r.matched_ngram_ids, vec![7, 8]);
    assert_eq!(r.matched_tokens, HashSet::from([20, 21, 22]));
}

#[test]
fn passage_lookup_collects_passage_tokens_inside_the_match() {
    let mut map: HashMap<u64, u32> = HashMap::new();
    map.insert(hash_ngram(&[10, 11, 12]), 1);
    let ids = HashSet::from([1]);
    let set = HashSet::from([10, 11, 12, 13]);
    let tokens = vec![0, 10, 11, 12, 13, 99, 98];
    let (matches, found) = passage_tokens_lookup(&set, 2, 6, &tokens, 4, 3, 1, Some(&ids), &map);
    let found = found.unwrap();
    assert_eq!((found.start, found.end), (1, 3));
    assert_eq!(matches, HashSet::from([10, 11, 12]));
}

#[test]
fn overlap_layout_marks_passage_question_and_answers() {
    let answers = Some(vec![(12, 13), (16, 16)]);
    let pieces = overlap_layout(30, 8, 10, Some((2, 5)), &answers, 3, 2);
    let expect = vec![
        OverlapPiece { kind: PieceKind::Prefix, start: 2, end: 2 },
        OverlapPiece { kind: PieceKind::Passage, start: 2, end: 6 },
        OverlapPiece { kind: PieceKind::Gap, start: 6, end: 8 },
        OverlapPiece { kind: PieceKind::Question, start: 8, end: 11 },
        OverlapPiece { kind: PieceKind::Gap, start: 11, end: 12 },
        OverlapPiece { kind: PieceKind::Answer, start: 12, end: 14 },
        OverlapPiece { kind: PieceKind::Gap, start: 14, end: 16 },
        OverlapPiece { kind: PieceKind::Answer, start: 16, end: 17 },
        OverlapPiece { kind: PieceKind::Suffix, start: 17, end: 19 },
    ];
    // context starts at 5, after the passage starts: no prefix
    assert_eq!(pieces, expect[1..].to_vec());
}

#[test]
fn overlap_layout_without_passage_or_answers() {
    let pieces = overlap_layout(12, 5, 7, None, &None, 30, 60);
    assert_eq!(
        pieces,
        vec![
            OverlapPiece { kind: PieceKind::Prefix, start: 0, end: 5 },
            OverlapPiece { kind: PieceKind::Question, start: 5, end: 8 },
            OverlapPiece { kind: PieceKind::Suffix, start: 8, end: 12 },
        ]
    );
}

#[test]
fn render_overlap_marks_pieces_and_skips_failed_ones() {
    let pieces = vec![
        OverlapPiece { kind: PieceKind::Prefix, start: 0, end: 1 },
        OverlapPiece { kind: PieceKind::Passage, start: 1, end: 2 },
        OverlapPiece { kind: PieceKind::Question, start: 2, end: 3 },
        OverlapPiece { kind: PieceKind::Answer, start: 3, end: 4 },
        OverlapPiece { kind: PieceKind::Suffix, start: 4, end: 5 },
    ];
    let texts = vec![
        Some("a".to_string()),
        None,
        Some("q".to_string()),
        Some("x".to_string()),
        Some("z".to_string()),
    ];
    assert_eq!(render_overlap(&pieces, &texts), Some("... a【q】⟦x⟧ z ...".to_string()));
    assert_eq!(render_overlap(&pieces, &vec![None, None, None, None, None]), None);
}

#[test]
fn overlap_text_needs_a_bpe_tokenizer() {
    let bytes = OmniTokenizer::new("bytes").unwrap();
    let tokens = bytes.encode("hello world");
    assert_eq!(extract_overlap_with_question_and_answer(&bytes, &tokens, 2, 4, None, &None, 30, 60), None);

    let cl100k = OmniTokenizer::new("cl100k").unwrap();
    let tokens = cl100k.encode(" the quick brown fox jumps over the lazy dog");
    let text = extract_overlap_with_question_and_answer(&cl100k, &tokens, 2, 3, None, &Some(vec![(5, 5)]), 1, 1).unwrap();
    assert_eq!(text, "...  quick【 brown fox】 jumps⟦ over⟧  the ...");
}
