//! Matching the answer after, and the passage before, a question found in a
//! training document: the search windows and the tokens that match.

use std::collections::{HashMap, HashSet};
use vstd::prelude::*;
use crate::boundary::{
    answer_at, answer_scan, answer_window, find_answer_ngram_ranges, find_passage_match,
    find_short_answer_position, passage_scan, passage_window, AnswerMatch, PassageMatch,
    PassageScan,
};

verus! {

/// How many tokens a cluster is longer than its evaluation question, when
/// both lengths are known; zero otherwise.
pub fn calculate_excess_tokens(cluster_token_length: Option<usize>, eval_token_length: Option<usize>) -> (excess: usize)
    ensures
        excess == match (cluster_token_length, eval_token_length) {
            (Some(c), Some(e)) => if c > e { (c - e) as usize } else { 0 },
            _ => 0,
        },
{
    match (cluster_token_length, eval_token_length) {
        (Some(cluster_len), Some(eval_len)) => cluster_len.saturating_sub(eval_len),
        _ => 0,
    }
}

/// The tokens of `wanted` that occur at some position of one of the ranges,
/// each range given by its first and last position.
pub open spec fn ranges_tokens(tokens: Seq<usize>, ranges: Seq<(usize, usize)>, wanted: Set<usize>) -> Set<usize> {
    Set::new(
        |t: usize|
            wanted.contains(t) && exists|k: int, i: int|
                #![trigger ranges[k], tokens[i]]
                0 <= k < ranges.len() && ranges[k].0 <= i <= ranges[k].1 && tokens[i] == t,
    )
}

/// Collects the tokens of `wanted` that occur in the ranges.
pub fn tokens_in_ranges(training_tokens: &[usize], ranges: &Vec<(usize, usize)>, wanted: &HashSet<usize>) -> (res: HashSet<usize>)
    requires
        forall|k: int| 0 <= k < ranges@.len() ==> (#[trigger] ranges@[k]).1 < training_tokens@.len(),
    ensures
        res@ == ranges_tokens(training_tokens@, ranges@, wanted@),
{
    let ghost tokens = training_tokens@;
    let mut res: HashSet<usize> = HashSet::new();
    let mut k: usize = 0;
    while k < ranges.len()
        invariant
            k <= ranges@.len(),
            tokens == training_tokens@,
            forall|j: int| 0 <= j < ranges@.len() ==> (#[trigger] ranges@[j]).1 < tokens.len(),
            res@ == ranges_tokens(tokens, ranges@.take(k as int), wanted@),
        decreases ranges@.len() - k,
    {
        let (lo, hi) = ranges[k];
        let ghost before = res@;
        let mut i: usize = lo;
        while i <= hi
            invariant
                lo <= i,
                i <= hi + 1 || i == lo,
                hi < tokens.len(),
                tokens == training_tokens@,
                res@ == before + Set::new(
                    |t: usize| wanted@.contains(t) && exists|p: int| lo <= p < i && #[trigger] tokens[p] == t,
                ),
            decreases hi + 1 - i,
        {
            let t = training_tokens[i];
            if wanted.contains(&t) {
                res.insert(t);
            }
            proof {
                assert(res@ =~= before + Set::new(
                    |x: usize| wanted@.contains(x) && exists|p: int| lo <= p < i + 1 && #[trigger] tokens[p] == x,
                )) by {
                    assert forall|x: usize| #![auto] res@.contains(x) <==> (before + Set::new(
                        |x: usize| wanted@.contains(x) && exists|p: int| lo <= p < i + 1 && #[trigger] tokens[p] == x,
                    )).contains(x) by {
                        if x == t && wanted@.contains(x) {
                            assert(tokens[i as int] == x);
                        }
                        if exists|p: int| lo <= p < i + 1 && #[trigger] tokens[p] == x {
                            let p = choose|p: int| lo <= p < i + 1 && #[trigger] tokens[p] == x;
                            if p < i {
                                assert(exists|q: int| lo <= q < i && #[trigger] tokens[q] == x);
                            }
                        }
                    }
                }
            }
            i = i + 1;
        }
        proof {
            if lo > hi {
                assert(res@ =~= before + Set::new(
                    |x: usize| wanted@.contains(x) && exists|p: int| lo <= p < hi + 1 && #[trigger] tokens[p] == x,
                ));
            }
            let rs = ranges@.take(k + 1);
            assert(rs =~= ranges@.take(k as int).push((lo, hi)));
            assert(res@ =~= ranges_tokens(tokens, rs, wanted@)) by {
                assert forall|x: usize| #![auto] res@.contains(x) <==> ranges_tokens(tokens, rs, wanted@).contains(x) by {
                    if ranges_tokens(tokens, rs, wanted@).contains(x) {
                        let (kk, p) = choose|kk: int, p: int|
                            #![trigger rs[kk], tokens[p]]
                            0 <= kk < rs.len() && rs[kk].0 <= p <= rs[kk].1 && tokens[p] == x;
                        if kk < k {
                            assert(ranges@.take(k as int)[kk] == rs[kk]);
                            assert(ranges_tokens(tokens, ranges@.take(k as int), wanted@).contains(x));
                        } else {
                            assert(lo <= p < hi + 1 && tokens[p] == x);
                        }
                    }
                    if ranges_tokens(tokens, ranges@.take(k as int), wanted@).contains(x) {
                        let (kk, p) = choose|kk: int, p: int|
                            #![trigger ranges@.take(k as int)[kk], tokens[p]]
                            0 <= kk < ranges@.take(k as int).len() && ranges@.take(k as int)[kk].0 <= p
                                <= ranges@.take(k as int)[kk].1 && tokens[p] == x;
                        assert(rs[kk] == ranges@.take(k as int)[kk]);
                    }
                    if exists|p: int| lo <= p < hi + 1 && #[trigger] tokens[p] == x {
                        let p = choose|p: int| lo <= p < hi + 1 && #[trigger] tokens[p] == x;
                        assert(rs[k as int] == (lo, hi));
                    }
                }
            }
        }
        k = k + 1;
    }
    assert(ranges@.take(ranges@.len() as int) =~= ranges@);
    res
}

/// The size of the window searched for a passage: twice the passage length,
/// or `min_passage_distance` if that is larger.
pub open spec fn passage_window_size(passage_total_token_count: usize, min_passage_distance: usize) -> int {
    if passage_total_token_count * 2 >= min_passage_distance {
        passage_total_token_count * 2
    } else {
        min_passage_distance as int
    }
}

/// Looks for the passage of an evaluation document before where its question
/// starts in the training tokens, and collects the passage tokens inside the
/// passage found. `passage_ngram_ids` is `None` when the document has no
/// passage to look for.
pub fn passage_tokens_lookup(
    passage_token_set: &HashSet<usize>,
    passage_total_token_count: usize,
    doc_start_idx: usize,
    training_tokens: &[usize],
    min_passage_distance: usize,
    passage_ngram_size: usize,
    passage_max_consecutive_misses: usize,
    passage_ngram_ids: Option<&HashSet<u32>>,
    question_ngram_to_id: &HashMap<u64, u32>,
) -> (res: (HashSet<usize>, Option<PassageMatch>))
    requires
        passage_total_token_count * 2 <= usize::MAX,
        ({
            let (ws, we) = passage_window(
                doc_start_idx,
                passage_window_size(passage_total_token_count, min_passage_distance) as usize,
            );
            ws >= we || we - ws < passage_ngram_size || we <= training_tokens@.len()
        }),
        passage_ngram_size >= 1,
    ensures
        ({
            let window = passage_window_size(passage_total_token_count, min_passage_distance);
            let (ws, we) = passage_window(doc_start_idx, window as usize);
            let n = passage_ngram_size;
            match passage_ngram_ids {
                None => res.1 is None,
                Some(wanted) => if ws >= we || we - ws < n {
                    res.1 is None
                } else {
                    let st = passage_scan(question_ngram_to_id@, wanted@, training_tokens@, n,
                        passage_max_consecutive_misses, ws, we - n,
                        PassageScan { first: None, last: None, misses: 0, found: Seq::empty() });
                    &&& res.1 is Some <==> st.first is Some
                    &&& res.1 matches Some(p) ==> Some(p.start) == st.first && Some(p.end) == st.last
                        && p.matched_ngram_ids@ == st.found
                },
            }
        }),
        res.0@ == match res.1 {
            Some(p) => ranges_tokens(training_tokens@, seq![(p.start, p.end)], passage_token_set@),
            None => Set::<usize>::empty(),
        },
{
    let doubled = passage_total_token_count * 2;
    let window_size = if doubled >= min_passage_distance {
        doubled
    } else {
        min_passage_distance
    };
    let found = match passage_ngram_ids {
        Some(ids) => find_passage_match(
            doc_start_idx,
            training_tokens,
            window_size,
            passage_ngram_size,
            passage_max_consecutive_misses,
            ids,
            question_ngram_to_id,
        ),
        None => None,
    };
    match found {
        Some(p) => {
            let ranges = vec![(p.start, p.end)];
            assert(ranges@ =~= seq![(p.start, p.end)]);
            let tokens = tokens_in_ranges(training_tokens, &ranges, passage_token_set);
            (tokens, Some(p))
        },
        None => {
            let empty: HashSet<usize> = HashSet::new();
            (empty, None)
        },
    }
}

/// The size of the window searched for an answer: a fixed window for short
/// answers; twice the answer length, or `min_long_answer_window` if that is
/// larger, for long ones.
pub open spec fn answer_window_size(
    answer_length: usize,
    short_answer_token_threshold: usize,
    short_answer_window_length: usize,
    min_long_answer_window: usize,
) -> int {
    if answer_length <= short_answer_token_threshold {
        short_answer_window_length as int
    } else if answer_length * 2 >= min_long_answer_window {
        answer_length * 2
    } else {
        min_long_answer_window as int
    }
}

/// The last token of the question in the training tokens: the last token of
/// the document's last n-gram, moved back by the excess of the cluster over
/// the question.
pub open spec fn question_end(doc_end_idx: usize, ngram_size: usize, excess_tokens: usize) -> int {
    if doc_end_idx + ngram_size - 1 >= excess_tokens {
        doc_end_idx + ngram_size - 1 - excess_tokens
    } else {
        0
    }
}

/// Where an answer matched after a question, and the answer tokens found.
pub struct AnswerTokenMatch {
    /// The ranges of the answer found, first to last token.
    pub boundaries: Option<Vec<(usize, usize)>>,
    /// The answer tokens inside those ranges, or, when none was found, in
    /// the whole window after the question.
    pub matched_tokens: HashSet<usize>,
    /// For a long answer, the distinct answer n-gram ids met, in order.
    pub matched_ngram_ids: Vec<u32>,
}

/// Looks for the answer of an evaluation document after where its question
/// ends in the training tokens: a short answer as an exact run of its
/// tokens, a long one by its n-grams. `answer_ngram_ids` is `None` when a
/// long answer has no n-grams to look for.
pub fn match_answer_tokens(
    answer_token_set: &HashSet<usize>,
    answer_tokens_ordered: &[usize],
    answer_total_token_count: usize,
    doc_end_idx: usize,
    excess_tokens: usize,
    training_tokens: &[usize],
    ngram_size: usize,
    answer_ngram_size: usize,
    short_answer_token_threshold: usize,
    short_answer_window_length: usize,
    min_long_answer_window: usize,
    answer_ngram_ids: Option<&HashSet<u32>>,
    question_ngram_to_id: &HashMap<u64, u32>,
) -> (res: AnswerTokenMatch)
    requires
        answer_total_token_count * 2 <= usize::MAX,
        1 <= ngram_size,
        doc_end_idx + ngram_size <= usize::MAX,
        training_tokens@.len() < usize::MAX,
        question_end(doc_end_idx, ngram_size, excess_tokens) + answer_window_size(
            answer_total_token_count,
            short_answer_token_threshold,
            short_answer_window_length,
            min_long_answer_window,
        ) + 1 <= usize::MAX,
    ensures
        ({
            let len = training_tokens@.len() as int;
            let window = answer_window_size(
                answer_total_token_count,
                short_answer_token_threshold,
                short_answer_window_length,
                min_long_answer_window,
            );
            let q_end = question_end(doc_end_idx, ngram_size, excess_tokens);
            let (ws, we) = answer_window(q_end as usize, window as usize, len);
            let n = answer_ngram_size;
            &&& if answer_total_token_count <= short_answer_token_threshold {
                &&& res.matched_ngram_ids@.len() == 0
                &&& match res.boundaries {
                    Some(b) => b@.len() == 1 && ws <= b@[0].0 < we && answer_at(training_tokens@, answer_tokens_ordered@, b@[0].0 as int)
                        && b@[0].1 + 1 == b@[0].0 + answer_tokens_ordered@.len()
                        && forall|t: int| ws <= t < b@[0].0 ==> !answer_at(training_tokens@, answer_tokens_ordered@, t),
                    None => forall|t: int| ws <= t < we ==> !answer_at(training_tokens@, answer_tokens_ordered@, t),
                }
            } else {
                match answer_ngram_ids {
                    None => res.boundaries is None && res.matched_ngram_ids@.len() == 0,
                    Some(wanted) => if we <= ws || we - ws < n {
                        res.boundaries is None && res.matched_ngram_ids@.len() == 0
                    } else {
                        let scan = answer_scan(question_ngram_to_id@, wanted@, training_tokens@, n, ws, we - n + 1);
                        &&& res.boundaries is Some <==> scan.0.len() > 0
                        &&& res.boundaries matches Some(b) ==> b@ == scan.0 && res.matched_ngram_ids@ == scan.1
                        &&& res.boundaries is None ==> res.matched_ngram_ids@.len() == 0
                    },
                }
            }
            &&& res.matched_tokens@ == match res.boundaries {
                Some(b) => ranges_tokens(training_tokens@, b@, answer_token_set@),
                None => if ws < we {
                    ranges_tokens(training_tokens@, seq![(ws as usize, (we - 1) as usize)], answer_token_set@)
                } else {
                    Set::<usize>::empty()
                },
            }
        }),
{
    let answer_length = answer_total_token_count;
    let window_size = if answer_length <= short_answer_token_threshold {
        short_answer_window_length
    } else {
        let doubled = answer_length * 2;
        if doubled >= min_long_answer_window {
            doubled
        } else {
            min_long_answer_window
        }
    };
    let question_end_idx = (doc_end_idx + ngram_size - 1).saturating_sub(excess_tokens);
    let len = training_tokens.len();
    let mut matched_ngram_ids: Vec<u32> = Vec::new();
    let boundaries: Option<Vec<(usize, usize)>> = if answer_length <= short_answer_token_threshold {
        match find_short_answer_position(answer_tokens_ordered, question_end_idx, training_tokens, window_size) {
            Some((s, e)) => {
                let v = vec![(s, e)];
                assert(v@ =~= seq![(s, e)]);
                Some(v)
            },
            None => None,
        }
    } else {
        match answer_ngram_ids {
            Some(ids) => match find_answer_ngram_ranges(
                question_end_idx,
                training_tokens,
                window_size,
                answer_ngram_size,
                ids,
                question_ngram_to_id,
            ) {
                Some(m) => {
                    matched_ngram_ids = m.matched_ngram_ids;
                    Some(m.boundaries)
                },
                None => None,
            },
            None => None,
        }
    };
    let search_start = question_end_idx + 1;
    let search_end = if search_start + window_size <= len {
        search_start + window_size
    } else {
        len
    };
    let matched_tokens = match &boundaries {
        Some(b) => {
            proof {
                assert forall|k: int| 0 <= k < b@.len() implies (#[trigger] b@[k]).1 < training_tokens@.len() by {
                    if answer_length <= short_answer_token_threshold {
                        assert(b@[0].0 < search_end);
                    }
                }
            }
            tokens_in_ranges(training_tokens, b, answer_token_set)
        },
        None => if search_start < search_end {
            let ranges = vec![(search_start, search_end - 1)];
            assert(ranges@ =~= seq![(search_start, (search_end - 1) as usize)]);
            tokens_in_ranges(training_tokens, &ranges, answer_token_set)
        } else {
            HashSet::new()
        },
    };
    AnswerTokenMatch { boundaries, matched_tokens, matched_ngram_ids }
}

/// The number of tokens a document's match spans in the training tokens:
/// from its first n-gram to the last token of its last n-gram.
pub fn cluster_token_length(doc_start_idx: usize, doc_end_idx: usize, ngram_size: usize) -> (len: usize)
    requires
        doc_start_idx <= doc_end_idx + ngram_size - 1,
        doc_end_idx + ngram_size <= usize::MAX,
        ngram_size >= 1,
    ensures
        len == doc_end_idx + ngram_size - doc_start_idx,
{
    (doc_end_idx + ngram_size - 1) - doc_start_idx + 1
}

/// The last token of the question as a report shows it: the last token of
/// the document's last n-gram, cut back to just before the first answer when
/// that answer starts inside it and the match is longer than the question.
pub fn report_question_end(
    doc_end_idx: usize,
    ngram_size: usize,
    answer_boundaries: &Option<Vec<(usize, usize)>>,
    cluster_token_length: usize,
    eval_token_count: usize,
) -> (end: usize)
    requires
        ngram_size >= 1,
        doc_end_idx + ngram_size <= usize::MAX,
    ensures
        end == match answer_boundaries {
            Some(b) => if b@.len() > 0 && b@[0].0 <= doc_end_idx + ngram_size - 1 && cluster_token_length > eval_token_count {
                if b@[0].0 >= 1 { (b@[0].0 - 1) as usize } else { 0 }
            } else {
                (doc_end_idx + ngram_size - 1) as usize
            },
            None => (doc_end_idx + ngram_size - 1) as usize,
        },
{
    let question_end_idx = doc_end_idx + ngram_size - 1;
    match answer_boundaries {
        Some(b) => if b.len() > 0 {
            let first_answer_start = b[0].0;
            if first_answer_start <= question_end_idx && cluster_token_length > eval_token_count {
                first_answer_start.saturating_sub(1)
            } else {
                question_end_idx
            }
        } else {
            question_end_idx
        },
        None => question_end_idx,
    }
}

} // verus!
