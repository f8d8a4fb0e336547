//! Location of the passage before, and of the answer after, a matched question.

use std::collections::{HashMap, HashSet};
use vstd::prelude::*;
use crate::ngram::{hash_ngram, spec_hash_ngram};

verus! {

/// The index id of the n-gram of `tokens` at position `i`, if the index knows it.
pub open spec fn ngram_id_at(ids: Map<u64, u32>, tokens: Seq<usize>, n: usize, i: int) -> Option<u32> {
    let h = spec_hash_ngram(tokens.subrange(i, i + n));
    if ids.contains_key(h) {
        Some(ids[h])
    } else {
        None
    }
}

/// Whether the n-gram at position `i` is one of the n-grams in `wanted`.
pub open spec fn matched_at(ids: Map<u64, u32>, wanted: Set<u32>, tokens: Seq<usize>, n: usize, i: int) -> bool {
    match ngram_id_at(ids, tokens, n, i) {
        Some(id) => wanted.contains(id),
        None => false,
    }
}

/// Looks up the index id of the n-gram at position `i`.
fn lookup_ngram_id(ids: &HashMap<u64, u32>, tokens: &[usize], n: usize, i: usize) -> (res: Option<u32>)
    requires
        i + n <= tokens@.len(),
    ensures
        res == ngram_id_at(ids@, tokens@, n, i as int),
{
    let _len = tokens.len();
    let slice = &tokens[i..i + n];
    assert(slice@ == tokens@.subrange(i as int, i + n));
    let h = hash_ngram(slice);
    match ids.get(&h) {
        Some(id) => Some(*id),
        None => None,
    }
}

/// The state of the backward passage scan.
pub struct PassageScan {
    pub first: Option<usize>,
    pub last: Option<usize>,
    pub misses: nat,
    pub found: Seq<u32>,
}

/// The backward scan for a passage over positions `i` down to `lo`: a
/// matching n-gram moves the left boundary (the first one also fixes the
/// right boundary) and resets the misses; after the first match, a position
/// that does not match is a miss, and more than `max_misses` consecutive
/// misses end the scan. Matched n-gram ids are recorded once, in scan order.
pub open spec fn passage_scan(ids: Map<u64, u32>, wanted: Set<u32>, tokens: Seq<usize>, n: usize, max_misses: usize, lo: int, i: int, st: PassageScan) -> PassageScan
    decreases i - lo + 1,
{
    if i < lo {
        st
    } else if matched_at(ids, wanted, tokens, n, i) {
        let id = ngram_id_at(ids, tokens, n, i)->0;
        passage_scan(ids, wanted, tokens, n, max_misses, lo, i - 1, PassageScan {
            first: Some(i as usize),
            last: if st.first is None { Some((i + n - 1) as usize) } else { st.last },
            misses: 0,
            found: if st.found.contains(id) { st.found } else { st.found.push(id) },
        })
    } else if st.first is Some {
        if st.misses + 1 > max_misses {
            PassageScan { misses: st.misses + 1, ..st }
        } else {
            passage_scan(ids, wanted, tokens, n, max_misses, lo, i - 1, PassageScan { misses: st.misses + 1, ..st })
        }
    } else {
        passage_scan(ids, wanted, tokens, n, max_misses, lo, i - 1, st)
    }
}

/// Where a passage matched: the first and last token of the match, and the
/// distinct passage n-gram ids met, in the order the scan met them.
pub struct PassageMatch {
    pub start: usize,
    pub end: usize,
    pub matched_ngram_ids: Vec<u32>,
}

/// The last token before the question, and the first token of the window.
pub open spec fn passage_window(question_start_idx: usize, window_size: usize) -> (int, int) {
    let window_end = if question_start_idx >= 1 { question_start_idx - 1 } else { 0 };
    let window_start = if window_end >= window_size { window_end - window_size } else { 0 };
    (window_start, window_end)
}

/// Scans backwards from just before the question for n-grams of the
/// evaluation passage. Gives `None` when the window before the question holds
/// no n-gram, or when no passage n-gram is found in it.
pub fn find_passage_match(
    question_start_idx: usize,
    training_tokens: &[usize],
    window_size: usize,
    passage_ngram_size: usize,
    passage_max_consecutive_misses: usize,
    passage_ngram_ids: &HashSet<u32>,
    question_ngram_to_id: &HashMap<u64, u32>,
) -> (res: Option<PassageMatch>)
    requires
        ({
            let (ws, we) = passage_window(question_start_idx, window_size);
            ws >= we || we - ws < passage_ngram_size || we <= training_tokens@.len()
        }),
        passage_ngram_size >= 1,
    ensures
        ({
            let (ws, we) = passage_window(question_start_idx, window_size);
            let n = passage_ngram_size;
            let ids = question_ngram_to_id@;
            let wanted = passage_ngram_ids@;
            if ws >= we || we - ws < n {
                res is None
            } else {
                let st = passage_scan(ids, wanted, training_tokens@, n, passage_max_consecutive_misses, ws, we - n,
                    PassageScan { first: None, last: None, misses: 0, found: Seq::empty() });
                &&& res is Some <==> st.first is Some
                &&& res matches Some(p) ==> {
                    &&& Some(p.start) == st.first
                    &&& Some(p.end) == st.last
                    &&& p.matched_ngram_ids@ == st.found
                    &&& ws <= p.start
                    &&& p.start + n - 1 <= p.end
                    &&& p.end <= we - 1
                    &&& matched_at(ids, wanted, training_tokens@, n, p.start as int)
                    &&& matched_at(ids, wanted, training_tokens@, n, p.end - n + 1)
                    &&& p.matched_ngram_ids@.no_duplicates()
                }
            }
        }),
{
    let window_end = if question_start_idx >= 1 { question_start_idx - 1 } else { 0 };
    let window_start = if window_end >= window_size { window_end - window_size } else { 0 };
    let n = passage_ngram_size;
    if window_start >= window_end || window_end - window_start < n {
        return None;
    }
    let ghost ids = question_ngram_to_id@;
    let ghost wanted = passage_ngram_ids@;
    let ghost init = PassageScan { first: None, last: None, misses: 0, found: Seq::empty() };
    let ghost target = passage_scan(ids, wanted, training_tokens@, n, passage_max_consecutive_misses, window_start as int, window_end - n, init);
    let mut matched: HashSet<u32> = HashSet::new();
    let mut found: Vec<u32> = Vec::new();
    let mut first_match_pos: Option<usize> = None;
    let mut last_match_pos: Option<usize> = None;
    let mut consecutive_misses: usize = 0;
    // positions window_end - n down to window_start; `i` is one past the next
    let mut i: usize = window_end - n + 1;
    let len = training_tokens.len();
    let mut done = false;
    while i > window_start && !done
        invariant
            len == training_tokens@.len(),
            window_start < window_end,
            n >= 1,
            window_end - window_start >= n,
            window_end <= training_tokens@.len(),
            window_start <= i <= window_end - n + 1,
            ids == question_ngram_to_id@,
            wanted == passage_ngram_ids@,
            !done ==> passage_scan(ids, wanted, training_tokens@, n, passage_max_consecutive_misses, window_start as int, i - 1,
                PassageScan { first: first_match_pos, last: last_match_pos, misses: consecutive_misses as nat, found: found@ }) == target,
            done ==> target.first == first_match_pos && target.last == last_match_pos && target.found == found@,
            consecutive_misses <= passage_max_consecutive_misses,
            matched@ == found@.to_set(),
            found@.no_duplicates(),
            first_match_pos is Some <==> last_match_pos is Some,
            first_match_pos matches Some(f) ==> {
                &&& i <= f
                &&& matched_at(ids, wanted, training_tokens@, n, f as int)
            },
            last_match_pos matches Some(l) ==> {
                &&& first_match_pos->0 + n - 1 <= l
                &&& l <= window_end - 1
                &&& matched_at(ids, wanted, training_tokens@, n, l - n + 1)
            },
        decreases i,
    {
        i = i - 1;
        let id = lookup_ngram_id(question_ngram_to_id, training_tokens, n, i);
        let hit = match id {
            Some(id) => passage_ngram_ids.contains(&id),
            None => false,
        };
        assert(hit == matched_at(ids, wanted, training_tokens@, n, i as int));
        if hit {
            let id = match id {
                Some(id) => id,
                None => 0,
            };
            if matched.insert(id) {
                let ghost before = found@;
                found.push(id);
                proof {
                    before.lemma_push_to_set_commute(id);
                    assert(found@.no_duplicates());
                }
            }
            if first_match_pos.is_none() {
                last_match_pos = Some(i + n - 1);
            }
            first_match_pos = Some(i);
            consecutive_misses = 0;
        } else if first_match_pos.is_some() {
            if consecutive_misses >= passage_max_consecutive_misses {
                done = true;
            } else {
                consecutive_misses = consecutive_misses + 1;
            }
        }
    }
    match (first_match_pos, last_match_pos) {
        (Some(start), Some(end)) => Some(PassageMatch { start, end, matched_ngram_ids: found }),
        _ => None,
    }
}


/// The ranges of matching answer n-grams and the distinct answer n-gram ids
/// met, in order, after scanning the positions `lo..i`. A matched n-gram that
/// starts within `n` tokens of the end of the current range extends it;
/// otherwise it starts a new range.
pub open spec fn answer_scan(ids: Map<u64, u32>, wanted: Set<u32>, tokens: Seq<usize>, n: usize, lo: int, i: int) -> (Seq<(usize, usize)>, Seq<u32>)
    decreases i - lo,
{
    if i <= lo {
        (Seq::empty(), Seq::empty())
    } else {
        let prev = answer_scan(ids, wanted, tokens, n, lo, i - 1);
        let p = i - 1;
        if matched_at(ids, wanted, tokens, n, p) {
            let id = ngram_id_at(ids, tokens, n, p)->0;
            let found = if prev.1.contains(id) { prev.1 } else { prev.1.push(id) };
            let e = (p + n - 1) as usize;
            let cs = prev.0;
            let ranges = if cs.len() > 0 && p <= cs.last().1 + n {
                cs.update(cs.len() - 1, (cs.last().0, if cs.last().1 >= e { cs.last().1 } else { e }))
            } else {
                cs.push((p as usize, e))
            };
            (ranges, found)
        } else {
            prev
        }
    }
}

/// Where a long answer matched: the ranges of matching n-grams, and the
/// distinct answer n-gram ids met, in order.
pub struct AnswerMatch {
    pub boundaries: Vec<(usize, usize)>,
    pub matched_ngram_ids: Vec<u32>,
}

/// The first token after the question and the end of the search window.
pub open spec fn answer_window(question_end_idx: usize, window_size: usize, len: int) -> (int, int) {
    let window_start = question_end_idx + 1;
    let window_end = if window_start + window_size <= len { window_start + window_size } else { len };
    (window_start, window_end)
}

/// Scans the window after the question for n-grams of a long evaluation
/// answer and groups the matches into ranges. Gives `None` when the window
/// holds no n-gram or no answer n-gram matched.
pub fn find_answer_ngram_ranges(
    question_end_idx: usize,
    training_tokens: &[usize],
    window_size: usize,
    ngram_size: usize,
    answer_ngram_ids: &HashSet<u32>,
    question_ngram_to_id: &HashMap<u64, u32>,
) -> (res: Option<AnswerMatch>)
    requires
        question_end_idx + window_size + 1 <= usize::MAX,
        training_tokens@.len() < usize::MAX,
    ensures
        ({
            let (ws, we) = answer_window(question_end_idx, window_size, training_tokens@.len() as int);
            let n = ngram_size;
            let ids = question_ngram_to_id@;
            let wanted = answer_ngram_ids@;
            if we <= ws || we - ws < n {
                res is None
            } else {
                let scan = answer_scan(ids, wanted, training_tokens@, n, ws, we - n + 1);
                &&& res is Some <==> scan.0.len() > 0
                &&& res matches Some(a) ==> {
                    &&& a.boundaries@ == scan.0
                    &&& a.matched_ngram_ids@ == scan.1
                    &&& a.matched_ngram_ids@.no_duplicates()
                    &&& forall|k: int| 0 <= k < a.boundaries@.len() ==> {
                        &&& ws <= (#[trigger] a.boundaries@[k]).0
                        &&& a.boundaries@[k].0 + n <= a.boundaries@[k].1 + 1
                        &&& a.boundaries@[k].1 + 1 <= we
                        &&& matched_at(ids, wanted, training_tokens@, n, a.boundaries@[k].0 as int)
                    }
                    &&& forall|k: int| 0 <= k < a.boundaries@.len() - 1 ==>
                        (#[trigger] a.boundaries@[k]).1 + n < a.boundaries@[k + 1].0
                }
            }
        }),
{
    let window_start = question_end_idx + 1;
    let len = training_tokens.len();
    let window_end = if window_start + window_size <= len { window_start + window_size } else { len };
    let n = ngram_size;
    if window_end <= window_start || window_end - window_start < n {
        return None;
    }
    let ghost ids = question_ngram_to_id@;
    let ghost wanted = answer_ngram_ids@;
    let mut matched: HashSet<u32> = HashSet::new();
    let mut found: Vec<u32> = Vec::new();
    let mut ranges: Vec<(usize, usize)> = Vec::new();
    let last = window_end - n;
    let mut i: usize = window_start;
    while i <= last
        invariant
            len == training_tokens@.len(),
            window_start <= i <= last + 1,
            last + n == window_end,
            len < usize::MAX,
            window_end <= len,
            1 <= window_start,
            ids == question_ngram_to_id@,
            wanted == answer_ngram_ids@,
            answer_scan(ids, wanted, training_tokens@, n, window_start as int, i as int) == (ranges@, found@),
            matched@ == found@.to_set(),
            found@.no_duplicates(),
            forall|k: int| 0 <= k < ranges@.len() ==> {
                &&& window_start <= (#[trigger] ranges@[k]).0
                        &&& ranges@[k].0 + n <= ranges@[k].1 + 1
                &&& ranges@[k].1 + 1 <= window_end
                &&& ranges@[k].1 + 1 <= i + n
                &&& matched_at(ids, wanted, training_tokens@, n, ranges@[k].0 as int)
            },
            forall|k: int| 0 <= k < ranges@.len() - 1 ==> (#[trigger] ranges@[k]).1 + n < ranges@[k + 1].0,
        decreases last + 1 - i,
    {
        let id = lookup_ngram_id(question_ngram_to_id, training_tokens, n, i);
        let hit = match id {
            Some(id) => answer_ngram_ids.contains(&id),
            None => false,
        };
        assert(hit == matched_at(ids, wanted, training_tokens@, n, i as int));
        if hit {
            let id = match id {
                Some(id) => id,
                None => 0,
            };
            if matched.insert(id) {
                let ghost before = found@;
                found.push(id);
                proof {
                    before.lemma_push_to_set_commute(id);
                }
            }
            let e = i + n - 1;
            let count = ranges.len();
            if count > 0 && (i < n || i - n <= ranges[count - 1].1) {
                let (cs, ce) = ranges[count - 1];
                let new_end = if ce >= e { ce } else { e };
                let ghost before = ranges@;
                ranges.set(count - 1, (cs, new_end));
                proof {
                    assert forall|k: int| 0 <= k < ranges@.len() implies {
                        &&& window_start <= (#[trigger] ranges@[k]).0
                        &&& ranges@[k].0 + n <= ranges@[k].1 + 1
                        &&& ranges@[k].1 + 1 <= window_end
                        &&& ranges@[k].1 + 1 <= i + 1 + n
                        &&& matched_at(ids, wanted, training_tokens@, n, ranges@[k].0 as int)
                    } by {
                        if k < count - 1 {
                            assert(ranges@[k] == before[k]);
                        }
                    }
                    assert forall|k: int| 0 <= k < ranges@.len() - 1 implies (#[trigger] ranges@[k]).1 + n < ranges@[k + 1].0 by {
                        assert(ranges@[k] == before[k]);
                        assert(ranges@[k + 1].0 == before[k + 1].0);
                    }
                }
            } else {
                let ghost before = ranges@;
                ranges.push((i, e));
                proof {
                    assert forall|k: int| 0 <= k < ranges@.len() implies {
                        &&& window_start <= (#[trigger] ranges@[k]).0
                        &&& ranges@[k].0 + n <= ranges@[k].1 + 1
                        &&& ranges@[k].1 + 1 <= window_end
                        &&& ranges@[k].1 + 1 <= i + 1 + n
                        &&& matched_at(ids, wanted, training_tokens@, n, ranges@[k].0 as int)
                    } by {
                        if k < count {
                            assert(ranges@[k] == before[k]);
                        }
                    }
                    assert forall|k: int| 0 <= k < ranges@.len() - 1 implies (#[trigger] ranges@[k]).1 + n < ranges@[k + 1].0 by {
                        assert(ranges@[k] == before[k]);
                        if k + 1 < count {
                            assert(ranges@[k + 1] == before[k + 1]);
                        }
                    }
                }
            }
        }
        i = i + 1;
    }
    if ranges.len() == 0 {
        return None;
    }
    Some(AnswerMatch { boundaries: ranges, matched_ngram_ids: found })
}

/// Whether the answer tokens occur in the training tokens at position `s`.
pub open spec fn answer_at(tokens: Seq<usize>, answer: Seq<usize>, s: int) -> bool {
    s + answer.len() <= tokens.len() && tokens.subrange(s, s + answer.len()) == answer
}

/// Finds the first exact occurrence of a short answer in the window after the
/// question, as the range of its first and last token.
pub fn find_short_answer_position(
    answer_tokens: &[usize],
    question_end_idx: usize,
    training_tokens: &[usize],
    window_size: usize,
) -> (res: Option<(usize, usize)>)
    requires
        question_end_idx + window_size + 1 <= usize::MAX,
    ensures
        ({
            let (ss, se) = answer_window(question_end_idx, window_size, training_tokens@.len() as int);
            match res {
                Some((s, e)) => {
                    &&& ss <= s < se
                    &&& answer_at(training_tokens@, answer_tokens@, s as int)
                    &&& e + 1 == s + answer_tokens@.len()
                    &&& forall|t: int| ss <= t < s ==> !answer_at(training_tokens@, answer_tokens@, t)
                },
                None => forall|t: int| ss <= t < se ==> !answer_at(training_tokens@, answer_tokens@, t),
            }
        }),
{
    let search_start = question_end_idx + 1;
    let len = training_tokens.len();
    let alen = answer_tokens.len();
    let search_end = if search_start + window_size <= len { search_start + window_size } else { len };
    let mut start_idx = search_start;
    while start_idx < search_end
        invariant
            len == training_tokens@.len(),
            alen == answer_tokens@.len(),
            search_start <= start_idx,
            search_end <= len,
            search_start == question_end_idx + 1,
            search_end == (if search_start + window_size <= len { search_start + window_size } else { len as int }),
            1 <= search_start,
            forall|t: int| search_start <= t < start_idx ==> !answer_at(training_tokens@, answer_tokens@, t),
        decreases search_end - start_idx,
    {
        if alen > len - start_idx {
            assert forall|t: int| search_start <= t < search_end implies !answer_at(training_tokens@, answer_tokens@, t) by {
                if t >= start_idx {
                    assert(t + answer_tokens@.len() > training_tokens@.len());
                }
            }
            assert(answer_window(question_end_idx, window_size, training_tokens@.len() as int) == (search_start as int, search_end as int));
            return None;
        }
        let mut matches = true;
        let mut k: usize = 0;
        while k < alen
            invariant
                alen == answer_tokens@.len(),
                start_idx + alen <= len,
                len == training_tokens@.len(),
                k <= alen,
                matches ==> forall|j: int| 0 <= j < k ==> training_tokens@[start_idx + j] == answer_tokens@[j],
                !matches ==> !answer_at(training_tokens@, answer_tokens@, start_idx as int),
            decreases alen - k,
        {
            if training_tokens[start_idx + k] != answer_tokens[k] {
                if matches {
                    assert(training_tokens@.subrange(start_idx as int, start_idx + alen)[k as int] != answer_tokens@[k as int]);
                }
                matches = false;
            }
            k = k + 1;
        }
        if matches {
            assert(training_tokens@.subrange(start_idx as int, start_idx + alen) =~= answer_tokens@);
            assert(answer_window(question_end_idx, window_size, training_tokens@.len() as int) == (search_start as int, search_end as int));
            return Some((start_idx, start_idx + alen - 1));
        }
        start_idx = start_idx + 1;
    }
    assert(answer_window(question_end_idx, window_size, training_tokens@.len() as int) == (search_start as int, search_end as int));
    None
}

} // verus!
