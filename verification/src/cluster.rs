//! Expansion of a sampled n-gram hit into a contamination cluster.
//!
//! A cluster is everything that stems from one sampled hit: the evaluation
//! documents that contain the hit n-gram, and for each of them the left and
//! right boundaries of the run of matching n-grams around the hit, the set of
//! question n-gram ids that matched, and the cached document frequency of
//! every n-gram id that was looked up.

use std::collections::{HashMap, HashSet};
use vstd::prelude::*;
use crate::ngram::{hash_ngram, spec_hash_ngram};
use crate::sets::{mget, sets_view, set_elements, set_from_vec};
use crate::stats::ThreadLocalStats;

verus! {

/// The question index lookups that cluster expansion reads.
pub struct ExpansionContext<'a> {
    pub question_ngram_to_id: &'a HashMap<u64, u32>,
    pub question_ngram_id_to_eval_doc_ids: &'a HashMap<u32, HashSet<u32>>,
    pub ngram_size: usize,
    pub question_max_consecutive_misses: u32,
    pub hot_bucket_id: u32,
    pub question_ngram_id_to_hot_bucket_doc_ids: &'a HashMap<u32, HashSet<u32>>,
}

/// What the index answers for an n-gram hash: the n-gram id and the documents
/// that contain it, with a hot bucket sentinel resolved to its real documents.
pub open spec fn spec_ngram_match(ctx: &ExpansionContext, hash: u64) -> Option<(u32, Set<u32>)> {
    let ids = ctx.question_ngram_to_id@;
    let docs = ctx.question_ngram_id_to_eval_doc_ids@;
    let hot = ctx.question_ngram_id_to_hot_bucket_doc_ids@;
    if ids.contains_key(hash) && docs.contains_key(ids[hash]) && !docs[ids[hash]]@.is_empty() {
        let id = ids[hash];
        let ds = docs[id]@;
        if ds.len() == 1 && ds.contains(ctx.hot_bucket_id) && hot.contains_key(id) {
            Some((id, hot[id]@))
        } else {
            Some((id, ds))
        }
    } else {
        None
    }
}

/// The index answer for the n-gram of the training tokens that starts at `i`.
pub open spec fn spec_lookup(ctx: &ExpansionContext, tokens: Seq<usize>, i: int) -> Option<(u32, Set<u32>)> {
    spec_ngram_match(ctx, spec_hash_ngram(tokens.subrange(i, i + ctx.ngram_size)))
}

/// Checks a single n-gram hash against the index.
pub fn check_ngram_for_match<'a>(ngram_hash: u64, context: &'a ExpansionContext) -> (res: Option<(u32, &'a HashSet<u32>)>)
    ensures
        match res {
            Some((id, docs)) => spec_ngram_match(context, ngram_hash) == Some((id, docs@)),
            None => spec_ngram_match(context, ngram_hash) is None,
        },
{
    if let Some(ngram_id) = context.question_ngram_to_id.get(&ngram_hash) {
        if let Some(doc_set) = context.question_ngram_id_to_eval_doc_ids.get(ngram_id) {
            if !doc_set.is_empty() {
                if doc_set.len() == 1 && doc_set.contains(&context.hot_bucket_id) {
                    if let Some(actual_docs) = context.question_ngram_id_to_hot_bucket_doc_ids.get(ngram_id) {
                        return Some((*ngram_id, actual_docs));
                    }
                }
                return Some((*ngram_id, doc_set));
            }
        }
    }
    None
}

/// The abstract state of a traversal.
pub struct TraversalModel {
    pub active: Set<u32>,
    pub matches: Map<u32, Set<u32>>,
    pub misses: Map<u32, usize>,
    pub bounds: Map<u32, (usize, usize)>,
    pub freqs: Map<u32, usize>,
}

/// Mutable state of a traversal: the documents still followed, and per document
/// the matched n-gram ids, the count of consecutive misses and the boundaries.
pub struct TraversalState {
    pub active_documents: HashSet<u32>,
    pub document_matches: HashMap<u32, HashSet<u32>>,
    pub document_misses: HashMap<u32, usize>,
    pub document_boundaries: HashMap<u32, (usize, usize)>,
    pub ngram_doc_frequencies: HashMap<u32, usize>,
}

impl View for TraversalState {
    type V = TraversalModel;

    open spec fn view(&self) -> TraversalModel {
        TraversalModel {
            active: self.active_documents@,
            matches: sets_view(self.document_matches@),
            misses: self.document_misses@,
            bounds: self.document_boundaries@,
            freqs: self.ngram_doc_frequencies@,
        }
    }
}

pub open spec fn matched_or_empty(m: TraversalModel, d: u32) -> Set<u32> {
    if m.matches.contains_key(d) {
        m.matches[d]
    } else {
        Set::empty()
    }
}

pub open spec fn misses_or_zero(m: TraversalModel, d: u32) -> int {
    if m.misses.contains_key(d) {
        m.misses[d] as int
    } else {
        0
    }
}

/// The n-gram id of an index answer.
pub open spec fn hit_id(r: Option<(u32, Set<u32>)>) -> u32 {
    match r {
        Some((id, _docs)) => id,
        None => 0,
    }
}

/// The documents of an index answer.
pub open spec fn hit_docs(r: Option<(u32, Set<u32>)>) -> Set<u32> {
    match r {
        Some((_id, docs)) => docs,
        None => Set::empty(),
    }
}

/// Whether the looked-up n-gram matches at least one followed document.
pub open spec fn step_hits(m: TraversalModel, r: Option<(u32, Set<u32>)>) -> bool {
    match r {
        Some((_id, docs)) => m.active.intersect(docs) != Set::<u32>::empty(),
        None => false,
    }
}

/// Whether a followed document matched the n-gram at this step.
pub open spec fn doc_hit(m: TraversalModel, r: Option<(u32, Set<u32>)>, d: u32) -> bool {
    step_hits(m, r) && hit_docs(r).contains(d)
}

/// A followed document's matched n-gram ids after the step.
pub open spec fn next_match(m: TraversalModel, r: Option<(u32, Set<u32>)>, d: u32) -> Option<Set<u32>> {
    if doc_hit(m, r, d) {
        Some(matched_or_empty(m, d).insert(hit_id(r)))
    } else {
        mget(m.matches, d)
    }
}

/// A followed document's miss count after the step: reset on a new matching
/// n-gram, unchanged on a repeated one, one more otherwise.
pub open spec fn next_miss(m: TraversalModel, r: Option<(u32, Set<u32>)>, d: u32) -> Option<usize> {
    if doc_hit(m, r, d) {
        if !matched_or_empty(m, d).contains(hit_id(r)) {
            Some(0usize)
        } else {
            mget(m.misses, d)
        }
    } else {
        Some((misses_or_zero(m, d) + 1) as usize)
    }
}

/// Whether a followed document is still followed after the step.
pub open spec fn keeps(m: TraversalModel, r: Option<(u32, Set<u32>)>, d: u32, max_misses: usize) -> bool {
    doc_hit(m, r, d) || misses_or_zero(m, d) + 1 < max_misses
}

/// A followed document's boundaries after the step at `pos`.
pub open spec fn next_bound(m: TraversalModel, r: Option<(u32, Set<u32>)>, d: u32, pos: usize, left: bool) -> Option<(usize, usize)> {
    if doc_hit(m, r, d) && m.bounds.contains_key(d) {
        if left {
            Some((pos, m.bounds[d].1))
        } else {
            Some((m.bounds[d].0, pos))
        }
    } else {
        mget(m.bounds, d)
    }
}

/// Replaces the entries of the keys in `keys` by what `f` gives for them.
pub open spec fn map_over<V>(old: Map<u32, V>, keys: Set<u32>, f: spec_fn(u32) -> Option<V>) -> Map<u32, V> {
    Map::new(
        |d: u32| if keys.contains(d) { f(d) is Some } else { old.contains_key(d) },
        |d: u32| if keys.contains(d) { f(d)->0 } else { old[d] },
    )
}

/// The document frequency cache after looking up an n-gram: a new id records
/// the number of documents that contain it.
pub open spec fn next_freqs(m: TraversalModel, r: Option<(u32, Set<u32>)>) -> Map<u32, usize> {
    match r {
        Some((id, docs)) => if m.freqs.contains_key(id) {
            m.freqs
        } else {
            m.freqs.insert(id, docs.len() as usize)
        },
        None => m.freqs,
    }
}

/// The matched n-gram ids after a step that touches the documents in `keys`.
pub open spec fn matches_on(m: TraversalModel, r: Option<(u32, Set<u32>)>, keys: Set<u32>) -> Map<u32, Set<u32>> {
    map_over(m.matches, keys, |d: u32| next_match(m, r, d))
}

/// The miss counts after a step that touches the documents in `keys`.
pub open spec fn misses_on(m: TraversalModel, r: Option<(u32, Set<u32>)>, keys: Set<u32>) -> Map<u32, usize> {
    map_over(m.misses, keys, |d: u32| next_miss(m, r, d))
}

/// The boundaries after a step that touches the documents in `keys`.
pub open spec fn bounds_on(m: TraversalModel, r: Option<(u32, Set<u32>)>, keys: Set<u32>, pos: usize, left: bool) -> Map<u32, (usize, usize)> {
    map_over(m.bounds, keys, |d: u32| next_bound(m, r, d, pos, left))
}

/// The documents of `keys` that are still followed after the step.
pub open spec fn kept_on(m: TraversalModel, r: Option<(u32, Set<u32>)>, keys: Set<u32>, max_misses: usize) -> Set<u32> {
    keys.filter(|d: u32| keeps(m, r, d, max_misses))
}

/// One step of a traversal at n-gram position `pos` whose index answer is `r`.
pub open spec fn step(m: TraversalModel, pos: usize, r: Option<(u32, Set<u32>)>, max_misses: usize, left: bool) -> TraversalModel {
    TraversalModel {
        active: kept_on(m, r, m.active, max_misses),
        matches: matches_on(m, r, m.active),
        misses: misses_on(m, r, m.active),
        bounds: bounds_on(m, r, m.active, pos, left),
        freqs: next_freqs(m, r),
    }
}

/// The abstract value of an index answer.
pub open spec fn view_hit(hit: Option<(u32, &HashSet<u32>)>) -> Option<(u32, Set<u32>)> {
    match hit {
        Some((id, docs)) => Some((id, docs@)),
        None => None,
    }
}

/// Whether some element of `v` lies in `docs`.
fn any_in(v: &Vec<u32>, docs: &HashSet<u32>) -> (res: bool)
    ensures
        res == exists|j: int| 0 <= j < v@.len() && docs@.contains(#[trigger] v@[j]),
{
    let mut k: usize = 0;
    while k < v.len()
        invariant
            k <= v@.len(),
            forall|j: int| 0 <= j < k ==> !docs@.contains(#[trigger] v@[j]),
        decreases v@.len() - k,
    {
        if docs.contains(&v[k]) {
            return true;
        }
        k = k + 1;
    }
    false
}

/// Applies one traversal step at n-gram position `pos` to the state.
fn apply_step(state: &mut TraversalState, pos: usize, hit: Option<(u32, &HashSet<u32>)>, max_misses: usize, left: bool)
    requires
        forall|d: u32| #[trigger] old(state)@.misses.contains_key(d) ==> old(state)@.misses[d] < usize::MAX,
    ensures
        final(state)@ == step(old(state)@, pos, view_hit(hit), max_misses, left),
{
    let ghost m = state@;
    let ghost r = view_hit(hit);
    if let Some((id, docs)) = hit {
        if !state.ngram_doc_frequencies.contains_key(&id) {
            state.ngram_doc_frequencies.insert(id, docs.len());
        }
    }
    assert(state@.freqs == next_freqs(m, r));
    let act = set_elements(&state.active_documents);
    let hits = match hit {
        Some((_id, docs)) => any_in(&act, docs),
        None => false,
    };
    proof {
        if hits {
            let j = choose|j: int| 0 <= j < act@.len() && hit_docs(r).contains(#[trigger] act@[j]);
            assert(act@.to_set().contains(act@[j]));
            assert(m.active.intersect(hit_docs(r)).contains(act@[j]));
        } else if r is Some {
            assert forall|d: u32| !m.active.intersect(hit_docs(r)).contains(d) by {
                if m.active.contains(d) {
                    assert(act@.to_set().contains(d));
                    let j = choose|j: int| 0 <= j < act@.len() && act@[j] == d;
                }
            }
            assert(m.active.intersect(hit_docs(r)) =~= Set::<u32>::empty());
        }
        assert(hits == step_hits(m, r));
    }
    let mut new_active: HashSet<u32> = HashSet::new();
    let mut j: usize = 0;
    while j < act.len()
        invariant
            j <= act@.len(),
            act@.to_set() == m.active,
            act@.no_duplicates(),
            hits == step_hits(m, r),
            r == view_hit(hit),
            state.active_documents@ == m.active,
            state@.freqs == next_freqs(m, r),
            state@.matches == matches_on(m, r, act@.take(j as int).to_set()),
            state@.misses == misses_on(m, r, act@.take(j as int).to_set()),
            state@.bounds == bounds_on(m, r, act@.take(j as int).to_set(), pos, left),
            new_active@ == kept_on(m, r, act@.take(j as int).to_set(), max_misses),
            forall|d: u32| #[trigger] m.misses.contains_key(d) ==> m.misses[d] < usize::MAX,
        decreases act@.len() - j,
    {
        let d = act[j];
        let ghost p = act@.take(j as int).to_set();
        let ghost p2 = act@.take(j + 1).to_set();
        proof {
            assert(act@.take(j + 1) =~= act@.take(j as int).push(d));
            act@.take(j as int).lemma_push_to_set_commute(d);
            assert(p2 == p.insert(d));
            assert(!p.contains(d)) by {
                if p.contains(d) {
                    let k = choose|k: int| 0 <= k < j && act@.take(j as int)[k] == d;
                    assert(act@[k] == act@[j as int]);
                }
            }
            assert(act@.to_set().contains(d));
        }
        let in_hit = match hit {
            Some((_id, docs)) => hits && docs.contains(&d),
            None => false,
        };
        assert(in_hit == doc_hit(m, r, d));
        proof {
            let mm = state.document_matches@;
            assert(sets_view(mm).contains_key(d) == matches_on(m, r, p).contains_key(d));
            if mm.contains_key(d) {
                assert(sets_view(mm)[d] == matches_on(m, r, p)[d]);
            }
            assert(state@.misses.contains_key(d) == misses_on(m, r, p).contains_key(d));
            assert(state@.bounds.contains_key(d) == bounds_on(m, r, p, pos, left).contains_key(d));
            if state@.misses.contains_key(d) {
                assert(state@.misses[d] == misses_on(m, r, p)[d]);
            }
            if state@.bounds.contains_key(d) {
                assert(state@.bounds[d] == bounds_on(m, r, p, pos, left)[d]);
            }
        }
        if in_hit {
            let id = match hit {
                Some((id, _docs)) => id,
                None => 0,
            };
            let ghost before = state.document_matches@;
            let mut s = match state.document_matches.remove(&d) {
                Some(s) => s,
                None => HashSet::new(),
            };
            assert(s@ == matched_or_empty(m, d));
            let is_new = s.insert(id);
            let ghost mm = state.document_matches@;
            state.document_matches.insert(d, s);
            proof {
                let after = state.document_matches@;
                assert(after == before.remove(d).insert(d, s));
                assert(s@ == next_match(m, r, d)->0);
                assert forall|k: u32| #[trigger] sets_view(after).contains_key(k) == matches_on(m, r, p2).contains_key(k) by {
                    if k != d {
                        assert(sets_view(before).contains_key(k) == matches_on(m, r, p).contains_key(k));
                    }
                }
                assert forall|k: u32| #[trigger] sets_view(after).contains_key(k) implies sets_view(after)[k] == matches_on(m, r, p2)[k] by {
                    if k != d {
                        assert(sets_view(before).contains_key(k) == matches_on(m, r, p).contains_key(k));
                        assert(sets_view(before)[k] == matches_on(m, r, p)[k]);
                    }
                }
                assert(sets_view(after) =~= matches_on(m, r, p2));
            }
            if is_new {
                state.document_misses.insert(d, 0);
            }
            proof {
                assert(state@.misses =~= misses_on(m, r, p2));
            }
            match state.document_boundaries.get(&d) {
                Some(b) => {
                    let (bs, be) = *b;
                    if left {
                        state.document_boundaries.insert(d, (pos, be));
                    } else {
                        state.document_boundaries.insert(d, (bs, pos));
                    }
                },
                None => {},
            }
            proof {
                assert(state@.bounds =~= bounds_on(m, r, p2, pos, left));
            }
            new_active.insert(d);
            proof {
                assert(new_active@ =~= kept_on(m, r, p2, max_misses));
            }
        } else {
            let c: usize = match state.document_misses.get(&d) {
                Some(c) => *c,
                None => 0,
            };
            assert(c as int == misses_or_zero(m, d));
            let c1 = c + 1;
            state.document_misses.insert(d, c1);
            if c1 < max_misses {
                new_active.insert(d);
            }
            proof {
                assert(state@.matches =~= matches_on(m, r, p2));
                assert(state@.misses =~= misses_on(m, r, p2));
                assert(state@.bounds =~= bounds_on(m, r, p2, pos, left));
                assert(new_active@ =~= kept_on(m, r, p2, max_misses));
            }
        }
        j = j + 1;
    }
    proof {
        assert(act@.take(act@.len() as int) =~= act@);
    }
    state.active_documents = new_active;
    assert(state@.active == kept_on(m, r, m.active, max_misses));
}


/// The counters of `after` equal those of `before`, except possibly the
/// left and right traversal counts.
pub open spec fn same_but_traversals(before: ThreadLocalStats, after: ThreadLocalStats) -> bool {
    &&& after.files_processed == before.files_processed
    &&& after.lines_processed == before.lines_processed
    &&& after.contaminations_found == before.contaminations_found
    &&& after.question_expansion_time_us == before.question_expansion_time_us
    &&& after.answer_cluster_time_us == before.answer_cluster_time_us
    &&& after.passage_cluster_time_us == before.passage_cluster_time_us
    &&& after.question_expansion_calls == before.question_expansion_calls
    &&& after.answer_cluster_calls == before.answer_cluster_calls
    &&& after.passage_cluster_calls == before.passage_cluster_calls
    &&& after.excluded_no_answer == before.excluded_no_answer
    &&& after.excluded_no_passage == before.excluded_no_passage
    &&& after.excluded_low_idf_threshold == before.excluded_low_idf_threshold
}

/// A counter raised by `k`, held at `usize::MAX`.
pub open spec fn capped_add(c: usize, k: int) -> usize {
    if c + k <= usize::MAX { (c + k) as usize } else { usize::MAX }
}

/// The traversal to the left of position `cur`: while documents are followed,
/// step to the previous n-gram. Gives the final state and position.
pub open spec fn left_run(ctx: &ExpansionContext, tokens: Seq<usize>, m: TraversalModel, cur: int) -> (TraversalModel, int)
    decreases cur,
{
    if m.active.is_empty() || cur <= 0 {
        (m, cur)
    } else {
        left_run(
            ctx,
            tokens,
            step(m, (cur - 1) as usize, spec_lookup(ctx, tokens, cur - 1), ctx.question_max_consecutive_misses as usize, true),
            cur - 1,
        )
    }
}

/// The traversal to the right of position `cur`, up to the last of
/// `total_ngrams` n-gram positions.
pub open spec fn right_run(ctx: &ExpansionContext, tokens: Seq<usize>, total_ngrams: int, m: TraversalModel, cur: int) -> (TraversalModel, int)
    decreases total_ngrams - cur,
{
    if m.active.is_empty() || cur + 1 >= total_ngrams {
        (m, cur)
    } else {
        right_run(
            ctx,
            tokens,
            total_ngrams,
            step(m, (cur + 1) as usize, spec_lookup(ctx, tokens, cur + 1), ctx.question_max_consecutive_misses as usize, false),
            cur + 1,
        )
    }
}

/// A step raises a miss count by at most one, and adds only zero or raised counts.
proof fn lemma_step_misses(m: TraversalModel, pos: usize, r: Option<(u32, Set<u32>)>, max_misses: usize, left: bool, budget: int)
    requires
        forall|d: u32| #[trigger] m.misses.contains_key(d) ==> m.misses[d] + 1 <= budget,
        1 <= budget <= usize::MAX,
    ensures
        forall|d: u32| #[trigger] step(m, pos, r, max_misses, left).misses.contains_key(d) ==>
            step(m, pos, r, max_misses, left).misses[d] <= budget,
{
    let m2 = step(m, pos, r, max_misses, left);
    assert forall|d: u32| #[trigger] m2.misses.contains_key(d) implies m2.misses[d] <= budget by {
        if m.active.contains(d) {
            if doc_hit(m, r, d) {
                if matched_or_empty(m, d).contains(hit_id(r)) {
                    assert(m.misses.contains_key(d));
                }
            } else {
                assert(misses_or_zero(m, d) + 1 <= budget);
            }
        } else {
            assert(m.misses.contains_key(d));
        }
    }
}

/// Traverses to the left of the hit, one n-gram at a time, while any document
/// is still followed. Returns the last position visited.
pub fn traverse_left(
    hit_idx: usize,
    word_tokens: &[usize],
    context: &ExpansionContext,
    state: &mut TraversalState,
    stats: &mut ThreadLocalStats,
) -> (res: usize)
    requires
        hit_idx + context.ngram_size <= word_tokens@.len(),
        forall|d: u32| #[trigger] old(state)@.misses.contains_key(d) ==> old(state)@.misses[d] + hit_idx <= usize::MAX,
    ensures
        (final(state)@, res as int) == left_run(context, word_tokens@, old(state)@, hit_idx as int),
        res <= hit_idx,
        final(stats).left_traversals == capped_add(old(stats).left_traversals, hit_idx - res),
        final(stats).right_traversals == old(stats).right_traversals,
        same_but_traversals(*old(stats), *final(stats)),
{
    let mut current_idx = hit_idx;
    let max_misses = context.question_max_consecutive_misses as usize;
    let len = word_tokens.len();
    while !state.active_documents.is_empty() && current_idx != 0
        invariant
            len == word_tokens@.len(),
            current_idx <= hit_idx,
            hit_idx + context.ngram_size <= word_tokens@.len(),
            max_misses == context.question_max_consecutive_misses as usize,
            left_run(context, word_tokens@, state@, current_idx as int) == left_run(context, word_tokens@, old(state)@, hit_idx as int),
            forall|d: u32| #[trigger] state@.misses.contains_key(d) ==> state@.misses[d] + current_idx <= usize::MAX,
            stats.left_traversals == capped_add(old(stats).left_traversals, hit_idx - current_idx),
            stats.right_traversals == old(stats).right_traversals,
            same_but_traversals(*old(stats), *stats),
        decreases current_idx,
    {
        current_idx = current_idx - 1;
        stats.left_traversals = stats.left_traversals.saturating_add(1);
        let ngram_tokens = &word_tokens[current_idx..current_idx + context.ngram_size];
        let ngram_hash = hash_ngram(ngram_tokens);
        proof {
            assert(ngram_tokens@ == word_tokens@.subrange(current_idx as int, current_idx + context.ngram_size));
        }
        let hit = check_ngram_for_match(ngram_hash, context);
        let ghost before = state@;
        apply_step(state, current_idx, hit, max_misses, true);
        proof {
            lemma_step_misses(before, current_idx, view_hit(hit), max_misses, true, usize::MAX - current_idx);
        }
    }
    current_idx
}

/// Traverses to the right of the hit, one n-gram at a time, while any
/// document is still followed and n-grams remain. Returns the last position visited.
pub fn traverse_right(
    hit_idx: usize,
    word_tokens: &[usize],
    context: &ExpansionContext,
    total_ngrams: usize,
    state: &mut TraversalState,
    stats: &mut ThreadLocalStats,
) -> (res: usize)
    requires
        total_ngrams + context.ngram_size <= word_tokens@.len() + 1,
        forall|d: u32| #[trigger] old(state)@.misses.contains_key(d) ==> old(state)@.misses[d] + total_ngrams <= usize::MAX,
    ensures
        (final(state)@, res as int) == right_run(context, word_tokens@, total_ngrams as int, old(state)@, hit_idx as int),
        res >= hit_idx,
        res > hit_idx ==> res < total_ngrams,
        final(stats).right_traversals == capped_add(old(stats).right_traversals, res - hit_idx),
        final(stats).left_traversals == old(stats).left_traversals,
        same_but_traversals(*old(stats), *final(stats)),
{
    let mut current_idx = hit_idx;
    let max_misses = context.question_max_consecutive_misses as usize;
    let len = word_tokens.len();
    while !state.active_documents.is_empty() && total_ngrams > 0 && current_idx < total_ngrams - 1
        invariant
            len == word_tokens@.len(),
            current_idx >= hit_idx,
            current_idx > hit_idx ==> current_idx < total_ngrams,
            total_ngrams + context.ngram_size <= word_tokens@.len() + 1,
            max_misses == context.question_max_consecutive_misses as usize,
            right_run(context, word_tokens@, total_ngrams as int, state@, current_idx as int)
                == right_run(context, word_tokens@, total_ngrams as int, old(state)@, hit_idx as int),
            forall|d: u32| #[trigger] state@.misses.contains_key(d) ==>
                state@.misses[d] + total_ngrams <= usize::MAX + (current_idx - hit_idx),
            stats.right_traversals == capped_add(old(stats).right_traversals, current_idx - hit_idx),
            stats.left_traversals == old(stats).left_traversals,
            same_but_traversals(*old(stats), *stats),
        decreases total_ngrams - current_idx,
    {
        current_idx = current_idx + 1;
        stats.right_traversals = stats.right_traversals.saturating_add(1);
        let ngram_tokens = &word_tokens[current_idx..current_idx + context.ngram_size];
        let ngram_hash = hash_ngram(ngram_tokens);
        proof {
            assert(ngram_tokens@ == word_tokens@.subrange(current_idx as int, current_idx + context.ngram_size));
        }
        let hit = check_ngram_for_match(ngram_hash, context);
        let ghost before = state@;
        apply_step(state, current_idx, hit, max_misses, false);
        proof {
            lemma_step_misses(before, current_idx, view_hit(hit), max_misses, false, usize::MAX + (current_idx - hit_idx) - total_ngrams);
        }
    }
    current_idx
}


/// The facts that every state of an expansion from documents `docs` and
/// initial n-gram id `id0` keeps.
pub open spec fn cluster_wf(m: TraversalModel, docs: Set<u32>, id0: u32) -> bool {
    &&& m.active.subset_of(docs)
    &&& m.matches.dom() == docs
    &&& m.misses.dom() == docs
    &&& m.bounds.dom() == docs
    &&& forall|d: u32| #[trigger] docs.contains(d) ==> m.matches[d].contains(id0)
    &&& m.freqs.contains_key(id0)
}

/// Every document's boundaries enclose the hit and lie within `lo..=hi`.
pub open spec fn bounds_within(m: TraversalModel, docs: Set<u32>, lo: int, hit: int, hi: int) -> bool {
    forall|d: u32| #[trigger] docs.contains(d) ==> {
        &&& lo <= m.bounds[d].0 <= hit
        &&& hit <= m.bounds[d].1 <= hi
    }
}

proof fn lemma_step_wf(m: TraversalModel, pos: usize, r: Option<(u32, Set<u32>)>, max_misses: usize, left: bool, docs: Set<u32>, id0: u32, lo: int, hit: int, hi: int)
    requires
        cluster_wf(m, docs, id0),
        bounds_within(m, docs, lo, hit, hi),
        left ==> pos <= hit && pos + 1 == lo,
        !left ==> pos >= hit && pos == hi + 1,
    ensures
        cluster_wf(step(m, pos, r, max_misses, left), docs, id0),
        left ==> bounds_within(step(m, pos, r, max_misses, left), docs, pos as int, hit, hi),
        !left ==> bounds_within(step(m, pos, r, max_misses, left), docs, lo, hit, pos as int),
{
    let m2 = step(m, pos, r, max_misses, left);
    assert(m2.matches.dom() =~= docs);
    assert(m2.misses.dom() =~= docs);
    assert(m2.bounds.dom() =~= docs);
    assert forall|d: u32| #[trigger] docs.contains(d) implies m2.matches[d].contains(id0) by {
        if m.active.contains(d) && doc_hit(m, r, d) {
            assert(matched_or_empty(m, d) == m.matches[d]);
        }
    }
    if left {
        assert(bounds_within(m2, docs, pos as int, hit, hi));
    } else {
        assert(bounds_within(m2, docs, lo, hit, pos as int));
    }
}

proof fn lemma_left_run_wf(ctx: &ExpansionContext, tokens: Seq<usize>, m: TraversalModel, cur: int, docs: Set<u32>, id0: u32, hit: int, hi: int)
    requires
        cluster_wf(m, docs, id0),
        bounds_within(m, docs, cur, hit, hi),
        0 <= cur <= hit,
    ensures
        cluster_wf(left_run(ctx, tokens, m, cur).0, docs, id0),
        bounds_within(left_run(ctx, tokens, m, cur).0, docs, left_run(ctx, tokens, m, cur).1, hit, hi),
        0 <= left_run(ctx, tokens, m, cur).1 <= cur,
    decreases cur,
{
    if !(m.active.is_empty() || cur <= 0) {
        let r = spec_lookup(ctx, tokens, cur - 1);
        let mm = ctx.question_max_consecutive_misses as usize;
        lemma_step_wf(m, (cur - 1) as usize, r, mm, true, docs, id0, cur, hit, hi);
        lemma_left_run_wf(ctx, tokens, step(m, (cur - 1) as usize, r, mm, true), cur - 1, docs, id0, hit, hi);
    }
}

proof fn lemma_right_run_wf(ctx: &ExpansionContext, tokens: Seq<usize>, total: int, m: TraversalModel, cur: int, docs: Set<u32>, id0: u32, lo: int, hit: int)
    requires
        cluster_wf(m, docs, id0),
        bounds_within(m, docs, lo, hit, cur),
        hit <= cur,
        total <= usize::MAX,
    ensures
        cluster_wf(right_run(ctx, tokens, total, m, cur).0, docs, id0),
        bounds_within(right_run(ctx, tokens, total, m, cur).0, docs, lo, hit, right_run(ctx, tokens, total, m, cur).1),
        cur <= right_run(ctx, tokens, total, m, cur).1,
        cur < right_run(ctx, tokens, total, m, cur).1 ==> right_run(ctx, tokens, total, m, cur).1 < total,
    decreases total - cur,
{
    if !(m.active.is_empty() || cur + 1 >= total) {
        let r = spec_lookup(ctx, tokens, cur + 1);
        let mm = ctx.question_max_consecutive_misses as usize;
        lemma_step_wf(m, (cur + 1) as usize, r, mm, false, docs, id0, lo, hit, cur);
        lemma_right_run_wf(ctx, tokens, total, step(m, (cur + 1) as usize, r, mm, false), cur + 1, docs, id0, lo, hit);
    }
}

/// The abstract value of a contamination cluster.
pub struct ClusterModel {
    pub matches: Map<u32, Set<u32>>,
    pub bounds: Map<u32, (usize, usize)>,
    pub freqs: Map<u32, usize>,
    pub end_idx: usize,
}

/// All the information that stems from one sampled hit: for each evaluation
/// document that contained the hit n-gram, the matched n-gram ids and the
/// token boundaries of the match, the cached document frequency of every
/// n-gram id looked up, and the last n-gram position of the expansion.
#[derive(Clone)]
pub struct SimpleContaminationCluster {
    pub document_matches: HashMap<u32, HashSet<u32>>,
    pub document_boundaries: HashMap<u32, (usize, usize)>,
    pub ngram_doc_frequencies: HashMap<u32, usize>,
    pub end_idx: usize,
}

impl View for SimpleContaminationCluster {
    type V = ClusterModel;

    open spec fn view(&self) -> ClusterModel {
        ClusterModel {
            matches: sets_view(self.document_matches@),
            bounds: self.document_boundaries@,
            freqs: self.ngram_doc_frequencies@,
            end_idx: self.end_idx,
        }
    }
}

impl SimpleContaminationCluster {
    pub fn new(
        document_matches: HashMap<u32, HashSet<u32>>,
        document_boundaries: HashMap<u32, (usize, usize)>,
        ngram_doc_frequencies: HashMap<u32, usize>,
        end_idx: usize,
    ) -> (res: Self)
        ensures
            res.document_matches@ == document_matches@,
            res.document_boundaries@ == document_boundaries@,
            res.ngram_doc_frequencies@ == ngram_doc_frequencies@,
            res.end_idx == end_idx,
    {
        Self { document_matches, document_boundaries, ngram_doc_frequencies, end_idx }
    }
}

/// The n-gram id of the initial hit: its id in the index, or 0.
pub open spec fn spec_initial_ngram_id(ctx: &ExpansionContext, initial_hash: u64) -> u32 {
    if ctx.question_ngram_to_id@.contains_key(initial_hash) {
        ctx.question_ngram_to_id@[initial_hash]
    } else {
        0
    }
}

/// The state before the left traversal: every initial document has matched
/// the initial n-gram, has no misses, and is bounded by the hit.
pub open spec fn initial_model(docs: Set<u32>, id0: u32, hit: usize) -> TraversalModel {
    TraversalModel {
        active: docs,
        matches: Map::new(|d: u32| docs.contains(d), |d: u32| set![id0]),
        misses: Map::new(|d: u32| docs.contains(d), |d: u32| 0usize),
        bounds: Map::new(|d: u32| docs.contains(d), |d: u32| (hit, hit)),
        freqs: Map::<u32, usize>::empty().insert(id0, docs.len() as usize),
    }
}

/// The state before the right traversal: all initial documents followed
/// again, with their misses reset.
pub open spec fn restart_model(m: TraversalModel, docs: Set<u32>) -> TraversalModel {
    TraversalModel {
        active: docs,
        misses: Map::new(
            |d: u32| m.misses.contains_key(d) || docs.contains(d),
            |d: u32| if docs.contains(d) { 0usize } else { m.misses[d] },
        ),
        ..m
    }
}

/// The cluster that expansion from `hit` yields.
pub open spec fn spec_expand(ctx: &ExpansionContext, tokens: Seq<usize>, hit: usize, docs: Set<u32>, initial_hash: u64) -> ClusterModel {
    let id0 = spec_initial_ngram_id(ctx, initial_hash);
    let total = tokens.len() - ctx.ngram_size + 1;
    let m1 = left_run(ctx, tokens, initial_model(docs, id0, hit), hit as int).0;
    let right = right_run(ctx, tokens, total, restart_model(m1, docs), hit as int);
    ClusterModel { matches: right.0.matches, bounds: right.0.bounds, freqs: right.0.freqs, end_idx: right.1 as usize }
}


/// Expands a sampled hit at n-gram position `hit_idx` into a cluster: first
/// to the left, then, with all initial documents followed again, to the right.
/// Gives `None` when the training tokens are too few to form an n-gram.
pub fn expand_simple_contamination_cluster(
    hit_idx: usize,
    word_tokens: &[usize],
    context: &ExpansionContext,
    initial_document_ids: HashSet<u32>,
    initial_training_ngram: &[usize],
    stats: &mut ThreadLocalStats,
) -> (res: Option<SimpleContaminationCluster>)
    requires
        word_tokens@.len() >= context.ngram_size ==> hit_idx + context.ngram_size <= word_tokens@.len(),
        word_tokens@.len() < usize::MAX,
    ensures
        res is None <==> word_tokens@.len() < context.ngram_size,
        res matches Some(c) ==> {
            let h = spec_hash_ngram(initial_training_ngram@);
            let id0 = spec_initial_ngram_id(context, h);
            let docs = initial_document_ids@;
            let total = word_tokens@.len() - context.ngram_size + 1;
            let left = left_run(context, word_tokens@, initial_model(docs, id0, hit_idx), hit_idx as int).1;
            let reach = if context.question_max_consecutive_misses > 1 {
                context.question_max_consecutive_misses as int
            } else {
                1
            };
            &&& c@ == spec_expand(context, word_tokens@, hit_idx, docs, h)
            &&& docs.len() > 0 ==> c@.end_idx >= if hit_idx + reach < total - 1 { hit_idx + reach } else { total - 1 }
            &&& c@.matches.dom() == docs
            &&& c@.bounds.dom() == docs
            &&& forall|d: u32| #[trigger] docs.contains(d) ==> {
                &&& c@.matches[d].contains(id0)
                &&& left <= c@.bounds[d].0 <= hit_idx
                &&& hit_idx <= c@.bounds[d].1 <= c@.end_idx
            }
            &&& hit_idx <= c@.end_idx < total
            &&& c@.freqs.contains_key(id0)
            &&& final(stats).left_traversals == capped_add(old(stats).left_traversals, hit_idx - left)
            &&& final(stats).right_traversals == capped_add(old(stats).right_traversals, c@.end_idx - hit_idx)
        },
        res is None ==> *final(stats) == *old(stats),
        same_but_traversals(*old(stats), *final(stats)),
{
    if word_tokens.len() < context.ngram_size {
        return None;
    }
    let ghost docs = initial_document_ids@;
    let init_vec = set_elements(&initial_document_ids);
    let initial_ngram_hash = hash_ngram(initial_training_ngram);
    let initial_ngram_id: u32 = match context.question_ngram_to_id.get(&initial_ngram_hash) {
        Some(id) => *id,
        None => 0,
    };
    let ghost id0 = initial_ngram_id;
    assert(id0 == spec_initial_ngram_id(context, spec_hash_ngram(initial_training_ngram@)));
    let mut document_matches: HashMap<u32, HashSet<u32>> = HashMap::new();
    let mut document_misses: HashMap<u32, usize> = HashMap::new();
    let mut document_boundaries: HashMap<u32, (usize, usize)> = HashMap::new();
    let mut ngram_doc_frequencies: HashMap<u32, usize> = HashMap::new();
    ngram_doc_frequencies.insert(initial_ngram_id, initial_document_ids.len());
    let mut j: usize = 0;
    while j < init_vec.len()
        invariant
            j <= init_vec@.len(),
            sets_view(document_matches@) == Map::new(|d: u32| init_vec@.take(j as int).to_set().contains(d), |d: u32| set![id0]),
            document_misses@ == Map::new(|d: u32| init_vec@.take(j as int).to_set().contains(d), |d: u32| 0usize),
            document_boundaries@ == Map::new(|d: u32| init_vec@.take(j as int).to_set().contains(d), |d: u32| (hit_idx, hit_idx)),
            initial_ngram_id == id0,
        decreases init_vec@.len() - j,
    {
        let d = init_vec[j];
        let mut matched: HashSet<u32> = HashSet::new();
        matched.insert(initial_ngram_id);
        assert(matched@ =~= set![id0]);
        let ghost before = document_matches@;
        document_matches.insert(d, matched);
        document_misses.insert(d, 0);
        document_boundaries.insert(d, (hit_idx, hit_idx));
        proof {
            assert(init_vec@.take(j + 1) =~= init_vec@.take(j as int).push(d));
            init_vec@.take(j as int).lemma_push_to_set_commute(d);
            let target = Map::new(|k: u32| init_vec@.take(j + 1).to_set().contains(k), |k: u32| set![id0]);
            let prev = Map::new(|k: u32| init_vec@.take(j as int).to_set().contains(k), |k: u32| set![id0]);
            assert forall|k: u32| #[trigger] sets_view(document_matches@).contains_key(k) == target.contains_key(k) by {
                if k != d {
                    assert(sets_view(before).contains_key(k) == prev.contains_key(k));
                }
            }
            assert forall|k: u32| #[trigger] sets_view(document_matches@).contains_key(k) implies sets_view(document_matches@)[k] == target[k] by {
                if k != d {
                    assert(sets_view(before).contains_key(k) == prev.contains_key(k));
                    assert(sets_view(before)[k] == prev[k]);
                }
            }
            assert(sets_view(document_matches@) =~= target);
            assert(document_misses@ =~= Map::new(|k: u32| init_vec@.take(j + 1).to_set().contains(k), |k: u32| 0usize));
            assert(document_boundaries@ =~= Map::new(|k: u32| init_vec@.take(j + 1).to_set().contains(k), |k: u32| (hit_idx, hit_idx)));
        }
        j = j + 1;
    }
    proof {
        assert(init_vec@.take(init_vec@.len() as int) =~= init_vec@);
    }
    let total_ngrams = word_tokens.len() - context.ngram_size + 1;
    let mut state = TraversalState {
        active_documents: set_from_vec(&init_vec),
        document_matches,
        document_misses,
        document_boundaries,
        ngram_doc_frequencies,
    };
    let ghost m0 = initial_model(docs, id0, hit_idx);
    proof {
        assert(state@.matches =~= m0.matches);
        assert(state@.misses =~= m0.misses);
        assert(state@.bounds =~= m0.bounds);
        assert(state@.freqs =~= m0.freqs);
        assert(state@ == m0);
        assert(m0.matches.dom() =~= docs);
        assert(m0.misses.dom() =~= docs);
        assert(m0.bounds.dom() =~= docs);
        assert(cluster_wf(m0, docs, id0));
        lemma_left_run_wf(context, word_tokens@, m0, hit_idx as int, docs, id0, hit_idx as int, hit_idx as int);
    }
    let _left_idx = traverse_left(hit_idx, word_tokens, context, &mut state, stats);
    let ghost m1 = state@;
    state.active_documents = set_from_vec(&init_vec);
    let mut k: usize = 0;
    while k < init_vec.len()
        invariant
            k <= init_vec@.len(),
            state.active_documents@ == docs,
            init_vec@.to_set() == docs,
            state@.matches == m1.matches,
            state@.bounds == m1.bounds,
            state@.freqs == m1.freqs,
            state@.misses == Map::new(
                |d: u32| m1.misses.contains_key(d) || init_vec@.take(k as int).to_set().contains(d),
                |d: u32| if init_vec@.take(k as int).to_set().contains(d) { 0usize } else { m1.misses[d] },
            ),
        decreases init_vec@.len() - k,
    {
        let d = init_vec[k];
        state.document_misses.insert(d, 0);
        proof {
            assert(init_vec@.take(k + 1) =~= init_vec@.take(k as int).push(d));
            init_vec@.take(k as int).lemma_push_to_set_commute(d);
            assert(state@.misses =~= Map::new(
                |e: u32| m1.misses.contains_key(e) || init_vec@.take(k + 1).to_set().contains(e),
                |e: u32| if init_vec@.take(k + 1).to_set().contains(e) { 0usize } else { m1.misses[e] },
            ));
        }
        k = k + 1;
    }
    proof {
        assert(init_vec@.take(init_vec@.len() as int) =~= init_vec@);
        assert(state@.misses =~= restart_model(m1, docs).misses);
        assert(state@ == restart_model(m1, docs));
        assert(restart_model(m1, docs).misses.dom() =~= docs);
        let left = left_run(context, word_tokens@, m0, hit_idx as int).1;
        lemma_right_run_wf(context, word_tokens@, total_ngrams as int, restart_model(m1, docs), hit_idx as int, docs, id0, left, hit_idx as int);
    }
    let right_idx = traverse_right(hit_idx, word_tokens, context, total_ngrams, &mut state, stats);
    let cluster = SimpleContaminationCluster::new(
        state.document_matches,
        state.document_boundaries,
        state.ngram_doc_frequencies,
        right_idx,
    );
    proof {
        if docs.len() > 0 {
            let d = docs.choose();
            assert(docs.contains(d)) by {
                assert(docs.finite());
                if !docs.contains(d) {
                    assert(docs =~= Set::<u32>::empty());
                }
            }
            lemma_expansion_reaches_right(context, word_tokens@, hit_idx, docs, spec_hash_ngram(initial_training_ngram@), d);
        }
    }
    Some(cluster)
}

proof fn lemma_right_run_ge(ctx: &ExpansionContext, tokens: Seq<usize>, total: int, m: TraversalModel, cur: int)
    ensures
        right_run(ctx, tokens, total, m, cur).1 >= cur,
    decreases total - cur,
{
    if !(m.active.is_empty() || cur + 1 >= total) {
        let r = spec_lookup(ctx, tokens, cur + 1);
        let mm = ctx.question_max_consecutive_misses as usize;
        lemma_right_run_ge(ctx, tokens, total, step(m, (cur + 1) as usize, r, mm, false), cur + 1);
    }
}

proof fn lemma_right_run_le(ctx: &ExpansionContext, tokens: Seq<usize>, total: int, m: TraversalModel, cur: int)
    ensures
        right_run(ctx, tokens, total, m, cur).1 <= if cur > total - 1 { cur } else { total - 1 },
    decreases total - cur,
{
    if !(m.active.is_empty() || cur + 1 >= total) {
        let r = spec_lookup(ctx, tokens, cur + 1);
        let mm = ctx.question_max_consecutive_misses as usize;
        lemma_right_run_le(ctx, tokens, total, step(m, (cur + 1) as usize, r, mm, false), cur + 1);
    }
}

/// A document still followed with at most `a` consecutive misses keeps the
/// right traversal going over `max_misses - a` more positions (at least
/// one), or to the last position.
proof fn lemma_right_run_reach(ctx: &ExpansionContext, tokens: Seq<usize>, total: int, m: TraversalModel, cur: int, d: u32, a: int)
    requires
        m.active.contains(d),
        0 <= misses_or_zero(m, d) <= a,
    ensures
        right_run(ctx, tokens, total, m, cur).1 >= if cur + (if ctx.question_max_consecutive_misses - a > 1 {
            ctx.question_max_consecutive_misses - a
        } else {
            1
        }) < total - 1 {
            cur + (if ctx.question_max_consecutive_misses - a > 1 { ctx.question_max_consecutive_misses - a } else { 1 })
        } else {
            total - 1
        },
    decreases total - cur,
{
    let mm = ctx.question_max_consecutive_misses as usize;
    if !(m.active.is_empty() || cur + 1 >= total) {
        let r = spec_lookup(ctx, tokens, cur + 1);
        let m2 = step(m, (cur + 1) as usize, r, mm, false);
        if doc_hit(m, r, d) {
            assert(keeps(m, r, d, mm));
            assert(m2.active.contains(d));
            assert(misses_or_zero(m2, d) <= a) by {
                if m2.misses.contains_key(d) {
                    assert(m2.misses[d] == next_miss(m, r, d)->0);
                    if matched_or_empty(m, d).contains(hit_id(r)) {
                        assert(m.misses.contains_key(d));
                    }
                }
            }
            lemma_right_run_reach(ctx, tokens, total, m2, cur + 1, d, a);
        } else if keeps(m, r, d, mm) {
            assert(m2.active.contains(d));
            assert(m2.misses.contains_key(d));
            assert(m2.misses[d] == misses_or_zero(m, d) + 1);
            lemma_right_run_reach(ctx, tokens, total, m2, cur + 1, d, a + 1);
        } else {
            lemma_right_run_ge(ctx, tokens, total, m2, cur + 1);
        }
    }
}

/// The right traversal of an expansion starts afresh: it is the traversal
/// to the right of the hit from the state the left traversal left, with
/// every initial document followed again and no consecutive misses counted,
/// whatever misses the left traversal had counted.
pub proof fn lemma_right_traversal_starts_fresh(ctx: &ExpansionContext, tokens: Seq<usize>, hit: usize, docs: Set<u32>, h: u64)
    ensures
        ({
            let id0 = spec_initial_ngram_id(ctx, h);
            let total = tokens.len() - ctx.ngram_size + 1;
            let m1 = left_run(ctx, tokens, initial_model(docs, id0, hit), hit as int).0;
            let fresh = TraversalModel {
                active: docs,
                misses: Map::new(|d: u32| docs.contains(d), |d: u32| 0usize),
                ..m1
            };
            let r = right_run(ctx, tokens, total, fresh, hit as int);
            spec_expand(ctx, tokens, hit, docs, h) == ClusterModel {
                matches: r.0.matches,
                bounds: r.0.bounds,
                freqs: r.0.freqs,
                end_idx: r.1 as usize,
            }
        }),
{
    let id0 = spec_initial_ngram_id(ctx, h);
    let m0 = initial_model(docs, id0, hit);
    assert(m0.matches.dom() =~= docs);
    assert(m0.misses.dom() =~= docs);
    assert(m0.bounds.dom() =~= docs);
    assert(cluster_wf(m0, docs, id0));
    lemma_left_run_wf(ctx, tokens, m0, hit as int, docs, id0, hit as int, hit as int);
    let m1 = left_run(ctx, tokens, m0, hit as int).0;
    let fresh = TraversalModel { active: docs, misses: Map::new(|d: u32| docs.contains(d), |d: u32| 0usize), ..m1 };
    assert(restart_model(m1, docs).misses =~= fresh.misses);
    assert(restart_model(m1, docs) == fresh);
}

/// An expansion from a hit shared by some document follows that document to
/// the right over as many positions as the consecutive-miss tolerance
/// allows (at least one), or to the last n-gram position: the right
/// traversal never ends sooner because of misses counted on the left.
pub proof fn lemma_expansion_reaches_right(ctx: &ExpansionContext, tokens: Seq<usize>, hit: usize, docs: Set<u32>, h: u64, d: u32)
    requires
        docs.contains(d),
        tokens.len() <= usize::MAX,
    ensures
        ({
            let total = tokens.len() - ctx.ngram_size + 1;
            let reach = if ctx.question_max_consecutive_misses > 1 { ctx.question_max_consecutive_misses as int } else { 1 };
            spec_expand(ctx, tokens, hit, docs, h).end_idx >= if hit + reach < total - 1 { hit + reach } else { total - 1 }
        }),
{
    lemma_right_traversal_starts_fresh(ctx, tokens, hit, docs, h);
    let id0 = spec_initial_ngram_id(ctx, h);
    let total = tokens.len() - ctx.ngram_size + 1;
    let m1 = left_run(ctx, tokens, initial_model(docs, id0, hit), hit as int).0;
    let fresh = TraversalModel { active: docs, misses: Map::new(|e: u32| docs.contains(e), |e: u32| 0usize), ..m1 };
    lemma_right_run_reach(ctx, tokens, total, fresh, hit as int, d, 0);
    lemma_right_run_ge(ctx, tokens, total, fresh, hit as int);
    lemma_right_run_le(ctx, tokens, total, fresh, hit as int);
}

} // verus!
