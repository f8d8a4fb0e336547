//! Building the n-gram index of the evaluation documents.
//!
//! Every n-gram hash gets a numeric id the first time it is seen; question
//! n-gram ids map to the documents that contain them, answer and passage
//! n-gram ids to their document frequencies.

use std::collections::{HashMap, HashSet};
use vstd::prelude::*;
use crate::ngram::{hash_ngram, spec_hash_ngram};
use crate::sets::{set_elements, sets_view};
use vstd::std_specs::iter::IteratorSpec;
use crate::cluster::{spec_ngram_match, ExpansionContext};
use crate::detection::QuestionIndex;
use crate::reference::{first_n, join_with_spaces, opt_view, split_words, text_snippet, ReferenceEntry};

verus! {

/// The id past which no new question n-gram id is handed out.
pub const NGRAM_ID_OVERFLOW_THRESHOLD: u32 = 4_200_000_000;

/// The set a map holds for an id, or the empty set.
pub open spec fn docs_or_empty(m: Map<u32, HashSet<u32>>, id: u32) -> Set<u32> {
    if m.contains_key(id) {
        m[id]@
    } else {
        Set::empty()
    }
}

/// A counter one higher, wrapping to zero past the largest value.
pub open spec fn bump(c: usize) -> usize {
    if c == usize::MAX {
        0
    } else {
        (c + 1) as usize
    }
}

/// An id one higher, wrapping to zero past the largest value.
pub open spec fn bump_id(c: u32) -> u32 {
    if c == u32::MAX {
        0
    } else {
        (c + 1) as u32
    }
}

/// The count a map holds for a key, or zero.
pub open spec fn count_or_zero<K>(m: Map<K, usize>, k: K) -> usize {
    if m.contains_key(k) {
        m[k]
    } else {
        0
    }
}

/// A map of counts after one more occurrence of each key of `keys`.
pub open spec fn counted<K>(m: Map<K, usize>, keys: Set<K>) -> Map<K, usize> {
    Map::new(
        |k: K| m.contains_key(k) || keys.contains(k),
        |k: K| if keys.contains(k) { bump(count_or_zero(m, k)) } else { m[k] },
    )
}

/// How many n-grams of `n` tokens a question of `len` tokens has: a question
/// shorter than `n` counts as one n-gram, an empty one as none.
pub open spec fn question_window_count(len: nat, n: nat) -> nat {
    if len < n {
        if len == 0 {
            0
        } else {
            1
        }
    } else {
        (len - n + 1) as nat
    }
}

/// How many tokens each n-gram of a question of `len` tokens has.
pub open spec fn question_window_width(len: nat, n: nat) -> nat {
    if len < n {
        len
    } else {
        n
    }
}

/// The hashes of the n-grams of a question, in order.
pub open spec fn question_hashes(tokens: Seq<usize>, n: nat) -> Seq<u64> {
    let w = question_window_width(tokens.len(), n);
    Seq::new(
        question_window_count(tokens.len(), n),
        |k: int| spec_hash_ngram(tokens.subrange(k, k + w)),
    )
}

/// The hashes of all windows of `n` tokens, in order (none when the tokens
/// are fewer than `n`).
pub open spec fn window_hashes(tokens: Seq<usize>, n: nat) -> Seq<u64> {
    Seq::new(
        if tokens.len() >= n { (tokens.len() - n + 1) as nat } else { 0 },
        |k: int| spec_hash_ngram(tokens.subrange(k, k + n)),
    )
}

/// The number of distinct hashes from position `i` of `hs` on that `known`
/// does not hold: the ids that registering them in order hands out.
pub open spec fn fresh_from(known: Set<u64>, hs: Seq<u64>, i: int) -> nat
    decreases hs.len() - i,
{
    if i < 0 || i >= hs.len() {
        0
    } else if known.contains(hs[i]) {
        fresh_from(known, hs, i + 1)
    } else {
        1 + fresh_from(known.insert(hs[i]), hs, i + 1)
    }
}

/// The ids that a map of hashes gives the hashes of `hs`.
pub open spec fn ids_of(ids: Map<u64, u32>, hs: Seq<u64>) -> Set<u32> {
    hs.map_values(|h: u64| ids[h]).to_set()
}

/// The document sets of a map after `doc_id` is added to the sets of `ids`.
pub open spec fn with_doc(m: Map<u32, HashSet<u32>>, ids: Set<u32>, doc_id: u32) -> Map<u32, Set<u32>> {
    Map::new(
        |id: u32| m.contains_key(id) || ids.contains(id),
        |id: u32| if ids.contains(id) { docs_or_empty(m, id).insert(doc_id) } else { m[id]@ },
    )
}

/// The question n-gram id of an n-gram: the one it already has, or a new one
/// taken from `next_id`. Registering a new n-gram past the overflow threshold
/// is left out.
pub fn get_or_create_ngram_id(
    ngram_tokens: &[usize],
    question_ngram_to_id: &mut HashMap<u64, u32>,
    next_id: &mut u32,
) -> (id: u32)
    requires
        old(question_ngram_to_id)@.contains_key(spec_hash_ngram(ngram_tokens@))
            || *old(next_id) < NGRAM_ID_OVERFLOW_THRESHOLD,
    ensures
        ({
            let h = spec_hash_ngram(ngram_tokens@);
            if old(question_ngram_to_id)@.contains_key(h) {
                &&& id == old(question_ngram_to_id)@[h]
                &&& final(question_ngram_to_id)@ == old(question_ngram_to_id)@
                &&& *final(next_id) == *old(next_id)
            } else {
                &&& id == *old(next_id)
                &&& final(question_ngram_to_id)@ == old(question_ngram_to_id)@.insert(h, id)
                &&& *final(next_id) == *old(next_id) + 1
            }
        }),
{
    let ngram_hash = hash_ngram(ngram_tokens);
    match question_ngram_to_id.get(&ngram_hash) {
        Some(id) => *id,
        None => {
            let new_id = *next_id;
            *next_id = new_id + 1;
            question_ngram_to_id.insert(ngram_hash, new_id);
            new_id
        },
    }
}

/// The id of an answer or passage n-gram: the one it already has, or a new
/// one taken from `next_id`, which wraps past the largest id.
fn assign_ngram_id(
    ngram_tokens: &[usize],
    question_ngram_to_id: &mut HashMap<u64, u32>,
    next_id: &mut u32,
) -> (id: u32)
    ensures
        ({
            let h = spec_hash_ngram(ngram_tokens@);
            if old(question_ngram_to_id)@.contains_key(h) {
                &&& id == old(question_ngram_to_id)@[h]
                &&& final(question_ngram_to_id)@ == old(question_ngram_to_id)@
                &&& *final(next_id) == *old(next_id)
            } else {
                &&& id == *old(next_id)
                &&& final(question_ngram_to_id)@ == old(question_ngram_to_id)@.insert(h, id)
                &&& *final(next_id) == bump_id(*old(next_id))
            }
        }),
{
    let ngram_hash = hash_ngram(ngram_tokens);
    match question_ngram_to_id.get(&ngram_hash) {
        Some(id) => *id,
        None => {
            let new_id = *next_id;
            *next_id = new_id.wrapping_add(1);
            question_ngram_to_id.insert(ngram_hash, new_id);
            new_id
        },
    }
}

/// Records that document `doc_id` contains the question n-gram `ngram_id`.
pub fn add_doc_to_ngram(
    ngram_id: u32,
    doc_id: u32,
    question_ngram_id_to_eval_doc_ids: &mut HashMap<u32, HashSet<u32>>,
)
    ensures
        final(question_ngram_id_to_eval_doc_ids)@.dom() == old(
            question_ngram_id_to_eval_doc_ids,
        )@.dom().insert(ngram_id),
        final(question_ngram_id_to_eval_doc_ids)@[ngram_id]@ == docs_or_empty(
            old(question_ngram_id_to_eval_doc_ids)@,
            ngram_id,
        ).insert(doc_id),
        forall|id: u32|
            id != ngram_id && old(question_ngram_id_to_eval_doc_ids)@.contains_key(id) ==> (
            #[trigger] final(question_ngram_id_to_eval_doc_ids)@[id]) == old(
                question_ngram_id_to_eval_doc_ids,
            )@[id],
{
    let mut docs = match question_ngram_id_to_eval_doc_ids.remove(&ngram_id) {
        Some(s) => s,
        None => HashSet::new(),
    };
    docs.insert(doc_id);
    question_ngram_id_to_eval_doc_ids.insert(ngram_id, docs);
}

proof fn lemma_with_doc_step(
    docs_before: Map<u32, HashSet<u32>>,
    prev: Map<u32, HashSet<u32>>,
    now: Map<u32, HashSet<u32>>,
    ids_prev: Set<u32>,
    id: u32,
    doc_id: u32,
)
    requires
        sets_view(prev) == with_doc(docs_before, ids_prev, doc_id),
        now.dom() == prev.dom().insert(id),
        now[id]@ == docs_or_empty(prev, id).insert(doc_id),
        forall|x: u32| x != id && prev.contains_key(x) ==> (#[trigger] now[x]) == prev[x],
    ensures
        sets_view(now) == with_doc(docs_before, ids_prev.insert(id), doc_id),
{
    let ids = ids_prev.insert(id);
    let w_prev = with_doc(docs_before, ids_prev, doc_id);
    let w = with_doc(docs_before, ids, doc_id);
    assert forall|x: u32| #![auto] sets_view(now).dom().contains(x) <==> w.dom().contains(x) by {
        assert(sets_view(prev).contains_key(x) == prev.contains_key(x));
        assert(w_prev.contains_key(x) == (docs_before.contains_key(x) || ids_prev.contains(x)));
        assert(sets_view(now).contains_key(x) == now.contains_key(x));
    }
    assert(sets_view(now).dom() =~= w.dom());
    assert forall|x: u32| #[trigger] sets_view(now).contains_key(x) implies sets_view(now)[x] == w[x] by {
        assert(sets_view(prev).contains_key(x) == prev.contains_key(x));
        assert(w_prev.contains_key(x) == (docs_before.contains_key(x) || ids_prev.contains(x)));
        if prev.contains_key(x) {
            assert(sets_view(prev)[x] == prev[x]@);
        }
        if x == id {
            if prev.contains_key(id) {
                assert(docs_or_empty(prev, id) == prev[id]@);
            }
        } else {
            assert(now[x] == prev[x]);
        }
    }
    assert(sets_view(now) =~= with_doc(docs_before, ids, doc_id));
}

/// Registers every n-gram of a question as contained in document `doc_id`
/// and gives back the ids of its n-grams. N-grams seen before keep their
/// ids; new ones get consecutive ids from `next_id`. A question whose new
/// n-grams would run past the overflow threshold is left out.
fn register_question_ngrams(
    doc_id: u32,
    tokens: &[usize],
    ngram_size: usize,
    question_ngram_to_id: &mut HashMap<u64, u32>,
    next_id: &mut u32,
    question_ngram_id_to_eval_doc_ids: &mut HashMap<u32, HashSet<u32>>,
) -> (ids: HashSet<u32>)
    requires
        tokens@.len() < usize::MAX,
        *old(next_id) + fresh_from(
            old(question_ngram_to_id)@.dom(),
            question_hashes(tokens@, ngram_size as nat),
            0,
        ) <= NGRAM_ID_OVERFLOW_THRESHOLD,
    ensures
        ({
            let hs = question_hashes(tokens@, ngram_size as nat);
            let before = old(question_ngram_to_id)@;
            let after = final(question_ngram_to_id)@;
            &&& after.dom() == before.dom() + hs.to_set()
            &&& forall|h: u64| #[trigger] before.contains_key(h) ==> after[h] == before[h]
            &&& forall|h: u64|
                #[trigger] after.contains_key(h) && !before.contains_key(h) ==> *old(next_id)
                    <= after[h] < *final(next_id)
            &&& *final(next_id) == *old(next_id) + fresh_from(before.dom(), hs, 0)
            &&& ids@ == ids_of(after, hs)
            &&& sets_view(final(question_ngram_id_to_eval_doc_ids)@) == with_doc(
                old(question_ngram_id_to_eval_doc_ids)@,
                ids@,
                doc_id,
            )
        }),
{
    let ghost hs = question_hashes(tokens@, ngram_size as nat);
    let ghost before = question_ngram_to_id@;
    let ghost docs_before = question_ngram_id_to_eval_doc_ids@;
    let ghost next_before = *next_id;
    let len = tokens.len();
    let (count, width) = if len < ngram_size {
        if len == 0 {
            (0, 0)
        } else {
            (1, len)
        }
    } else {
        (len - ngram_size + 1, ngram_size)
    };
    let mut ids: HashSet<u32> = HashSet::new();
    let mut k: usize = 0;
    while k < count
        invariant
            k <= count,
            tokens@.len() < usize::MAX,
            count == hs.len(),
            hs == question_hashes(tokens@, ngram_size as nat),
            width == question_window_width(tokens@.len(), ngram_size as nat),
            count > 0 ==> count - 1 + width <= tokens@.len(),
            question_ngram_to_id@.dom() == before.dom() + hs.take(k as int).to_set(),
            forall|h: u64| #[trigger] before.contains_key(h) ==> question_ngram_to_id@[h] == before[h],
            forall|h: u64|
                #[trigger] question_ngram_to_id@.contains_key(h) && !before.contains_key(h)
                    ==> next_before <= question_ngram_to_id@[h] < *next_id,
            next_before <= *next_id,
            *next_id + fresh_from(question_ngram_to_id@.dom(), hs, k as int) == next_before
                + fresh_from(before.dom(), hs, 0),
            next_before + fresh_from(before.dom(), hs, 0) <= NGRAM_ID_OVERFLOW_THRESHOLD,
            ids@ == ids_of(question_ngram_to_id@, hs.take(k as int)),
            sets_view(question_ngram_id_to_eval_doc_ids@) == with_doc(docs_before, ids@, doc_id),
        decreases count - k,
    {
        assert(k + width <= tokens@.len());
        let window = &tokens[k..k + width];
        assert(window@ == tokens@.subrange(k as int, k + width));
        assert(hs[k as int] == spec_hash_ngram(window@));
        let ghost map_before = question_ngram_to_id@;
        let ghost docs_prev = question_ngram_id_to_eval_doc_ids@;
        let ghost ids_prev = ids@;
        let ghost h = hs[k as int];
        let id = get_or_create_ngram_id(window, question_ngram_to_id, next_id);
        add_doc_to_ngram(id, doc_id, question_ngram_id_to_eval_doc_ids);
        ids.insert(id);
        proof {
            assert(hs.take(k + 1) =~= hs.take(k as int).push(h));
            hs.take(k as int).lemma_push_to_set_commute(h);
            assert forall|j: int| 0 <= j < k implies question_ngram_to_id@[#[trigger] hs[j]]
                == map_before[hs[j]] by {
                assert(hs.take(k as int)[j] == hs[j]);
                assert(hs.take(k as int).to_set().contains(hs[j]));
            }
            assert(hs.take(k + 1).map_values(|x: u64| question_ngram_to_id@[x]) =~= hs.take(
                k as int,
            ).map_values(|x: u64| map_before[x]).push(id));
            hs.take(k as int).map_values(|x: u64| map_before[x]).lemma_push_to_set_commute(id);
            lemma_with_doc_step(
                docs_before,
                docs_prev,
                question_ngram_id_to_eval_doc_ids@,
                ids_prev,
                id,
                doc_id,
            );
        }
        k = k + 1;
    }
    assert(hs.take(count as int) =~= hs);
    ids
}

/// An id counter after `x` increments from zero, wrapping past the largest id.
pub open spec fn wrapped_id(x: int) -> u32 {
    (x % 0x1_0000_0000) as u32
}

proof fn lemma_bump_wrapped(x: int)
    requires
        x >= 0,
    ensures
        bump_id(wrapped_id(x)) == wrapped_id(x + 1),
{
    let m: int = 0x1_0000_0000;
    vstd::arithmetic::div_mod::lemma_add_mod_noop(x, 1, m);
    vstd::arithmetic::div_mod::lemma_small_mod(1, m as nat);
    let r = x % m;
    if r + 1 < m {
        vstd::arithmetic::div_mod::lemma_small_mod((r + 1) as nat, m as nat);
    } else {
        assert(r + 1 == m);
        vstd::arithmetic::div_mod::lemma_mod_self_0(m);
    }
}

/// The ids of all windows of `n` tokens of an answer or passage. N-grams seen
/// before keep their ids; new ones get consecutive ids from `next_id`, which
/// wraps past the largest id.
fn register_window_ngrams(
    tokens: &[usize],
    n: usize,
    question_ngram_to_id: &mut HashMap<u64, u32>,
    next_id: &mut u32,
) -> (ids: HashSet<u32>)
    requires
        tokens@.len() < usize::MAX,
    ensures
        ({
            let hs = window_hashes(tokens@, n as nat);
            let before = old(question_ngram_to_id)@;
            let after = final(question_ngram_to_id)@;
            &&& after.dom() == before.dom() + hs.to_set()
            &&& forall|h: u64| #[trigger] before.contains_key(h) ==> after[h] == before[h]
            &&& *final(next_id) == wrapped_id(*old(next_id) + fresh_from(before.dom(), hs, 0))
            &&& ids@ == ids_of(after, hs)
        }),
{
    let ghost hs = window_hashes(tokens@, n as nat);
    let ghost before = question_ngram_to_id@;
    let ghost next_before = *next_id;
    let len = tokens.len();
    let count = if len >= n {
        len - n + 1
    } else {
        0
    };
    let mut ids: HashSet<u32> = HashSet::new();
    let mut k: usize = 0;
    proof {
        vstd::arithmetic::div_mod::lemma_small_mod(next_before as nat, 0x1_0000_0000);
    }
    while k < count
        invariant
            k <= count,
            tokens@.len() < usize::MAX,
            count == hs.len(),
            hs == window_hashes(tokens@, n as nat),
            count > 0 ==> count - 1 + n <= tokens@.len(),
            question_ngram_to_id@.dom() == before.dom() + hs.take(k as int).to_set(),
            forall|h: u64| #[trigger] before.contains_key(h) ==> question_ngram_to_id@[h] == before[h],
            fresh_from(question_ngram_to_id@.dom(), hs, k as int) <= fresh_from(before.dom(), hs, 0),
            *next_id == wrapped_id(
                next_before + fresh_from(before.dom(), hs, 0) - fresh_from(
                    question_ngram_to_id@.dom(),
                    hs,
                    k as int,
                ),
            ),
            ids@ == ids_of(question_ngram_to_id@, hs.take(k as int)),
        decreases count - k,
    {
        assert(k + n <= tokens@.len());
        let window = &tokens[k..k + n];
        assert(window@ == tokens@.subrange(k as int, k + n));
        assert(hs[k as int] == spec_hash_ngram(window@));
        let ghost map_before = question_ngram_to_id@;
        let ghost h = hs[k as int];
        let ghost x = next_before + fresh_from(before.dom(), hs, 0) - fresh_from(map_before.dom(), hs, k as int);
        let id = assign_ngram_id(window, question_ngram_to_id, next_id);
        ids.insert(id);
        proof {
            if !map_before.contains_key(h) {
                lemma_bump_wrapped(x);
            }
            assert(hs.take(k + 1) =~= hs.take(k as int).push(h));
            hs.take(k as int).lemma_push_to_set_commute(h);
            assert forall|j: int| 0 <= j < k implies question_ngram_to_id@[#[trigger] hs[j]]
                == map_before[hs[j]] by {
                assert(hs.take(k as int)[j] == hs[j]);
                assert(hs.take(k as int).to_set().contains(hs[j]));
            }
            assert(hs.take(k + 1).map_values(|y: u64| question_ngram_to_id@[y]) =~= hs.take(
                k as int,
            ).map_values(|y: u64| map_before[y]).push(id));
            hs.take(k as int).map_values(|y: u64| map_before[y]).lemma_push_to_set_commute(id);
        }
        k = k + 1;
    }
    assert(hs.take(count as int) =~= hs);
    ids
}

/// Counts one more document for each id of `ids`.
fn add_ngram_doc_freq(ngram_doc_freq: &mut HashMap<u32, usize>, ids: &HashSet<u32>)
    ensures
        final(ngram_doc_freq)@ == counted(old(ngram_doc_freq)@, ids@),
{
    let ghost start = ngram_doc_freq@;
    let v = set_elements(ids);
    let mut i: usize = 0;
    while i < v.len()
        invariant
            i <= v@.len(),
            v@.no_duplicates(),
            ngram_doc_freq@ == counted(start, v@.take(i as int).to_set()),
        decreases v@.len() - i,
    {
        let id = v[i];
        proof {
            assert(v@.take(i + 1) =~= v@.take(i as int).push(id));
            v@.take(i as int).lemma_push_to_set_commute(id);
            assert(!v@.take(i as int).to_set().contains(id)) by {
                if v@.take(i as int).to_set().contains(id) {
                    let j = choose|j: int| 0 <= j < i && v@.take(i as int)[j] == id;
                    assert(v@[j] == v@[i as int]);
                }
            }
        }
        let c = match ngram_doc_freq.get(&id) {
            Some(c) => *c,
            None => 0,
        };
        ngram_doc_freq.insert(id, c.wrapping_add(1));
        assert(ngram_doc_freq@ =~= counted(start, v@.take(i + 1).to_set()));
        i = i + 1;
    }
    assert(v@.take(v@.len() as int) =~= v@);
}

/// Counts one more document for each distinct token of `tokens`.
fn add_token_doc_freq(token_eval_doc_freq: &mut HashMap<usize, usize>, tokens: &[usize])
    ensures
        final(token_eval_doc_freq)@ == counted(old(token_eval_doc_freq)@, tokens@.to_set()),
{
    let ghost start = token_eval_doc_freq@;
    let mut seen: HashSet<usize> = HashSet::new();
    let mut i: usize = 0;
    while i < tokens.len()
        invariant
            i <= tokens@.len(),
            seen@ == tokens@.take(i as int).to_set(),
            token_eval_doc_freq@ == counted(start, seen@),
        decreases tokens@.len() - i,
    {
        let t = tokens[i];
        proof {
            assert(tokens@.take(i + 1) =~= tokens@.take(i as int).push(t));
            tokens@.take(i as int).lemma_push_to_set_commute(t);
        }
        if !seen.contains(&t) {
            let c = match token_eval_doc_freq.get(&t) {
                Some(c) => *c,
                None => 0,
            };
            token_eval_doc_freq.insert(t, c.wrapping_add(1));
            seen.insert(t);
            assert(token_eval_doc_freq@ =~= counted(start, seen@));
        }
        i = i + 1;
    }
    assert(tokens@.take(tokens@.len() as int) =~= tokens@);
}

} // verus!

verus! {

/// The counts of one evaluation document gathered while the index is built.
#[derive(Clone, Copy, Debug)]
pub struct EvalDocumentCounts {
    pub unique_ngrams: usize,
    pub token_count: usize,
    pub answer_token_length: usize,
    pub passage_token_length: usize,
}

/// The index of the evaluation documents while it is being built.
pub struct ReferenceIndexBuilder {
    pub question_ngram_to_id: HashMap<u64, u32>,
    pub question_ngram_id_to_eval_doc_ids: HashMap<u32, HashSet<u32>>,
    pub eval_doc_id_to_question_ngram_ids: HashMap<u32, HashSet<u32>>,
    pub eval_doc_id_to_answer_tokens: HashMap<u32, HashSet<usize>>,
    pub eval_doc_id_to_answer_tokens_ordered: HashMap<u32, Vec<usize>>,
    pub eval_doc_id_to_answer_ngram_ids: HashMap<u32, HashSet<u32>>,
    pub answer_ngram_doc_freq: HashMap<u32, usize>,
    pub eval_doc_id_to_passage_tokens: HashMap<u32, HashSet<usize>>,
    pub eval_doc_id_to_passage_ngram_ids: HashMap<u32, HashSet<u32>>,
    pub passage_ngram_doc_freq: HashMap<u32, usize>,
    pub token_eval_doc_freq: HashMap<usize, usize>,
    pub eval_documents: HashMap<u32, EvalDocumentCounts>,
    pub eval_document_metadata: HashMap<u32, EvalDocumentMetadataEntry>,
    pub eval_text_snippets: HashMap<u32, String>,
    pub eval_answer_text_snippets: HashMap<u32, String>,
    pub eval_passage_text_snippets: HashMap<u32, String>,
    pub next_ngram_id: u32,
    pub max_doc_id: u32,
}

/// What a report tells of an evaluation document besides its counts.
pub struct EvalDocumentMetadataEntry {
    pub eval_key: String,
    pub line_num: usize,
    pub total_ngrams: usize,
    pub fingerprint: Option<String>,
    pub is_correct: Option<bool>,
    pub eval_instance_index: usize,
    pub split: Option<String>,
    pub reference_file_idx: usize,
}

/// Builds a hash set holding exactly the tokens of a sequence.
fn token_set(tokens: &[usize]) -> (s: HashSet<usize>)
    ensures
        s@ == tokens@.to_set(),
{
    let mut s: HashSet<usize> = HashSet::new();
    let mut i: usize = 0;
    while i < tokens.len()
        invariant
            i <= tokens@.len(),
            s@ == tokens@.take(i as int).to_set(),
        decreases tokens@.len() - i,
    {
        s.insert(tokens[i]);
        proof {
            assert(tokens@.take(i + 1) =~= tokens@.take(i as int).push(tokens@[i as int]));
            tokens@.take(i as int).lemma_push_to_set_commute(tokens@[i as int]);
        }
        i = i + 1;
    }
    assert(tokens@.take(tokens@.len() as int) =~= tokens@);
    s
}

/// Whether `after_b` is `before_b` with the tokens of a question of
/// document `doc_id` indexed with n-grams of `n` tokens: the n-gram ids
/// (kept where known, new and consecutive otherwise), the documents of each
/// n-gram, the n-grams and counts of the document, and the token document
/// frequencies; the answer and passage fields are unchanged.
pub open spec fn question_indexed(before_b: &ReferenceIndexBuilder, after_b: &ReferenceIndexBuilder, doc_id: u32, tokens: Seq<usize>, n: nat) -> bool {
    &&& {
        let hs = question_hashes(tokens, n);
        let before = before_b.question_ngram_to_id@;
        let after = after_b.question_ngram_to_id@;
        let ids = ids_of(after, hs);
        &&& after.dom() == before.dom() + hs.to_set()
        &&& forall|h: u64| #[trigger] before.contains_key(h) ==> after[h] == before[h]
        &&& forall|h: u64|
            #[trigger] after.contains_key(h) && !before.contains_key(h)
                ==> before_b.next_ngram_id <= after[h] < after_b.next_ngram_id
        &&& after_b.next_ngram_id == before_b.next_ngram_id + fresh_from(before.dom(), hs, 0)
        &&& sets_view(after_b.question_ngram_id_to_eval_doc_ids@) == with_doc(
            before_b.question_ngram_id_to_eval_doc_ids@,
            ids,
            doc_id,
        )
        &&& forall|k: int|
            0 <= k < hs.len() ==> after.contains_key(#[trigger] hs[k])
                && after_b.question_ngram_id_to_eval_doc_ids@.contains_key(after[hs[k]])
                && after_b.question_ngram_id_to_eval_doc_ids@[after[hs[k]]]@.contains(doc_id)
        &&& sets_view(after_b.eval_doc_id_to_question_ngram_ids@) == sets_view(
            before_b.eval_doc_id_to_question_ngram_ids@,
        ).insert(doc_id, ids)
        &&& after_b.eval_documents@ == before_b.eval_documents@.insert(
            doc_id,
            EvalDocumentCounts {
                unique_ngrams: ids.len() as usize,
                token_count: tokens.len() as usize,
                answer_token_length: 0,
                passage_token_length: 0,
            },
        )
    }
    &&& after_b.token_eval_doc_freq@ == counted(before_b.token_eval_doc_freq@, tokens.to_set())
    &&& after_b.same_answers(before_b)
    &&& after_b.same_passages(before_b)
    &&& after_b.max_doc_id == before_b.max_doc_id
}

/// Whether `after` holds the map `before` with `doc_id` set to a set whose
/// view is `value`.
pub open spec fn sets_updated<K>(before: Map<u32, HashSet<K>>, after: Map<u32, HashSet<K>>, doc_id: u32, value: Set<K>) -> bool {
    &&& after.dom() == before.dom().insert(doc_id)
    &&& after[doc_id]@ == value
    &&& forall|d: u32| d != doc_id && before.contains_key(d) ==> #[trigger] after[d] == before[d]
}

/// Whether `after_b`'s n-gram ids and document frequencies are `before_b`'s
/// with the windows of `n` tokens of `tokens` registered and counted, the
/// ids kept as `after_ids` and the frequencies as `after_freq`.
pub open spec fn windows_registered(
    before_b: &ReferenceIndexBuilder,
    after_b: &ReferenceIndexBuilder,
    doc_id: u32,
    tokens: Seq<usize>,
    n: usize,
    ids_before: Map<u32, HashSet<u32>>,
    ids_after: Map<u32, HashSet<u32>>,
    freq_before: Map<u32, usize>,
    freq_after: Map<u32, usize>,
) -> bool {
    let hs = window_hashes(tokens, n as nat);
    let before = before_b.question_ngram_to_id@;
    let after = after_b.question_ngram_to_id@;
    let ids = ids_of(after, hs);
    &&& after.dom() == before.dom() + hs.to_set()
    &&& forall|h: u64| #[trigger] before.contains_key(h) ==> after[h] == before[h]
    &&& after_b.next_ngram_id == wrapped_id(before_b.next_ngram_id + fresh_from(before.dom(), hs, 0))
    &&& sets_view(ids_after) == sets_view(ids_before).insert(doc_id, ids)
    &&& freq_after == counted(freq_before, ids)
}

/// The document counts after setting the answer (or passage) length of a
/// document that the index already counts.
pub open spec fn with_length(m: Map<u32, EvalDocumentCounts>, doc_id: u32, len: usize, answer: bool) -> Map<u32, EvalDocumentCounts> {
    if m.contains_key(doc_id) {
        let c = m[doc_id];
        m.insert(
            doc_id,
            if answer {
                EvalDocumentCounts { answer_token_length: len, ..c }
            } else {
                EvalDocumentCounts { passage_token_length: len, ..c }
            },
        )
    } else {
        m
    }
}

/// Whether `after_b` is `before_b` with the tokens of the answer of
/// document `doc_id` indexed: its length, ordered tokens and token set are
/// kept, an answer longer than the threshold with at least
/// `answer_ngram_size` tokens has its n-grams registered and counted, and
/// each distinct token counts the document once.
pub open spec fn answer_indexed(
    before_b: &ReferenceIndexBuilder,
    after_b: &ReferenceIndexBuilder,
    doc_id: u32,
    tokens: Seq<usize>,
    short_answer_token_threshold: usize,
    answer_ngram_size: usize,
) -> bool {
    &&& after_b.eval_documents@ == with_length(before_b.eval_documents@, doc_id, tokens.len() as usize, true)
    &&& after_b.eval_doc_id_to_answer_tokens_ordered@.dom() == before_b.eval_doc_id_to_answer_tokens_ordered@.dom().insert(doc_id)
    &&& after_b.eval_doc_id_to_answer_tokens_ordered@[doc_id]@ == tokens
    &&& forall|d: u32|
        d != doc_id && before_b.eval_doc_id_to_answer_tokens_ordered@.contains_key(d)
            ==> #[trigger] after_b.eval_doc_id_to_answer_tokens_ordered@[d] == before_b.eval_doc_id_to_answer_tokens_ordered@[d]
    &&& sets_updated(before_b.eval_doc_id_to_answer_tokens@, after_b.eval_doc_id_to_answer_tokens@, doc_id, tokens.to_set())
    &&& after_b.token_eval_doc_freq@ == counted(before_b.token_eval_doc_freq@, tokens.to_set())
    &&& if tokens.len() > short_answer_token_threshold && tokens.len() >= answer_ngram_size {
        windows_registered(
            before_b,
            after_b,
            doc_id,
            tokens,
            answer_ngram_size,
            before_b.eval_doc_id_to_answer_ngram_ids@,
            after_b.eval_doc_id_to_answer_ngram_ids@,
            before_b.answer_ngram_doc_freq@,
            after_b.answer_ngram_doc_freq@,
        )
    } else {
        &&& after_b.question_ngram_to_id == before_b.question_ngram_to_id
        &&& after_b.next_ngram_id == before_b.next_ngram_id
        &&& after_b.eval_doc_id_to_answer_ngram_ids == before_b.eval_doc_id_to_answer_ngram_ids
        &&& after_b.answer_ngram_doc_freq == before_b.answer_ngram_doc_freq
    }
    &&& after_b.same_questions(before_b)
    &&& after_b.same_passages(before_b)
    &&& after_b.max_doc_id == before_b.max_doc_id
}

/// Whether `after_b` is `before_b` with the tokens of the passage of
/// document `doc_id` indexed: its length and token set are kept, a passage
/// of at least `passage_ngram_size` tokens has its n-grams registered and
/// counted, and each distinct token counts the document once.
pub open spec fn passage_indexed(
    before_b: &ReferenceIndexBuilder,
    after_b: &ReferenceIndexBuilder,
    doc_id: u32,
    tokens: Seq<usize>,
    passage_ngram_size: usize,
) -> bool {
    &&& after_b.eval_documents@ == with_length(before_b.eval_documents@, doc_id, tokens.len() as usize, false)
    &&& sets_updated(before_b.eval_doc_id_to_passage_tokens@, after_b.eval_doc_id_to_passage_tokens@, doc_id, tokens.to_set())
    &&& after_b.token_eval_doc_freq@ == counted(before_b.token_eval_doc_freq@, tokens.to_set())
    &&& if tokens.len() >= passage_ngram_size {
        windows_registered(
            before_b,
            after_b,
            doc_id,
            tokens,
            passage_ngram_size,
            before_b.eval_doc_id_to_passage_ngram_ids@,
            after_b.eval_doc_id_to_passage_ngram_ids@,
            before_b.passage_ngram_doc_freq@,
            after_b.passage_ngram_doc_freq@,
        )
    } else {
        &&& after_b.question_ngram_to_id == before_b.question_ngram_to_id
        &&& after_b.next_ngram_id == before_b.next_ngram_id
        &&& after_b.eval_doc_id_to_passage_ngram_ids == before_b.eval_doc_id_to_passage_ngram_ids
        &&& after_b.passage_ngram_doc_freq == before_b.passage_ngram_doc_freq
    }
    &&& after_b.same_questions(before_b)
    &&& after_b.same_answers(before_b)
    &&& after_b.max_doc_id == before_b.max_doc_id
}

/// The snippet kept of a cleaned text: its first thousand words.
pub open spec fn snippet_of(cleaned: Seq<char>) -> Seq<char> {
    join_with_spaces(first_n(split_words(cleaned), 1000))
}

/// Whether `after` holds the snippets `before` with the snippet of
/// `cleaned` set for `doc_id`.
pub open spec fn snippet_stored(before: Map<u32, String>, after: Map<u32, String>, doc_id: u32, cleaned: Seq<char>) -> bool {
    &&& after.dom() == before.dom().insert(doc_id)
    &&& after[doc_id]@ == snippet_of(cleaned)
    &&& forall|d: u32| d != doc_id && before.contains_key(d) ==> #[trigger] after[d] == before[d]
}

fn store_snippet(snippets: &mut HashMap<u32, String>, doc_id: u32, cleaned: &str)
    ensures
        snippet_stored(old(snippets)@, final(snippets)@, doc_id, cleaned@),
{
    let snippet = text_snippet(cleaned, 1000);
    snippets.insert(doc_id, snippet);
}

/// Whether `after` holds the metadata `before` with the record of an entry
/// set for its document.
pub open spec fn metadata_stored(
    before: Map<u32, EvalDocumentMetadataEntry>,
    after: Map<u32, EvalDocumentMetadataEntry>,
    entry: &ReferenceEntry,
    line_num: usize,
    file_idx: usize,
    total_ngrams: usize,
) -> bool {
    let m = after[entry.doc_id];
    &&& after.dom() == before.dom().insert(entry.doc_id)
    &&& forall|d: u32| d != entry.doc_id && before.contains_key(d) ==> #[trigger] after[d] == before[d]
    &&& m.eval_key@ == entry.eval_key@
    &&& m.line_num == line_num
    &&& m.total_ngrams == total_ngrams
    &&& opt_view(m.fingerprint) == opt_view(entry.fingerprint)
    &&& m.is_correct == entry.is_correct
    &&& m.eval_instance_index == entry.eval_instance_index
    &&& opt_view(m.split) == opt_view(entry.split)
    &&& m.reference_file_idx == file_idx
}

fn copy_text(s: &Option<String>) -> (c: Option<String>)
    ensures
        opt_view(c) == opt_view(*s),
{
    match s {
        Some(t) => Some(t.clone()),
        None => None,
    }
}

impl ReferenceIndexBuilder {
    /// Whether nothing has been indexed yet.
    pub open spec fn is_empty(&self) -> bool {
        &&& self.question_ngram_to_id@ == Map::<u64, u32>::empty()
        &&& self.question_ngram_id_to_eval_doc_ids@ == Map::<u32, HashSet<u32>>::empty()
        &&& self.eval_doc_id_to_question_ngram_ids@ == Map::<u32, HashSet<u32>>::empty()
        &&& self.eval_doc_id_to_answer_tokens@ == Map::<u32, HashSet<usize>>::empty()
        &&& self.eval_doc_id_to_answer_tokens_ordered@ == Map::<u32, Vec<usize>>::empty()
        &&& self.eval_doc_id_to_answer_ngram_ids@ == Map::<u32, HashSet<u32>>::empty()
        &&& self.answer_ngram_doc_freq@ == Map::<u32, usize>::empty()
        &&& self.eval_doc_id_to_passage_tokens@ == Map::<u32, HashSet<usize>>::empty()
        &&& self.eval_doc_id_to_passage_ngram_ids@ == Map::<u32, HashSet<u32>>::empty()
        &&& self.passage_ngram_doc_freq@ == Map::<u32, usize>::empty()
        &&& self.token_eval_doc_freq@ == Map::<usize, usize>::empty()
        &&& self.eval_documents@ == Map::<u32, EvalDocumentCounts>::empty()
        &&& self.eval_document_metadata@ == Map::<u32, EvalDocumentMetadataEntry>::empty()
        &&& self.eval_text_snippets@ == Map::<u32, String>::empty()
        &&& self.eval_answer_text_snippets@ == Map::<u32, String>::empty()
        &&& self.eval_passage_text_snippets@ == Map::<u32, String>::empty()
        &&& self.next_ngram_id == 0
        &&& self.max_doc_id == 0
    }

    /// Whether the answer fields of two builders agree.
    pub open spec fn same_answers(&self, other: &Self) -> bool {
        &&& self.eval_doc_id_to_answer_tokens == other.eval_doc_id_to_answer_tokens
        &&& self.eval_doc_id_to_answer_tokens_ordered == other.eval_doc_id_to_answer_tokens_ordered
        &&& self.eval_doc_id_to_answer_ngram_ids == other.eval_doc_id_to_answer_ngram_ids
        &&& self.answer_ngram_doc_freq == other.answer_ngram_doc_freq
    }

    /// Whether the passage fields of two builders agree.
    pub open spec fn same_passages(&self, other: &Self) -> bool {
        &&& self.eval_doc_id_to_passage_tokens == other.eval_doc_id_to_passage_tokens
        &&& self.eval_doc_id_to_passage_ngram_ids == other.eval_doc_id_to_passage_ngram_ids
        &&& self.passage_ngram_doc_freq == other.passage_ngram_doc_freq
    }

    /// Whether the metadata and snippets of two builders agree.
    pub open spec fn same_records(&self, other: &Self) -> bool {
        &&& self.eval_document_metadata == other.eval_document_metadata
        &&& self.eval_text_snippets == other.eval_text_snippets
        &&& self.eval_answer_text_snippets == other.eval_answer_text_snippets
        &&& self.eval_passage_text_snippets == other.eval_passage_text_snippets
    }

    /// Whether the question fields of two builders agree.
    pub open spec fn same_questions(&self, other: &Self) -> bool {
        &&& self.question_ngram_id_to_eval_doc_ids == other.question_ngram_id_to_eval_doc_ids
        &&& self.eval_doc_id_to_question_ngram_ids == other.eval_doc_id_to_question_ngram_ids
    }

    /// An empty index.
    pub fn new() -> (b: Self)
        ensures
            b.is_empty(),
    {
        ReferenceIndexBuilder {
            question_ngram_to_id: HashMap::new(),
            question_ngram_id_to_eval_doc_ids: HashMap::new(),
            eval_doc_id_to_question_ngram_ids: HashMap::new(),
            eval_doc_id_to_answer_tokens: HashMap::new(),
            eval_doc_id_to_answer_tokens_ordered: HashMap::new(),
            eval_doc_id_to_answer_ngram_ids: HashMap::new(),
            answer_ngram_doc_freq: HashMap::new(),
            eval_doc_id_to_passage_tokens: HashMap::new(),
            eval_doc_id_to_passage_ngram_ids: HashMap::new(),
            passage_ngram_doc_freq: HashMap::new(),
            token_eval_doc_freq: HashMap::new(),
            eval_documents: HashMap::new(),
            eval_document_metadata: HashMap::new(),
            eval_text_snippets: HashMap::new(),
            eval_answer_text_snippets: HashMap::new(),
            eval_passage_text_snippets: HashMap::new(),
            next_ngram_id: 0,
            max_doc_id: 0,
        }
    }

    /// Notes a document id, keeping the largest one seen.
    pub fn track_doc_id(&mut self, doc_id: u32)
        ensures
            final(self).max_doc_id == if doc_id > old(self).max_doc_id {
                doc_id
            } else {
                old(self).max_doc_id
            },
            final(self).question_ngram_to_id == old(self).question_ngram_to_id,
            final(self).same_questions(old(self)),
            final(self).same_answers(old(self)),
            final(self).same_passages(old(self)),
            final(self).token_eval_doc_freq == old(self).token_eval_doc_freq,
            final(self).eval_documents == old(self).eval_documents,
            final(self).next_ngram_id == old(self).next_ngram_id,
            final(self).same_records(old(self)),
    {
        if doc_id > self.max_doc_id {
            self.max_doc_id = doc_id;
        }
    }

    /// How many question n-grams of these tokens the index does not know yet:
    /// the number of new ids that indexing them as a question would take.
    pub fn count_new_question_ngrams(&self, word_tokens: &[usize], ngram_size: usize) -> (c: usize)
        requires
            word_tokens@.len() < usize::MAX,
        ensures
            c == fresh_from(
                self.question_ngram_to_id@.dom(),
                question_hashes(word_tokens@, ngram_size as nat),
                0,
            ),
    {
        let ghost hs = question_hashes(word_tokens@, ngram_size as nat);
        let ghost known = self.question_ngram_to_id@.dom();
        let len = word_tokens.len();
        let (count, width) = if len < ngram_size {
            if len == 0 {
                (0, 0)
            } else {
                (1, len)
            }
        } else {
            (len - ngram_size + 1, ngram_size)
        };
        let mut seen: HashSet<u64> = HashSet::new();
        assert(known + seen@ =~= known);
        let mut c: usize = 0;
        let mut k: usize = 0;
        while k < count
            invariant
                k <= count,
                word_tokens@.len() < usize::MAX,
                count == hs.len(),
                hs == question_hashes(word_tokens@, ngram_size as nat),
                known == self.question_ngram_to_id@.dom(),
                width == question_window_width(word_tokens@.len(), ngram_size as nat),
                count > 0 ==> count - 1 + width <= word_tokens@.len(),
                c <= k,
                c + fresh_from(known + seen@, hs, k as int) == fresh_from(known, hs, 0),
            decreases count - k,
        {
            assert(k + width <= word_tokens@.len());
            let window = &word_tokens[k..k + width];
            assert(window@ == word_tokens@.subrange(k as int, k + width));
            let h = hash_ngram(window);
            assert(h == hs[k as int]);
            if !self.question_ngram_to_id.contains_key(&h) && !seen.contains(&h) {
                let ghost seen_before = seen@;
                seen.insert(h);
                assert(known + seen@ =~= (known + seen_before).insert(h));
                c = c + 1;
            }
            k = k + 1;
        }
        c
    }

    /// Indexes the tokens of a question of document `doc_id`: every n-gram
    /// (the whole question when it is shorter than `ngram_size`) is recorded
    /// as contained in the document, the document keeps the set of its n-gram
    /// ids, its counts are stored, and each distinct token counts the
    /// document once. Gives back the number of n-grams of the question. A
    /// question whose new n-grams would run past the overflow threshold is
    /// left out.
    pub fn process_question_tokens(&mut self, doc_id: u32, word_tokens: &[usize], ngram_size: usize) -> (total_ngrams: usize)
        requires
            word_tokens@.len() < usize::MAX,
            old(self).next_ngram_id + fresh_from(
                old(self).question_ngram_to_id@.dom(),
                question_hashes(word_tokens@, ngram_size as nat),
                0,
            ) <= NGRAM_ID_OVERFLOW_THRESHOLD,
        ensures
            total_ngrams == question_window_count(word_tokens@.len(), ngram_size as nat),
            question_indexed(old(self), final(self), doc_id, word_tokens@, ngram_size as nat),
            final(self).same_records(old(self)),
    {
        add_token_doc_freq(&mut self.token_eval_doc_freq, word_tokens);
        let ids = register_question_ngrams(
            doc_id,
            word_tokens,
            ngram_size,
            &mut self.question_ngram_to_id,
            &mut self.next_ngram_id,
            &mut self.question_ngram_id_to_eval_doc_ids,
        );
        proof {
            let hs = question_hashes(word_tokens@, ngram_size as nat);
            let after = self.question_ngram_to_id@;
            let docs = self.question_ngram_id_to_eval_doc_ids@;
            assert forall|k: int| 0 <= k < hs.len() implies after.contains_key(#[trigger] hs[k])
                && docs.contains_key(after[hs[k]]) && docs[after[hs[k]]]@.contains(doc_id) by {
                assert(hs.to_set().contains(hs[k]));
                assert(hs.map_values(|h: u64| after[h])[k] == after[hs[k]]);
                assert(ids@.contains(after[hs[k]]));
                assert(sets_view(docs).contains_key(after[hs[k]]));
                assert(sets_view(docs)[after[hs[k]]] == docs[after[hs[k]]]@);
            }
        }
        let unique_ngrams = ids.len();
        let ghost old_q = self.eval_doc_id_to_question_ngram_ids@;
        self.eval_doc_id_to_question_ngram_ids.insert(doc_id, ids);
        proof {
            assert(sets_view(self.eval_doc_id_to_question_ngram_ids@) =~= sets_view(old_q).insert(
                doc_id,
                self.eval_doc_id_to_question_ngram_ids@[doc_id]@,
            ));
        }
        let counts = EvalDocumentCounts {
            unique_ngrams,
            token_count: word_tokens.len(),
            answer_token_length: 0,
            passage_token_length: 0,
        };
        self.eval_documents.insert(doc_id, counts);
        let len = word_tokens.len();
        if len < ngram_size {
            if len == 0 {
                0
            } else {
                1
            }
        } else {
            len - ngram_size + 1
        }
    }

    /// Sets the answer or passage length of a document that the index
    /// already counts; a document it does not count is left alone.
    fn set_document_length(&mut self, doc_id: u32, len: usize, answer: bool)
        ensures
            final(self).eval_documents@ == with_length(old(self).eval_documents@, doc_id, len, answer),
            final(self).question_ngram_to_id == old(self).question_ngram_to_id,
            final(self).same_questions(old(self)),
            final(self).same_answers(old(self)),
            final(self).same_passages(old(self)),
            final(self).token_eval_doc_freq == old(self).token_eval_doc_freq,
            final(self).next_ngram_id == old(self).next_ngram_id,
            final(self).max_doc_id == old(self).max_doc_id,
            final(self).same_records(old(self)),
    {
        if let Some(c) = self.eval_documents.get(&doc_id) {
            let mut counts = *c;
            if answer {
                counts.answer_token_length = len;
            } else {
                counts.passage_token_length = len;
            }
            self.eval_documents.insert(doc_id, counts);
        }
    }

    /// Indexes the question of an entry: keeps the snippet of its cleaned
    /// text; when it was tokenized, indexes its tokens (see
    /// `process_question_tokens`) and keeps the entry's metadata. Tells
    /// whether the question was indexed.
    pub fn process_question_field(
        &mut self,
        entry: &ReferenceEntry,
        line_num: usize,
        file_idx: usize,
        cleaned: &str,
        word_tokens: Option<&[usize]>,
        ngram_size: usize,
    ) -> (indexed: bool)
        requires
            word_tokens matches Some(t) ==> t@.len() < usize::MAX && old(self).next_ngram_id
                + fresh_from(
                old(self).question_ngram_to_id@.dom(),
                question_hashes(t@, ngram_size as nat),
                0,
            ) <= NGRAM_ID_OVERFLOW_THRESHOLD,
        ensures
            indexed == word_tokens is Some,
            snippet_stored(old(self).eval_text_snippets@, final(self).eval_text_snippets@, entry.doc_id, cleaned@),
            final(self).eval_answer_text_snippets == old(self).eval_answer_text_snippets,
            final(self).eval_passage_text_snippets == old(self).eval_passage_text_snippets,
            match word_tokens {
                Some(t) => {
                    &&& question_indexed(old(self), final(self), entry.doc_id, t@, ngram_size as nat)
                    &&& metadata_stored(
                        old(self).eval_document_metadata@,
                        final(self).eval_document_metadata@,
                        entry,
                        line_num,
                        file_idx,
                        question_window_count(t@.len(), ngram_size as nat) as usize,
                    )
                },
                None => {
                    &&& final(self).question_ngram_to_id == old(self).question_ngram_to_id
                    &&& final(self).next_ngram_id == old(self).next_ngram_id
                    &&& final(self).same_questions(old(self))
                    &&& final(self).same_answers(old(self))
                    &&& final(self).same_passages(old(self))
                    &&& final(self).token_eval_doc_freq == old(self).token_eval_doc_freq
                    &&& final(self).eval_documents == old(self).eval_documents
                    &&& final(self).eval_document_metadata == old(self).eval_document_metadata
                    &&& final(self).max_doc_id == old(self).max_doc_id
                },
            },
    {
        store_snippet(&mut self.eval_text_snippets, entry.doc_id, cleaned);
        match word_tokens {
            None => false,
            Some(tokens) => {
                let total_ngrams = self.process_question_tokens(entry.doc_id, tokens, ngram_size);
                let metadata = EvalDocumentMetadataEntry {
                    eval_key: entry.eval_key.clone(),
                    line_num,
                    total_ngrams,
                    fingerprint: copy_text(&entry.fingerprint),
                    is_correct: entry.is_correct,
                    eval_instance_index: entry.eval_instance_index,
                    split: copy_text(&entry.split),
                    reference_file_idx: file_idx,
                };
                self.eval_document_metadata.insert(entry.doc_id, metadata);
                true
            },
        }
    }

    /// Indexes the answer of document `doc_id`: keeps the snippet of its
    /// cleaned text and, when it was tokenized, indexes its tokens (see
    /// `process_answer_tokens`).
    pub fn process_answer_field(
        &mut self,
        doc_id: u32,
        cleaned: &str,
        word_tokens: Option<&[usize]>,
        short_answer_token_threshold: usize,
        answer_ngram_size: usize,
    )
        requires
            word_tokens matches Some(t) ==> t@.len() < usize::MAX,
        ensures
            snippet_stored(old(self).eval_answer_text_snippets@, final(self).eval_answer_text_snippets@, doc_id, cleaned@),
            final(self).eval_text_snippets == old(self).eval_text_snippets,
            final(self).eval_passage_text_snippets == old(self).eval_passage_text_snippets,
            final(self).eval_document_metadata == old(self).eval_document_metadata,
            match word_tokens {
                Some(t) => answer_indexed(old(self), final(self), doc_id, t@, short_answer_token_threshold, answer_ngram_size),
                None => {
                    &&& final(self).question_ngram_to_id == old(self).question_ngram_to_id
                    &&& final(self).next_ngram_id == old(self).next_ngram_id
                    &&& final(self).same_questions(old(self))
                    &&& final(self).same_answers(old(self))
                    &&& final(self).same_passages(old(self))
                    &&& final(self).token_eval_doc_freq == old(self).token_eval_doc_freq
                    &&& final(self).eval_documents == old(self).eval_documents
                    &&& final(self).max_doc_id == old(self).max_doc_id
                },
            },
    {
        store_snippet(&mut self.eval_answer_text_snippets, doc_id, cleaned);
        if let Some(tokens) = word_tokens {
            self.process_answer_tokens(doc_id, tokens, short_answer_token_threshold, answer_ngram_size);
        }
    }

    /// Indexes the passage of document `doc_id`: keeps the snippet of its
    /// cleaned text and, when it was tokenized, indexes its tokens (see
    /// `process_passage_tokens`).
    pub fn process_passage_field(&mut self, doc_id: u32, cleaned: &str, word_tokens: Option<&[usize]>, passage_ngram_size: usize)
        requires
            word_tokens matches Some(t) ==> t@.len() < usize::MAX,
        ensures
            snippet_stored(old(self).eval_passage_text_snippets@, final(self).eval_passage_text_snippets@, doc_id, cleaned@),
            final(self).eval_text_snippets == old(self).eval_text_snippets,
            final(self).eval_answer_text_snippets == old(self).eval_answer_text_snippets,
            final(self).eval_document_metadata == old(self).eval_document_metadata,
            match word_tokens {
                Some(t) => passage_indexed(old(self), final(self), doc_id, t@, passage_ngram_size),
                None => {
                    &&& final(self).question_ngram_to_id == old(self).question_ngram_to_id
                    &&& final(self).next_ngram_id == old(self).next_ngram_id
                    &&& final(self).same_questions(old(self))
                    &&& final(self).same_answers(old(self))
                    &&& final(self).same_passages(old(self))
                    &&& final(self).token_eval_doc_freq == old(self).token_eval_doc_freq
                    &&& final(self).eval_documents == old(self).eval_documents
                    &&& final(self).max_doc_id == old(self).max_doc_id
                },
            },
    {
        store_snippet(&mut self.eval_passage_text_snippets, doc_id, cleaned);
        if let Some(tokens) = word_tokens {
            self.process_passage_tokens(doc_id, tokens, passage_ngram_size);
        }
    }

    /// Indexes the tokens of the answer of document `doc_id`: the document
    /// keeps its answer length, the ordered tokens and their set; an answer
    /// longer than `short_answer_token_threshold` with at least
    /// `answer_ngram_size` tokens also keeps the ids of its n-grams, each of
    /// which counts the document once; each distinct token counts the
    /// document once.
    pub fn process_answer_tokens(
        &mut self,
        doc_id: u32,
        word_tokens: &[usize],
        short_answer_token_threshold: usize,
        answer_ngram_size: usize,
    )
        requires
            word_tokens@.len() < usize::MAX,
        ensures
            answer_indexed(old(self), final(self), doc_id, word_tokens@, short_answer_token_threshold, answer_ngram_size),
            final(self).same_records(old(self)),
    {
        let token_length = word_tokens.len();
        self.set_document_length(doc_id, token_length, true);
        self.eval_doc_id_to_answer_tokens_ordered.insert(doc_id, vstd::slice::slice_to_vec(word_tokens));
        if token_length > short_answer_token_threshold && token_length >= answer_ngram_size {
            let ids = register_window_ngrams(
                word_tokens,
                answer_ngram_size,
                &mut self.question_ngram_to_id,
                &mut self.next_ngram_id,
            );
            add_ngram_doc_freq(&mut self.answer_ngram_doc_freq, &ids);
            let ghost old_ids = self.eval_doc_id_to_answer_ngram_ids@;
            self.eval_doc_id_to_answer_ngram_ids.insert(doc_id, ids);
            proof {
                assert(sets_view(self.eval_doc_id_to_answer_ngram_ids@) =~= sets_view(
                    old_ids,
                ).insert(doc_id, self.eval_doc_id_to_answer_ngram_ids@[doc_id]@));
            }
        }
        add_token_doc_freq(&mut self.token_eval_doc_freq, word_tokens);
        let tokens = token_set(word_tokens);
        self.eval_doc_id_to_answer_tokens.insert(doc_id, tokens);
    }

    /// Indexes the tokens of the passage of document `doc_id`: the document
    /// keeps its passage length and token set; a passage of at least
    /// `passage_ngram_size` tokens also keeps the ids of its n-grams, each of
    /// which counts the document once; each distinct token counts the
    /// document once.
    pub fn process_passage_tokens(&mut self, doc_id: u32, word_tokens: &[usize], passage_ngram_size: usize)
        requires
            word_tokens@.len() < usize::MAX,
        ensures
            passage_indexed(old(self), final(self), doc_id, word_tokens@, passage_ngram_size),
            final(self).same_records(old(self)),
    {
        let token_length = word_tokens.len();
        self.set_document_length(doc_id, token_length, false);
        if token_length >= passage_ngram_size {
            let ids = register_window_ngrams(
                word_tokens,
                passage_ngram_size,
                &mut self.question_ngram_to_id,
                &mut self.next_ngram_id,
            );
            add_ngram_doc_freq(&mut self.passage_ngram_doc_freq, &ids);
            let ghost old_ids = self.eval_doc_id_to_passage_ngram_ids@;
            self.eval_doc_id_to_passage_ngram_ids.insert(doc_id, ids);
            proof {
                assert(sets_view(self.eval_doc_id_to_passage_ngram_ids@) =~= sets_view(
                    old_ids,
                ).insert(doc_id, self.eval_doc_id_to_passage_ngram_ids@[doc_id]@));
            }
        }
        add_token_doc_freq(&mut self.token_eval_doc_freq, word_tokens);
        let tokens = token_set(word_tokens);
        self.eval_doc_id_to_passage_tokens.insert(doc_id, tokens);
    }
}

} // verus!

verus! {

/// Whether `after` and `hot` are what replacing the hot buckets of `before`
/// gives: every n-gram with more than `threshold` documents keeps only the
/// sentinel `hot_bucket_id`, and `hot` keeps its real documents.
pub open spec fn hot_buckets_replaced(
    before: Map<u32, HashSet<u32>>,
    after: Map<u32, HashSet<u32>>,
    hot: Map<u32, HashSet<u32>>,
    hot_bucket_id: u32,
    threshold: usize,
) -> bool {
    &&& after.dom() == before.dom()
    &&& hot.dom() == before.dom().filter(|id: u32| before[id]@.len() > threshold)
    &&& forall|id: u32| #[trigger]
        before.contains_key(id) ==> if before[id]@.len() > threshold {
            after[id]@ == set![hot_bucket_id] && hot[id]@ == before[id]@
        } else {
            after[id] == before[id]
        }
}

/// Lists the keys of a map, each once.
fn map_keys(m: &HashMap<u32, HashSet<u32>>) -> (v: Vec<u32>)
    ensures
        v@.to_set() == m@.dom(),
        v@.no_duplicates(),
{
    let mut v: Vec<u32> = Vec::new();
    let ghost keys = m.keys().remaining().unref();
    proof {
        broadcast use vstd::std_specs::hash::axiom_spec_keys_iter;
        assert(keys.to_set() == m@.dom());
    }
    for x in it: m.keys()
        invariant
            it.seq().unref() == keys,
            v@ == keys.take(it.index()),
            keys.no_duplicates(),
            keys.to_set() == m@.dom(),
    {
        v.push(*x);
        proof {
            assert(v@ =~= keys.take(it.index() + 1));
        }
    }
    proof {
        assert(v@ =~= keys);
    }
    v
}

/// Replaces the document set of every n-gram with more than
/// `hot_bucket_threshold` documents by the sentinel `hot_bucket_id` alone,
/// and gives back the real sets of those n-grams and how many there were.
pub fn replace_hot_buckets(
    question_ngram_id_to_eval_doc_ids: &mut HashMap<u32, HashSet<u32>>,
    hot_bucket_id: u32,
    hot_bucket_threshold: usize,
) -> (res: (HashMap<u32, HashSet<u32>>, usize))
    ensures
        hot_buckets_replaced(
            old(question_ngram_id_to_eval_doc_ids)@,
            final(question_ngram_id_to_eval_doc_ids)@,
            res.0@,
            hot_bucket_id,
            hot_bucket_threshold,
        ),
        res.1 == res.0@.len(),
{
    let ghost before = question_ngram_id_to_eval_doc_ids@;
    let keys = map_keys(question_ngram_id_to_eval_doc_ids);
    let mut hot: HashMap<u32, HashSet<u32>> = HashMap::new();
    let mut replaced: usize = 0;
    let mut i: usize = 0;
    while i < keys.len()
        invariant
            i <= keys@.len(),
            keys@.to_set() == before.dom(),
            keys@.no_duplicates(),
            replaced <= i,
            replaced == hot@.len(),
            question_ngram_id_to_eval_doc_ids@.dom() == before.dom(),
            hot@.dom() == keys@.take(i as int).to_set().filter(|id: u32| before[id]@.len() > hot_bucket_threshold),
            forall|id: u32| #[trigger]
                before.contains_key(id) ==> if keys@.take(i as int).to_set().contains(id) && before[id]@.len() > hot_bucket_threshold {
                    question_ngram_id_to_eval_doc_ids@[id]@ == set![hot_bucket_id] && hot@[id]@ == before[id]@
                } else {
                    question_ngram_id_to_eval_doc_ids@[id] == before[id]
                },
        decreases keys@.len() - i,
    {
        let k = keys[i];
        proof {
            assert(keys@.take(i + 1) =~= keys@.take(i as int).push(k));
            keys@.take(i as int).lemma_push_to_set_commute(k);
            assert(keys@.to_set().contains(keys@[i as int]));
            assert(!keys@.take(i as int).to_set().contains(k)) by {
                if keys@.take(i as int).to_set().contains(k) {
                    let j = choose|j: int| 0 <= j < i && keys@.take(i as int)[j] == k;
                    assert(keys@[j] == keys@[i as int]);
                }
            }
        }
        let big = match question_ngram_id_to_eval_doc_ids.get(&k) {
            Some(s) => s.len() > hot_bucket_threshold,
            None => false,
        };
        if big {
            let ghost hot_before = hot@;
            if let Some(docs) = question_ngram_id_to_eval_doc_ids.remove(&k) {
                hot.insert(k, docs);
            }
            let mut sentinel: HashSet<u32> = HashSet::new();
            sentinel.insert(hot_bucket_id);
            question_ngram_id_to_eval_doc_ids.insert(k, sentinel);
            proof {
                assert(!hot_before.contains_key(k));
                assert(hot@.dom() =~= hot_before.dom().insert(k));
                assert(set![hot_bucket_id] =~= Set::<u32>::empty().insert(hot_bucket_id));
            }
            replaced = replaced + 1;
        }
        proof {
            assert(hot@.dom() =~= keys@.take(i + 1).to_set().filter(|id: u32| before[id]@.len() > hot_bucket_threshold));
        }
        i = i + 1;
    }
    proof {
        assert(keys@.take(keys@.len() as int) =~= keys@);
        assert(hot@.dom() =~= before.dom().filter(|id: u32| before[id]@.len() > hot_bucket_threshold));
    }
    (hot, replaced)
}

} // verus!

verus! {

/// Finishes the question index: the hot bucket sentinel is one past the
/// largest document id, and every n-gram with more than
/// `hot_bucket_threshold` documents keeps only the sentinel while the index
/// keeps its real documents aside. Gives back the index and how many n-grams
/// were replaced.
pub fn build_question_index(
    question_ngram_to_id: HashMap<u64, u32>,
    question_ngram_id_to_eval_doc_ids: HashMap<u32, HashSet<u32>>,
    max_doc_id: u32,
    hot_bucket_threshold: usize,
) -> (res: (QuestionIndex, usize))
    requires
        max_doc_id < u32::MAX,
    ensures
        res.0.hot_bucket_id == max_doc_id + 1,
        res.0.question_ngram_to_id@ == question_ngram_to_id@,
        hot_buckets_replaced(
            question_ngram_id_to_eval_doc_ids@,
            res.0.question_ngram_id_to_eval_doc_ids@,
            res.0.question_ngram_id_to_hot_bucket_doc_ids@,
            res.0.hot_bucket_id,
            hot_bucket_threshold,
        ),
        res.1 == res.0.question_ngram_id_to_hot_bucket_doc_ids@.len(),
{
    let hot_bucket_id = max_doc_id + 1;
    let mut docs = question_ngram_id_to_eval_doc_ids;
    let (hot, replaced) = replace_hot_buckets(&mut docs, hot_bucket_id, hot_bucket_threshold);
    let index = QuestionIndex {
        question_ngram_to_id,
        question_ngram_id_to_eval_doc_ids: docs,
        hot_bucket_id,
        question_ngram_id_to_hot_bucket_doc_ids: hot,
    };
    (index, replaced)
}

/// Replacing hot buckets does not change what a lookup answers: for an
/// n-gram whose documents are not empty and do not include the sentinel, the
/// lookup over the finished index gives its id and all its documents.
pub proof fn lemma_lookup_after_hot_buckets(
    ctx: &ExpansionContext,
    docs_before: Map<u32, HashSet<u32>>,
    hot_bucket_threshold: usize,
    ngram_hash: u64,
)
    requires
        hot_buckets_replaced(
            docs_before,
            ctx.question_ngram_id_to_eval_doc_ids@,
            ctx.question_ngram_id_to_hot_bucket_doc_ids@,
            ctx.hot_bucket_id,
            hot_bucket_threshold,
        ),
        ctx.question_ngram_to_id@.contains_key(ngram_hash),
        docs_before.contains_key(ctx.question_ngram_to_id@[ngram_hash]),
        !docs_before[ctx.question_ngram_to_id@[ngram_hash]]@.is_empty(),
        !docs_before[ctx.question_ngram_to_id@[ngram_hash]]@.contains(ctx.hot_bucket_id),
    ensures
        spec_ngram_match(ctx, ngram_hash) == Some(
            (
                ctx.question_ngram_to_id@[ngram_hash],
                docs_before[ctx.question_ngram_to_id@[ngram_hash]]@,
            ),
        ),
{
    let id = ctx.question_ngram_to_id@[ngram_hash];
    let docs = ctx.question_ngram_id_to_eval_doc_ids@;
    assert(docs_before.contains_key(id));
    if docs_before[id]@.len() > hot_bucket_threshold {
        let single = set![ctx.hot_bucket_id];
        assert(single =~= Set::<u32>::empty().insert(ctx.hot_bucket_id));
        assert(single.len() == 1);
        assert(single.contains(ctx.hot_bucket_id));
        assert(ctx.question_ngram_id_to_hot_bucket_doc_ids@.dom().contains(id));
    } else {
        assert(docs[id] == docs_before[id]);
    }
}

} // verus!
