//! Summaries of contamination reports: how many training documents and
//! evaluation instances they name, grouped by suite or dataset, and how the
//! prompt n-gram match counts are spread.

use vstd::prelude::*;
use crate::display::{decimal, decimal_digits, digit_char};
use crate::keyset::{key_view, same_key, TextKeySet};
use crate::sort::{sort_ascending, sort_by_count, sorted_ascending, sorted_by_count};
use crate::text::chars_of;
use crate::json::same_chars;
use crate::tokenizer::strings_view;
use crate::paths::{extract_dataset_name_from_report_path, spec_dataset_name};

verus! {

/// The fields of one contamination report line that the summaries read.
pub struct ContaminationRecord {
    pub training_file: String,
    pub training_line: usize,
    pub eval_dataset: String,
    pub eval_key: Option<String>,
    pub eval_line: usize,
    pub eval_instance_index: Option<usize>,
    pub split: Option<String>,
    pub ngram_match_cnt: Option<usize>,
}

/// The three headline numbers of a report.
pub struct ContaminationMetrics {
    /// Distinct (training file, training line) pairs.
    pub training_docs_contaminated: usize,
    /// Report lines.
    pub contamination_instances: usize,
    /// Distinct (eval dataset, eval instance) pairs.
    pub contaminated_evals: usize,
}

/// The training document a record points at.
pub open spec fn training_doc(r: ContaminationRecord) -> (Seq<char>, nat) {
    (r.training_file@, r.training_line as nat)
}

/// The evaluation instance a record points at: its instance index where the
/// report has one, else its line.
pub open spec fn eval_instance(r: ContaminationRecord) -> (Seq<char>, nat) {
    (r.eval_dataset@, match r.eval_instance_index {
        Some(i) => i as nat,
        None => r.eval_line as nat,
    })
}

/// The distinct training documents named by some records.
pub open spec fn training_docs(s: Seq<ContaminationRecord>) -> Set<(Seq<char>, nat)> {
    Set::new(|d: (Seq<char>, nat)| exists|j: int| 0 <= j < s.len() && d == training_doc(#[trigger] s[j]))
}

/// The distinct evaluation instances named by some records.
pub open spec fn eval_instances(s: Seq<ContaminationRecord>) -> Set<(Seq<char>, nat)> {
    Set::new(|d: (Seq<char>, nat)| exists|j: int| 0 <= j < s.len() && d == eval_instance(#[trigger] s[j]))
}

/// A text and a number as one key.
pub open spec fn pair_key(p: (Seq<char>, nat)) -> Seq<Seq<char>> {
    seq![p.0, decimal_digits(p.1)]
}

proof fn lemma_decimal_digits_nonempty(n: nat)
    ensures
        decimal_digits(n).len() >= 1,
    decreases n,
{
    if n >= 10 {
        lemma_decimal_digits_nonempty(n / 10);
    }
}

proof fn lemma_digit_char_injective(a: int, b: int)
    requires
        0 <= a < 10,
        0 <= b < 10,
        digit_char(a) == digit_char(b),
    ensures
        a == b,
{
}

/// Different numbers have different decimal digits.
pub proof fn lemma_decimal_digits_injective(a: nat, b: nat)
    requires
        decimal_digits(a) == decimal_digits(b),
    ensures
        a == b,
    decreases a,
{
    if a < 10 && b < 10 {
        let ca = digit_char(a as int);
        let cb = digit_char(b as int);
        assert(decimal_digits(a) == seq![ca]);
        assert(decimal_digits(b) == seq![cb]);
        assert(seq![ca][0] == ca);
        assert(seq![cb][0] == cb);
        lemma_digit_char_injective(a as int, b as int);
    } else if a < 10 {
        lemma_decimal_digits_nonempty(b / 10);
        assert(decimal_digits(b).len() >= 2);
    } else if b < 10 {
        lemma_decimal_digits_nonempty(a / 10);
        assert(decimal_digits(a).len() >= 2);
    } else {
        let da = decimal_digits(a);
        let db = decimal_digits(b);
        assert(da.last() == db.last());
        lemma_digit_char_injective((a % 10) as int, (b % 10) as int);
        assert(decimal_digits(a / 10) =~= da.drop_last());
        assert(decimal_digits(b / 10) =~= db.drop_last());
        lemma_decimal_digits_injective(a / 10, b / 10);
    }
}

/// Distinct pairs have distinct keys.
pub proof fn lemma_pair_key_injective(p: (Seq<char>, nat), q: (Seq<char>, nat))
    requires
        pair_key(p) == pair_key(q),
    ensures
        p == q,
{
    assert(pair_key(p)[0] == pair_key(q)[0]);
    assert(pair_key(p)[1] == pair_key(q)[1]);
    lemma_decimal_digits_injective(p.1, q.1);
}

/// The set of keys of a set of pairs has as many members as the set.
pub(crate) proof fn lemma_keys_len(pairs: Set<(Seq<char>, nat)>)
    requires
        pairs.finite(),
    ensures
        pairs.map(|p: (Seq<char>, nat)| pair_key(p)).finite(),
        pairs.map(|p: (Seq<char>, nat)| pair_key(p)).len() == pairs.len(),
{
    let f = |p: (Seq<char>, nat)| pair_key(p);
    assert(vstd::relations::injective_on(f, pairs)) by {
        assert forall|p: (Seq<char>, nat), q: (Seq<char>, nat)|
            pairs.contains(p) && pairs.contains(q) && #[trigger] f(p) == #[trigger] f(q) implies p == q by {
            lemma_pair_key_injective(p, q);
        }
    }
    vstd::set_lib::lemma_map_size(pairs, pairs.map(f), f);
}

/// The keys of a set of pairs.
pub open spec fn pair_keys(pairs: Set<(Seq<char>, nat)>) -> Set<Seq<Seq<char>>> {
    pairs.map(|p: (Seq<char>, nat)| pair_key(p))
}

pub(crate) proof fn lemma_pair_keys_insert(pairs: Set<(Seq<char>, nat)>, p: (Seq<char>, nat))
    ensures
        pair_keys(pairs.insert(p)) == pair_keys(pairs).insert(pair_key(p)),
{
    assert(pair_keys(pairs.insert(p)) =~= pair_keys(pairs).insert(pair_key(p))) by {
        assert forall|k: Seq<Seq<char>>| #[trigger] pair_keys(pairs.insert(p)).contains(k)
            implies pair_keys(pairs).insert(pair_key(p)).contains(k) by {
            let q = choose|q: (Seq<char>, nat)| pairs.insert(p).contains(q) && k == pair_key(q);
            if q != p {
                assert(pairs.contains(q));
            }
        }
        assert forall|k: Seq<Seq<char>>| #[trigger] pair_keys(pairs).insert(pair_key(p)).contains(k)
            implies pair_keys(pairs.insert(p)).contains(k) by {
            if k != pair_key(p) {
                let q = choose|q: (Seq<char>, nat)| pairs.contains(q) && k == pair_key(q);
                assert(pairs.insert(p).contains(q));
            } else {
                assert(pairs.insert(p).contains(p));
            }
        }
    }
}

pub(crate) proof fn lemma_training_docs_step(s: Seq<ContaminationRecord>, i: int)
    requires
        0 <= i < s.len(),
    ensures
        training_docs(s.take(i + 1)) == training_docs(s.take(i)).insert(training_doc(s[i])),
        eval_instances(s.take(i + 1)) == eval_instances(s.take(i)).insert(eval_instance(s[i])),
{
    let a = s.take(i);
    let b = s.take(i + 1);
    assert(b[i] == s[i]);
    assert forall|j: int| 0 <= j < i implies #[trigger] b[j] == a[j] by {}
    assert(training_docs(b) =~= training_docs(a).insert(training_doc(s[i]))) by {
        assert forall|d: (Seq<char>, nat)| #[trigger] training_docs(b).contains(d)
            implies training_docs(a).insert(training_doc(s[i])).contains(d) by {
            let j = choose|j: int| 0 <= j < b.len() && d == training_doc(#[trigger] b[j]);
            if j < i {
                assert(a[j] == b[j]);
            }
        }
        assert forall|d: (Seq<char>, nat)| #[trigger] training_docs(a).insert(training_doc(s[i])).contains(d)
            implies training_docs(b).contains(d) by {
            if d != training_doc(s[i]) {
                let j = choose|j: int| 0 <= j < a.len() && d == training_doc(#[trigger] a[j]);
                assert(b[j] == a[j]);
            }
        }
    }
    assert(eval_instances(b) =~= eval_instances(a).insert(eval_instance(s[i]))) by {
        assert forall|d: (Seq<char>, nat)| #[trigger] eval_instances(b).contains(d)
            implies eval_instances(a).insert(eval_instance(s[i])).contains(d) by {
            let j = choose|j: int| 0 <= j < b.len() && d == eval_instance(#[trigger] b[j]);
            if j < i {
                assert(a[j] == b[j]);
            }
        }
        assert forall|d: (Seq<char>, nat)| #[trigger] eval_instances(a).insert(eval_instance(s[i])).contains(d)
            implies eval_instances(b).contains(d) by {
            if d != eval_instance(s[i]) {
                let j = choose|j: int| 0 <= j < a.len() && d == eval_instance(#[trigger] a[j]);
                assert(b[j] == a[j]);
            }
        }
    }
}

/// The key of a text and a number.
pub(crate) fn make_pair_key(text: &str, n: usize) -> (k: Vec<Vec<char>>)
    ensures
        key_view(k) == pair_key((text@, n as nat)),
{
    let k = vec![chars_of(text), decimal(n)];
    assert(key_view(k) =~= pair_key((text@, n as nat)));
    k
}

/// Counts the report lines, the distinct training documents and the distinct
/// evaluation instances (by instance index where a line has one, else by
/// eval line) that the lines name.
pub fn compute_contamination_metrics(results: &Vec<ContaminationRecord>) -> (m: ContaminationMetrics)
    ensures
        m.training_docs_contaminated == training_docs(results@).len(),
        m.contamination_instances == results@.len(),
        m.training_docs_contaminated <= m.contamination_instances,
        m.contaminated_evals <= m.contamination_instances,
        m.contaminated_evals == eval_instances(results@).len(),
        training_docs(results@).finite(),
        eval_instances(results@).finite(),
{
    let mut docs = TextKeySet::new();
    let mut evals = TextKeySet::new();
    let mut n_docs: usize = 0;
    let mut n_evals: usize = 0;
    proof {
        assert(training_docs(results@.take(0)) =~= Set::<(Seq<char>, nat)>::empty());
        assert(eval_instances(results@.take(0)) =~= Set::<(Seq<char>, nat)>::empty());
        assert(pair_keys(Set::<(Seq<char>, nat)>::empty()) =~= Set::<Seq<Seq<char>>>::empty());
    }
    let mut i: usize = 0;
    while i < results.len()
        invariant
            i <= results@.len(),
            docs.wf(),
            evals.wf(),
            training_docs(results@.take(i as int)).finite(),
            eval_instances(results@.take(i as int)).finite(),
            docs@ == pair_keys(training_docs(results@.take(i as int))),
            evals@ == pair_keys(eval_instances(results@.take(i as int))),
            docs@.finite(),
            evals@.finite(),
            n_docs as nat == docs@.len(),
            n_evals as nat == evals@.len(),
            n_docs <= i,
            n_evals <= i,
        decreases results@.len() - i,
    {
        let r = &results[i];
        let instance = match r.eval_instance_index {
            Some(x) => x,
            None => r.eval_line,
        };
        proof {
            lemma_training_docs_step(results@, i as int);
            lemma_pair_keys_insert(training_docs(results@.take(i as int)), training_doc(results@[i as int]));
            lemma_pair_keys_insert(eval_instances(results@.take(i as int)), eval_instance(results@[i as int]));
        }
        let added_doc = docs.insert(make_pair_key(r.training_file.as_str(), r.training_line));
        if added_doc {
            n_docs = n_docs + 1;
        }
        let added_eval = evals.insert(make_pair_key(r.eval_dataset.as_str(), instance));
        if added_eval {
            n_evals = n_evals + 1;
        }
        i = i + 1;
    }
    proof {
        assert(results@.take(results@.len() as int) =~= results@);
        lemma_keys_len(training_docs(results@));
        lemma_keys_len(eval_instances(results@));
    }
    ContaminationMetrics {
        training_docs_contaminated: n_docs,
        contamination_instances: results.len(),
        contaminated_evals: n_evals,
    }
}

/// The views of a list of keys.
pub open spec fn keys_view(v: Seq<Vec<Vec<char>>>) -> Seq<Seq<Seq<char>>> {
    v.map_values(|x: Vec<Vec<char>>| key_view(x))
}

/// The distinct keys, among those from position `from` on, whose group is `g`.
pub open spec fn group_keys_from(
    gv: Seq<Seq<Seq<char>>>,
    kv: Seq<Seq<Seq<char>>>,
    from: int,
    g: Seq<Seq<char>>,
) -> Set<Seq<Seq<char>>> {
    Set::new(|k: Seq<Seq<char>>| exists|t: int| from <= t < kv.len() && #[trigger] gv[t] == g && k == kv[t])
}

/// The distinct keys whose group is `g`.
pub open spec fn group_keys(gv: Seq<Seq<Seq<char>>>, kv: Seq<Seq<Seq<char>>>, g: Seq<Seq<char>>) -> Set<
    Seq<Seq<char>>,
> {
    group_keys_from(gv, kv, 0, g)
}

spec fn keys_from(kv: Seq<Seq<Seq<char>>>, from: int) -> Set<Seq<Seq<char>>> {
    Set::new(|k: Seq<Seq<char>>| exists|t: int| from <= t < kv.len() && k == #[trigger] kv[t])
}

proof fn lemma_group_keys_step(gv: Seq<Seq<Seq<char>>>, kv: Seq<Seq<Seq<char>>>, t: int, h: Seq<Seq<char>>)
    requires
        0 <= t < kv.len(),
        gv.len() == kv.len(),
    ensures
        group_keys_from(gv, kv, t, h) == if gv[t] == h {
            group_keys_from(gv, kv, t + 1, h).insert(kv[t])
        } else {
            group_keys_from(gv, kv, t + 1, h)
        },
        keys_from(kv, t) == keys_from(kv, t + 1).insert(kv[t]),
{
    assert(keys_from(kv, t) =~= keys_from(kv, t + 1).insert(kv[t]));
    if gv[t] == h {
        assert(group_keys_from(gv, kv, t, h) =~= group_keys_from(gv, kv, t + 1, h).insert(kv[t]));
    } else {
        assert(group_keys_from(gv, kv, t, h) =~= group_keys_from(gv, kv, t + 1, h));
    }
}

/// What has been tallied once the keys from position `from` on are seen:
/// one entry per group among them, with a position holding the group and the
/// number of distinct keys that came with it.
#[verifier::opaque]
spec fn tallied(
    gv: Seq<Seq<Seq<char>>>,
    kv: Seq<Seq<Seq<char>>>,
    from: int,
    seen: Set<Seq<Seq<char>>>,
    reps: Seq<usize>,
    counts: Seq<usize>,
) -> bool {
    let n = kv.len() as int;
    &&& seen == keys_from(kv, from)
    &&& reps.len() == counts.len()
    &&& forall|a: int| 0 <= a < reps.len() ==> from <= #[trigger] reps[a] < n
    &&& forall|a: int, b: int| 0 <= a < b < reps.len() ==> gv[#[trigger] reps[a] as int] != gv[#[trigger] reps[b] as int]
    &&& forall|t: int|
        from <= t < n ==> exists|a: int| 0 <= a < reps.len() && gv[#[trigger] reps[a] as int] == #[trigger] gv[t]
    &&& forall|a: int|
        0 <= a < reps.len() ==> group_keys_from(gv, kv, from, gv[#[trigger] reps[a] as int]).finite()
            && counts[a] == group_keys_from(gv, kv, from, gv[reps[a] as int]).len()
            && counts[a] <= n - from
}

/// Tallies the key at position `t`, the keys after it being tallied already.
#[verifier::spinoff_prover]
#[verifier::rlimit(60)]
fn tally_key(
    seen: &mut TextKeySet,
    reps: &mut Vec<usize>,
    counts: &mut Vec<usize>,
    groups: &Vec<Vec<Vec<char>>>,
    t: usize,
    key: Vec<Vec<char>>,
    Ghost(kv): Ghost<Seq<Seq<Seq<char>>>>,
    Ghost(width): Ghost<int>,
)
    requires
        old(seen).wf(),
        t < groups@.len() == kv.len(),
        key_view(key) == kv[t as int],
        forall|u: int| 0 <= u < kv.len() ==> (#[trigger] keys_view(groups@)[u]).len() == width,
        forall|u: int| 0 <= u < kv.len() ==> (#[trigger] kv[u]).len() >= width && kv[u].take(width) == keys_view(groups@)[u],
        tallied(keys_view(groups@), kv, t + 1, old(seen)@, old(reps)@, old(counts)@),
    ensures
        final(seen).wf(),
        tallied(keys_view(groups@), kv, t as int, final(seen)@, final(reps)@, final(counts)@),
{
    reveal(tallied);
    let ghost gv = keys_view(groups@);
    let ghost n = kv.len() as int;
    let ghost j = t + 1;
    let ghost g = gv[t as int];
    proof {
        lemma_group_keys_step(gv, kv, t as int, g);
    }
    let added = seen.insert(key);
    proof {
        if !added {
            let u = choose|u: int| j <= u < n && kv[t as int] == #[trigger] kv[u];
            assert(gv[u] == kv[u].take(width));
            assert(group_keys_from(gv, kv, j, g).contains(kv[t as int]));
        } else {
            assert(!group_keys_from(gv, kv, j, g).contains(kv[t as int])) by {
                if group_keys_from(gv, kv, j, g).contains(kv[t as int]) {
                    let u = choose|u: int| j <= u < n && #[trigger] gv[u] == g && kv[t as int] == kv[u];
                    assert(keys_from(kv, j).contains(kv[u]));
                }
            }
        }
    }
    let mut a: usize = 0;
    let mut found = false;
    while a < reps.len()
        invariant_except_break
            !found,
            forall|b: int| 0 <= b < a ==> gv[#[trigger] reps@[b] as int] != g,
        invariant
            a <= reps@.len(),
            t < n,
            g == gv[t as int],
            gv == keys_view(groups@),
            n == groups@.len(),
            forall|b: int| 0 <= b < reps@.len() ==> (#[trigger] reps@[b]) < n,
        ensures
            found ==> a < reps@.len() && gv[reps@[a as int] as int] == g,
            !found ==> forall|b: int| 0 <= b < reps@.len() ==> gv[#[trigger] reps@[b] as int] != g,
        decreases reps@.len() - a,
    {
        if same_key(&groups[reps[a]], &groups[t]) {
            assert(gv[reps@[a as int] as int] == key_view(groups@[reps@[a as int] as int]));
            found = true;
            break;
        }
        a = a + 1;
    }
    proof {
        assert forall|h: Seq<Seq<char>>| #[trigger] group_keys_from(gv, kv, t as int, h) == (if gv[t as int] == h {
            group_keys_from(gv, kv, j, h).insert(kv[t as int])
        } else {
            group_keys_from(gv, kv, j, h)
        }) by {
            lemma_group_keys_step(gv, kv, t as int, h);
        }
    }
    let ghost old_reps = reps@;
    let ghost old_counts = counts@;
    let n_groups = groups.len();
    if found {
        if added {
            assert(counts@[a as int] <= n - j);
            assert(n == n_groups);
            counts.set(a, counts[a] + 1);
        }
    } else {
        proof {
            assert(group_keys_from(gv, kv, j, g) =~= Set::<Seq<Seq<char>>>::empty()) by {
                assert forall|k: Seq<Seq<char>>| !group_keys_from(gv, kv, j, g).contains(k) by {
                    if group_keys_from(gv, kv, j, g).contains(k) {
                        let u = choose|u: int| j <= u < n && #[trigger] gv[u] == g && k == kv[u];
                        let b = choose|b: int| 0 <= b < old_reps.len() && gv[#[trigger] old_reps[b] as int] == gv[u];
                    }
                }
            }
        }
        reps.push(t);
        counts.push(1);
    }
    proof {
        assert forall|b: int| 0 <= b < reps@.len() implies group_keys_from(gv, kv, t as int, gv[#[trigger] reps@[b] as int]).finite()
            && counts@[b] == group_keys_from(gv, kv, t as int, gv[reps@[b] as int]).len()
            && counts@[b] <= n - t by {
            if b < old_reps.len() {
                assert(reps@[b] == old_reps[b]);
                if found && b == a {
                } else {
                    assert(gv[old_reps[b] as int] != g);
                    assert(counts@[b] == old_counts[b]);
                }
            } else {
                assert(group_keys_from(gv, kv, t as int, g) =~= Set::<Seq<Seq<char>>>::empty().insert(kv[t as int]));
            }
        }
        assert forall|u: int| t <= u < n implies exists|b: int|
            0 <= b < reps@.len() && gv[#[trigger] reps@[b] as int] == #[trigger] gv[u] by {
            if u == t {
                if found {
                    assert(gv[reps@[a as int] as int] == gv[u]);
                } else {
                    assert(gv[reps@[reps@.len() - 1] as int] == gv[u]);
                }
            } else {
                let b = choose|b: int| 0 <= b < old_reps.len() && gv[#[trigger] old_reps[b] as int] == gv[u];
                assert(reps@[b] == old_reps[b]);
            }
        }
        assert forall|b: int, c: int| 0 <= b < c < reps@.len() implies gv[#[trigger] reps@[b] as int] != gv[#[trigger] reps@[c] as int] by {
            if c < old_reps.len() {
                assert(reps@[b] == old_reps[b]);
                assert(reps@[c] == old_reps[c]);
            } else {
                assert(reps@[b] == old_reps[b]);
            }
        }
    }
}

/// `res` holds, largest count first, one entry per group: the number of
/// distinct keys that come with the group, and a position that holds it.
#[verifier::opaque]
spec fn grouped(gv: Seq<Seq<Seq<char>>>, kv: Seq<Seq<Seq<char>>>, res: Seq<(usize, usize)>) -> bool {
    &&& sorted_by_count(res)
    &&& forall|a: int|
        0 <= a < res.len() ==> (#[trigger] res[a]).1 < gv.len() && res[a].0 == group_keys(gv, kv, gv[res[a].1 as int]).len()
    &&& forall|a: int, b: int| 0 <= a < b < res.len() ==> gv[(#[trigger] res[a]).1 as int] != gv[(#[trigger] res[b]).1 as int]
    &&& forall|t: int| 0 <= t < gv.len() ==> #[trigger] covered(gv, res, t)
}

/// Some entry of `res` holds the group of position `t`.
spec fn covered(gv: Seq<Seq<Seq<char>>>, res: Seq<(usize, usize)>, t: int) -> bool {
    exists|a: int| 0 <= a < res.len() && gv[(#[trigger] res[a]).1 as int] == gv[t]
}

/// For each group, the number of distinct keys that come with it; each entry
/// is a count and a position that holds the group, largest count first, one
/// entry per group. A key begins with its group, so no key comes with two
/// groups.
fn count_by_group(groups: &Vec<Vec<Vec<char>>>, keys: Vec<Vec<Vec<char>>>, Ghost(width): Ghost<int>) -> (res: Vec<
    (usize, usize),
>)
    requires
        groups@.len() == keys@.len(),
        forall|t: int| 0 <= t < groups@.len() ==> key_view(#[trigger] groups@[t]).len() == width,
        forall|t: int|
            0 <= t < keys@.len() ==> key_view(#[trigger] keys@[t]).len() >= width && key_view(keys@[t]).take(width)
                == key_view(groups@[t]),
    ensures
        grouped(keys_view(groups@), keys_view(keys@), res@),
{
    let ghost gv = keys_view(groups@);
    let ghost kv = keys_view(keys@);
    let ghost n = keys@.len() as int;
    let mut keys = keys;
    let mut seen = TextKeySet::new();
    let mut reps: Vec<usize> = Vec::new();
    let mut counts: Vec<usize> = Vec::new();
    proof {
        reveal(tallied);
        assert(keys_from(kv, n) =~= Set::<Seq<Seq<char>>>::empty());
    }
    while keys.len() > 0
        invariant
            n == groups@.len(),
            gv == keys_view(groups@),
            kv.len() == n,
            keys@.len() <= n,
            forall|t: int| 0 <= t < keys@.len() ==> key_view(#[trigger] keys@[t]) == kv[t],
            forall|t: int| 0 <= t < n ==> (#[trigger] gv[t]).len() == width,
            forall|t: int| 0 <= t < n ==> (#[trigger] kv[t]).len() >= width && kv[t].take(width) == gv[t],
            seen.wf(),
            tallied(gv, kv, keys@.len() as int, seen@, reps@, counts@),
        decreases keys@.len(),
    {
        let ghost before = keys@;
        let key = keys.pop().unwrap();
        let t = keys.len();
        proof {
            assert(before[t as int] == key);
            assert forall|u: int| 0 <= u < keys@.len() implies key_view(#[trigger] keys@[u]) == kv[u] by {
                assert(keys@[u] == before[u]);
            }
        }
        tally_key(&mut seen, &mut reps, &mut counts, groups, t, key, Ghost(kv), Ghost(width));
    }
    proof {
        reveal(tallied);
    }
    let mut pairs: Vec<(usize, usize)> = Vec::new();
    let mut a: usize = 0;
    while a < reps.len()
        invariant
            a <= reps@.len(),
            reps@.len() == counts@.len(),
            pairs@.len() == a,
            forall|b: int| 0 <= b < a ==> #[trigger] pairs@[b] == (counts@[b], reps@[b]),
        decreases reps@.len() - a,
    {
        pairs.push((counts[a], reps[a]));
        a = a + 1;
    }
    let ghost unsorted = pairs@;
    let res = sort_by_count(pairs);
    proof {
        assert(unsorted.no_duplicates()) by {
            assert forall|b: int, c: int| 0 <= b < unsorted.len() && 0 <= c < unsorted.len() && b != c implies unsorted[b] != unsorted[c] by {
                if b < c {
                    assert(gv[reps@[b] as int] != gv[reps@[c] as int]);
                } else {
                    assert(gv[reps@[c] as int] != gv[reps@[b] as int]);
                }
            }
        }
        unsorted.lemma_multiset_has_no_duplicates();
        res@.lemma_multiset_has_no_duplicates_conv();
        res@.to_multiset_ensures();
        unsorted.to_multiset_ensures();
        assert forall|b: int| 0 <= b < res@.len() implies exists|c: int| 0 <= c < unsorted.len() && unsorted[c] == #[trigger] res@[b] by {
            assert(res@.contains(res@[b]));
            assert(res@.to_multiset().count(res@[b]) > 0);
            assert(unsorted.contains(res@[b]));
        }
        assert forall|b: int| 0 <= b < res@.len() implies (#[trigger] res@[b]).1 < groups@.len() && res@[b].0 == group_keys(
            gv, kv, gv[res@[b].1 as int]).len() by {
            let c = choose|c: int| 0 <= c < unsorted.len() && unsorted[c] == res@[b];
            assert(unsorted[c] == (counts@[c], reps@[c]));
        }
        assert forall|b: int, c: int| 0 <= b < c < res@.len() implies gv[(#[trigger] res@[b]).1 as int] != gv[(#[trigger] res@[c]).1 as int] by {
            let x = choose|x: int| 0 <= x < unsorted.len() && unsorted[x] == res@[b];
            let y = choose|y: int| 0 <= y < unsorted.len() && unsorted[y] == res@[c];
            assert(res@[b] != res@[c]);
            assert(x != y);
            assert(unsorted[x] == (counts@[x], reps@[x]));
            assert(unsorted[y] == (counts@[y], reps@[y]));
            if x < y {
                assert(gv[reps@[x] as int] != gv[reps@[y] as int]);
            } else {
                assert(gv[reps@[y] as int] != gv[reps@[x] as int]);
            }
        }
        assert(gv.len() == groups@.len());
        assert forall|t: int| 0 <= t < gv.len() implies #[trigger] covered(gv, res@, t) by {
            let x = choose|x: int| 0 <= x < reps@.len() && gv[#[trigger] reps@[x] as int] == gv[t];
            assert(unsorted[x] == (counts@[x], reps@[x]));
            assert(unsorted.contains(unsorted[x]));
            assert(unsorted.to_multiset().count(unsorted[x]) > 0);
            assert(res@.contains(unsorted[x]));
            let b = choose|b: int| 0 <= b < res@.len() && res@[b] == unsorted[x];
            assert(res@[b].1 == reps@[x]);
            assert(gv[res@[b].1 as int] == gv[t]);
        }
        assert(gv.len() == groups@.len());
        reveal(grouped);
        assert(sorted_by_count(res@));
        assert(forall|a: int|
            0 <= a < res@.len() ==> (#[trigger] res@[a]).1 < gv.len() && res@[a].0 == group_keys(gv, kv, gv[res@[a].1 as int]).len());
        assert(forall|a: int, b: int| 0 <= a < b < res@.len() ==> gv[(#[trigger] res@[a]).1 as int] != gv[(#[trigger] res@[b]).1 as int]);
        assert(grouped(gv, kv, res@));
    }
    res
}

/// The distinct pairs that come with the name `g`.
pub open spec fn docs_in(names: Seq<Seq<char>>, pairs: Seq<(Seq<char>, nat)>, g: Seq<char>) -> Set<(Seq<char>, nat)> {
    Set::new(|d: (Seq<char>, nat)| exists|t: int| 0 <= t < names.len() && #[trigger] names[t] == g && d == pairs[t])
}

/// The names that occur in a list.
pub open spec fn names_in(names: Seq<Seq<char>>) -> Set<Seq<char>> {
    names.to_set()
}

proof fn lemma_group_count(
    gv: Seq<Seq<Seq<char>>>,
    kv: Seq<Seq<Seq<char>>>,
    nv: Seq<Seq<char>>,
    pv: Seq<(Seq<char>, nat)>,
    g: Seq<char>,
)
    requires
        gv.len() == kv.len() == nv.len() == pv.len(),
        forall|t: int| 0 <= t < gv.len() ==> #[trigger] gv[t] == seq![nv[t]],
        forall|t: int| 0 <= t < kv.len() ==> #[trigger] kv[t] == seq![nv[t]] + pair_key(pv[t]),
    ensures
        docs_in(nv, pv, g).finite(),
        group_keys(gv, kv, seq![g]).len() == docs_in(nv, pv, g).len(),
{
    let d = docs_in(nv, pv, g);
    let f = |p: (Seq<char>, nat)| seq![g] + pair_key(p);
    assert(d.subset_of(pv.to_set())) by {
        assert forall|p: (Seq<char>, nat)| d.contains(p) implies pv.to_set().contains(p) by {
            let t = choose|t: int| 0 <= t < nv.len() && #[trigger] nv[t] == g && p == pv[t];
            assert(pv.contains(pv[t]));
        }
    }
    vstd::seq_lib::seq_to_set_is_finite(pv);
    vstd::set_lib::lemma_len_subset(d, pv.to_set());
    assert(vstd::relations::injective_on(f, d)) by {
        assert forall|p: (Seq<char>, nat), q: (Seq<char>, nat)|
            d.contains(p) && d.contains(q) && #[trigger] f(p) == #[trigger] f(q) implies p == q by {
            assert(f(p)[1] == f(q)[1]);
            assert(f(p)[2] == f(q)[2]);
            assert(pair_key(p) =~= pair_key(q));
            lemma_pair_key_injective(p, q);
        }
    }
    assert(d.map(f) =~= group_keys(gv, kv, seq![g])) by {
        assert forall|k: Seq<Seq<char>>| #[trigger] d.map(f).contains(k) implies group_keys(gv, kv, seq![g]).contains(k) by {
            let p = choose|p: (Seq<char>, nat)| d.contains(p) && k == f(p);
            let t = choose|t: int| 0 <= t < nv.len() && #[trigger] nv[t] == g && p == pv[t];
            assert(gv[t] == seq![g]);
            assert(kv[t] =~= f(p));
        }
        assert forall|k: Seq<Seq<char>>| #[trigger] group_keys(gv, kv, seq![g]).contains(k) implies d.map(f).contains(k) by {
            let t = choose|t: int| 0 <= t < kv.len() && #[trigger] gv[t] == seq![g] && k == kv[t];
            assert(seq![nv[t]][0] == seq![g][0]);
            assert(d.contains(pv[t]));
            assert(kv[t] =~= f(pv[t]));
        }
    }
    vstd::set_lib::lemma_map_size(d, d.map(f), f);
}

/// `res` holds one entry per name, each with the number of distinct pairs
/// that come with the name, largest count first.
pub open spec fn counted_by_name(res: Seq<(String, usize)>, names: Seq<Seq<char>>, pairs: Seq<(Seq<char>, nat)>) -> bool {
    &&& forall|a: int, b: int| 0 <= a < b < res.len() ==> (#[trigger] res[a]).1 >= (#[trigger] res[b]).1
    &&& forall|a: int|
        0 <= a < res.len() ==> names_in(names).contains((#[trigger] res[a]).0@) && res[a].1 == docs_in(
            names,
            pairs,
            res[a].0@,
        ).len()
    &&& forall|a: int, b: int| 0 <= a < b < res.len() ==> (#[trigger] res[a]).0@ != (#[trigger] res[b]).0@
    &&& forall|g: Seq<char>| #[trigger] names_in(names).contains(g) ==> exists|a: int|
        0 <= a < res.len() && (#[trigger] res[a]).0@ == g
}

/// For each name, the number of distinct (text, number) pairs that come with
/// it at the same positions; one entry per name, largest count first.
pub(crate) fn count_pairs_per_name(names: &Vec<String>, texts: &Vec<String>, nums: &Vec<usize>) -> (res: Vec<(String, usize)>)
    requires
        names@.len() == texts@.len() == nums@.len(),
    ensures
        counted_by_name(res@, strings_view(names@), pairs_view(texts@, nums@)),
{
    let ghost nv = strings_view(names@);
    let ghost pv = pairs_view(texts@, nums@);
    let mut groups: Vec<Vec<Vec<char>>> = Vec::new();
    let mut keys: Vec<Vec<Vec<char>>> = Vec::new();
    let mut t: usize = 0;
    while t < names.len()
        invariant
            t <= names@.len(),
            names@.len() == texts@.len() == nums@.len(),
            nv == strings_view(names@),
            pv == pairs_view(texts@, nums@),
            groups@.len() == t,
            keys@.len() == t,
            forall|u: int| 0 <= u < t ==> #[trigger] keys_view(groups@)[u] == seq![nv[u]],
            forall|u: int| 0 <= u < t ==> #[trigger] keys_view(keys@)[u] == seq![nv[u]] + pair_key(pv[u]),
        decreases names@.len() - t,
    {
        let g = vec![chars_of(names[t].as_str())];
        let k = vec![chars_of(names[t].as_str()), chars_of(texts[t].as_str()), decimal(nums[t])];
        proof {
            assert(key_view(g) =~= seq![nv[t as int]]);
            assert(key_view(k) =~= seq![nv[t as int]] + pair_key(pv[t as int]));
        }
        let ghost old_groups = groups@;
        let ghost old_keys = keys@;
        groups.push(g);
        keys.push(k);
        proof {
            assert forall|u: int| 0 <= u < t + 1 implies #[trigger] keys_view(groups@)[u] == seq![nv[u]] by {
                if u < t {
                    assert(groups@[u] == old_groups[u]);
                    assert(keys_view(old_groups)[u] == key_view(old_groups[u]));
                }
            }
            assert forall|u: int| 0 <= u < t + 1 implies #[trigger] keys_view(keys@)[u] == seq![nv[u]] + pair_key(pv[u]) by {
                if u < t {
                    assert(keys@[u] == old_keys[u]);
                    assert(keys_view(old_keys)[u] == key_view(old_keys[u]));
                }
            }
        }
        t = t + 1;
    }
    proof {
        assert forall|u: int| 0 <= u < groups@.len() implies key_view(#[trigger] groups@[u]).len() == 1 by {
            assert(keys_view(groups@)[u] == key_view(groups@[u]));
        }
        assert forall|u: int| 0 <= u < keys@.len() implies key_view(#[trigger] keys@[u]).len() >= 1 && key_view(keys@[u]).take(1)
            == key_view(groups@[u]) by {
            assert(keys_view(groups@)[u] == key_view(groups@[u]));
            assert(keys_view(keys@)[u] == key_view(keys@[u]));
            assert(key_view(keys@[u]).take(1) =~= seq![nv[u]]);
        }
    }
    let ghost gv = keys_view(groups@);
    let ghost kv = keys_view(keys@);
    let counted = count_by_group(&groups, keys, Ghost(1));
    proof {
        reveal(grouped);
    }
    let mut res: Vec<(String, usize)> = Vec::new();
    let mut a: usize = 0;
    while a < counted.len()
        invariant
            a <= counted@.len(),
            res@.len() == a,
            names@.len() == groups@.len(),
            forall|b: int| 0 <= b < a ==> (#[trigger] res@[b]).1 == counted@[b].0 && res@[b].0@ == nv[counted@[b].1 as int],
            forall|b: int| 0 <= b < counted@.len() ==> (#[trigger] counted@[b]).1 < groups@.len(),
            nv == strings_view(names@),
        decreases counted@.len() - a,
    {
        let (c, rep) = counted[a];
        res.push((names[rep].clone(), c));
        a = a + 1;
    }
    proof {
        assert forall|a: int| 0 <= a < res@.len() implies names_in(nv).contains((#[trigger] res@[a]).0@) && res@[a].1
            == docs_in(nv, pv, res@[a].0@).len() by {
            let rep = counted@[a].1 as int;
            assert(nv.contains(nv[rep]));
            lemma_group_count(gv, kv, nv, pv, nv[rep]);
        }
        assert forall|a: int, b: int| 0 <= a < b < res@.len() implies (#[trigger] res@[a]).0@ != (#[trigger] res@[b]).0@ by {
            let x = counted@[a].1 as int;
            let y = counted@[b].1 as int;
            assert(gv[x] != gv[y]);
            assert(gv[x] == seq![nv[x]]);
            assert(gv[y] == seq![nv[y]]);
        }
        assert forall|g: Seq<char>| #[trigger] names_in(nv).contains(g) implies exists|a: int|
            0 <= a < res@.len() && (#[trigger] res@[a]).0@ == g by {
            let u = choose|u: int| 0 <= u < nv.len() && nv[u] == g;
            assert(covered(gv, counted@, u));
            let a = choose|a: int| 0 <= a < counted@.len() && gv[(#[trigger] counted@[a]).1 as int] == gv[u];
            let x = counted@[a].1 as int;
            assert(gv[x] == seq![nv[x]]);
            assert(seq![nv[x]][0] == seq![nv[u]][0]);
            assert(res@[a].0@ == g);
        }
        assert forall|a: int, b: int| 0 <= a < b < res@.len() implies (#[trigger] res@[a]).1 >= (#[trigger] res@[b]).1 by {
            assert(sorted_by_count(counted@));
        }
    }
    res
}

/// Pairs of a text and a number, position by position.
pub open spec fn pairs_view(texts: Seq<String>, nums: Seq<usize>) -> Seq<(Seq<char>, nat)> {
    Seq::new(texts.len(), |t: int| (texts[t]@, nums[t] as nat))
}

/// The suite a record belongs to: its eval key where it has one, else its
/// eval dataset.
pub open spec fn suite_of(r: ContaminationRecord) -> Seq<char> {
    match r.eval_key {
        Some(k) => k@,
        None => r.eval_dataset@,
    }
}

/// Whether a record passes the evaluation and match-length filters: its
/// suite is the one asked for, and it has at least the asked number of
/// matching n-grams (a record without a count fails a length filter).
pub open spec fn spec_passes_match_filters(
    r: ContaminationRecord,
    min_length: Option<usize>,
    eval_filter: Option<Seq<char>>,
) -> bool {
    &&& (eval_filter matches Some(e) ==> suite_of(r) == e)
    &&& (min_length matches Some(m) ==> (r.ngram_match_cnt matches Some(c) && c >= m))
}

/// Whether a record passes the evaluation and match-length filters.
pub fn passes_match_filters(r: &ContaminationRecord, min_length: Option<usize>, eval_filter: Option<&str>) -> (res: bool)
    ensures
        res == spec_passes_match_filters(
            *r,
            min_length,
            match eval_filter {
                Some(e) => Some(e@),
                None => None,
            },
        ),
{
    if let Some(e) = eval_filter {
        let suite = match &r.eval_key {
            Some(k) => chars_of(k.as_str()),
            None => chars_of(r.eval_dataset.as_str()),
        };
        if !same_chars(&suite, &chars_of(e)) {
            return false;
        }
    }
    match min_length {
        Some(m) => match r.ngram_match_cnt {
            Some(c) => c >= m,
            None => false,
        },
        None => true,
    }
}

/// The suite of each record.
pub open spec fn suites_view(s: Seq<ContaminationRecord>) -> Seq<Seq<char>> {
    s.map_values(|r: ContaminationRecord| suite_of(r))
}

/// The training document of each record.
pub open spec fn docs_view(s: Seq<ContaminationRecord>) -> Seq<(Seq<char>, nat)> {
    s.map_values(|r: ContaminationRecord| training_doc(r))
}

/// The evaluation instance of each record.
pub open spec fn instances_view(s: Seq<ContaminationRecord>) -> Seq<(Seq<char>, nat)> {
    s.map_values(|r: ContaminationRecord| eval_instance(r))
}

/// For each suite, the number of distinct training documents that its
/// records name (the documents to remove), largest first, one entry per suite.
pub fn suite_training_doc_counts(results: &Vec<ContaminationRecord>) -> (res: Vec<(String, usize)>)
    ensures
        counted_by_name(res@, suites_view(results@), docs_view(results@)),
{
    let mut names: Vec<String> = Vec::new();
    let mut texts: Vec<String> = Vec::new();
    let mut nums: Vec<usize> = Vec::new();
    let mut t: usize = 0;
    while t < results.len()
        invariant
            t <= results@.len(),
            names@.len() == t && texts@.len() == t && nums@.len() == t,
            forall|u: int| 0 <= u < t ==> (#[trigger] names@[u])@ == suite_of(results@[u]),
            forall|u: int| 0 <= u < t ==> (#[trigger] texts@[u])@ == results@[u].training_file@ && nums@[u] == results@[u].training_line,
        decreases results@.len() - t,
    {
        let r = &results[t];
        let name = match &r.eval_key {
            Some(k) => k.clone(),
            None => r.eval_dataset.clone(),
        };
        names.push(name);
        texts.push(r.training_file.clone());
        nums.push(r.training_line);
        t = t + 1;
    }
    proof {
        assert(strings_view(names@) =~= suites_view(results@));
        assert(pairs_view(texts@, nums@) =~= docs_view(results@));
    }
    count_pairs_per_name(&names, &texts, &nums)
}

/// For each suite, the number of distinct evaluation instances that its
/// records name, largest first, one entry per suite.
pub fn suite_eval_instance_counts(results: &Vec<ContaminationRecord>) -> (res: Vec<(String, usize)>)
    ensures
        counted_by_name(res@, suites_view(results@), instances_view(results@)),
{
    let mut names: Vec<String> = Vec::new();
    let mut texts: Vec<String> = Vec::new();
    let mut nums: Vec<usize> = Vec::new();
    let mut t: usize = 0;
    while t < results.len()
        invariant
            t <= results@.len(),
            names@.len() == t && texts@.len() == t && nums@.len() == t,
            forall|u: int| 0 <= u < t ==> (#[trigger] names@[u])@ == suite_of(results@[u]),
            forall|u: int| 0 <= u < t ==> (#[trigger] texts@[u])@ == eval_instance(results@[u]).0 && nums@[u] as nat == eval_instance(results@[u]).1,
        decreases results@.len() - t,
    {
        let r = &results[t];
        let name = match &r.eval_key {
            Some(k) => k.clone(),
            None => r.eval_dataset.clone(),
        };
        let instance = match r.eval_instance_index {
            Some(x) => x,
            None => r.eval_line,
        };
        assert(instance as nat == eval_instance(results@[t as int]).1);
        names.push(name);
        texts.push(r.eval_dataset.clone());
        nums.push(instance);
        t = t + 1;
    }
    proof {
        assert(strings_view(names@) =~= suites_view(results@));
        assert(pairs_view(texts@, nums@) =~= instances_view(results@));
    }
    count_pairs_per_name(&names, &texts, &nums)
}

/// A report line with the report file it was read from.
pub struct ContaminationRecordWithSource {
    pub result: ContaminationRecord,
    pub source_file: String,
}

/// The training dataset of each record: the first directory of its report
/// file below the report directory.
pub open spec fn datasets_view(s: Seq<ContaminationRecordWithSource>, base_dir: Seq<char>) -> Seq<Seq<char>> {
    s.map_values(|r: ContaminationRecordWithSource| spec_dataset_name(r.source_file@, base_dir))
}

/// The training document of each record with its source.
pub open spec fn sourced_docs_view(s: Seq<ContaminationRecordWithSource>) -> Seq<(Seq<char>, nat)> {
    s.map_values(|r: ContaminationRecordWithSource| training_doc(r.result))
}

/// For each training dataset, the number of distinct training documents to
/// remove from it, largest first, one entry per dataset.
pub fn dataset_removal_counts(results: &Vec<ContaminationRecordWithSource>, base_dir: &str) -> (res: Vec<(String, usize)>)
    ensures
        counted_by_name(res@, datasets_view(results@, base_dir@), sourced_docs_view(results@)),
{
    let mut names: Vec<String> = Vec::new();
    let mut texts: Vec<String> = Vec::new();
    let mut nums: Vec<usize> = Vec::new();
    let mut t: usize = 0;
    while t < results.len()
        invariant
            t <= results@.len(),
            names@.len() == t && texts@.len() == t && nums@.len() == t,
            forall|u: int| 0 <= u < t ==> (#[trigger] names@[u])@ == spec_dataset_name(results@[u].source_file@, base_dir@),
            forall|u: int| 0 <= u < t ==> (#[trigger] texts@[u])@ == results@[u].result.training_file@ && nums@[u] == results@[u].result.training_line,
        decreases results@.len() - t,
    {
        let r = &results[t];
        names.push(extract_dataset_name_from_report_path(r.source_file.as_str(), base_dir));
        texts.push(r.result.training_file.clone());
        nums.push(r.result.training_line);
        t = t + 1;
    }
    proof {
        assert(strings_view(names@) =~= datasets_view(results@, base_dir@));
        assert(pairs_view(texts@, nums@) =~= sourced_docs_view(results@));
    }
    count_pairs_per_name(&names, &texts, &nums)
}

/// The evaluation example of a record: its eval dataset and eval line.
pub open spec fn eval_example(r: ContaminationRecord) -> (Seq<char>, nat) {
    (r.eval_dataset@, r.eval_line as nat)
}

/// The evaluation example of each record.
pub open spec fn examples_view(s: Seq<ContaminationRecord>) -> Seq<(Seq<char>, nat)> {
    s.map_values(|r: ContaminationRecord| eval_example(r))
}

/// The positions that hold `p`.
pub open spec fn positions_of(ps: Seq<(Seq<char>, nat)>, p: (Seq<char>, nat)) -> Set<int> {
    Set::new(|t: int| 0 <= t < ps.len() && ps[t] == p)
}

proof fn lemma_position_count(gv: Seq<Seq<Seq<char>>>, kv: Seq<Seq<Seq<char>>>, ps: Seq<(Seq<char>, nat)>, p: (Seq<char>, nat))
    requires
        gv.len() == kv.len() == ps.len(),
        forall|t: int| 0 <= t < gv.len() ==> #[trigger] gv[t] == pair_key(ps[t]),
        forall|t: int| 0 <= t < kv.len() ==> #[trigger] kv[t] == pair_key(ps[t]).push(decimal_digits(t as nat)),
    ensures
        positions_of(ps, p).finite(),
        group_keys(gv, kv, pair_key(p)).len() == positions_of(ps, p).len(),
{
    let d = positions_of(ps, p);
    let f = |t: int| pair_key(p).push(decimal_digits(t as nat));
    vstd::set_lib::lemma_int_range(0, ps.len() as int);
    vstd::set_lib::lemma_len_subset(d, vstd::set_lib::set_int_range(0, ps.len() as int));
    assert(vstd::relations::injective_on(f, d)) by {
        assert forall|x: int, y: int| d.contains(x) && d.contains(y) && #[trigger] f(x) == #[trigger] f(y) implies x == y by {
            assert(f(x)[2] == f(y)[2]);
            lemma_decimal_digits_injective(x as nat, y as nat);
        }
    }
    assert(d.map(f) =~= group_keys(gv, kv, pair_key(p))) by {
        assert forall|k: Seq<Seq<char>>| #[trigger] d.map(f).contains(k) implies group_keys(gv, kv, pair_key(p)).contains(k) by {
            let t = choose|t: int| d.contains(t) && k == f(t);
            assert(gv[t] == pair_key(p));
        }
        assert forall|k: Seq<Seq<char>>| #[trigger] group_keys(gv, kv, pair_key(p)).contains(k) implies d.map(f).contains(k) by {
            let t = choose|t: int| 0 <= t < kv.len() && #[trigger] gv[t] == pair_key(p) && k == kv[t];
            lemma_pair_key_injective(ps[t], p);
            assert(d.contains(t));
        }
    }
    vstd::set_lib::lemma_map_size(d, d.map(f), f);
}

/// `res` holds one entry per evaluation example, each with the number of
/// records that name it, largest count first.
pub open spec fn counted_examples(res: Seq<((String, usize), usize)>, ps: Seq<(Seq<char>, nat)>) -> bool {
    &&& forall|a: int, b: int| 0 <= a < b < res.len() ==> (#[trigger] res[a]).1 >= (#[trigger] res[b]).1
    &&& forall|a: int|
        0 <= a < res.len() ==> ps.contains(((#[trigger] res[a]).0.0@, res[a].0.1 as nat)) && res[a].1 == positions_of(
            ps,
            (res[a].0.0@, res[a].0.1 as nat),
        ).len()
    &&& forall|a: int, b: int|
        0 <= a < b < res.len() ==> ((#[trigger] res[a]).0.0@, res[a].0.1) != ((#[trigger] res[b]).0.0@, res[b].0.1)
    &&& forall|t: int| 0 <= t < ps.len() ==> listed_examples(res).contains(#[trigger] ps[t])
}

/// The evaluation examples that the entries of `res` name.
pub open spec fn listed_examples(res: Seq<((String, usize), usize)>) -> Seq<(Seq<char>, nat)> {
    res.map_values(|e: ((String, usize), usize)| (e.0.0@, e.0.1 as nat))
}

proof fn lemma_examples_counts(
    res: Seq<((String, usize), usize)>,
    counted: Seq<(usize, usize)>,
    gv: Seq<Seq<Seq<char>>>,
    kv: Seq<Seq<Seq<char>>>,
    ps: Seq<(Seq<char>, nat)>,
)
    requires
        gv.len() == kv.len() == ps.len(),
        forall|t: int| 0 <= t < gv.len() ==> #[trigger] gv[t] == pair_key(ps[t]),
        forall|t: int| 0 <= t < kv.len() ==> #[trigger] kv[t] == pair_key(ps[t]).push(decimal_digits(t as nat)),
        res.len() == counted.len(),
        forall|b: int|
            0 <= b < res.len() ==> (#[trigger] res[b]).1 == counted[b].0 && (res[b].0.0@, res[b].0.1 as nat)
                == ps[counted[b].1 as int],
        grouped(gv, kv, counted),
    ensures
        forall|a: int|
            0 <= a < res.len() ==> ps.contains(((#[trigger] res[a]).0.0@, res[a].0.1 as nat)) && res[a].1 == positions_of(
                ps,
                (res[a].0.0@, res[a].0.1 as nat),
            ).len(),
{
    reveal(grouped);
        assert forall|a: int| 0 <= a < res.len() implies ps.contains(((#[trigger] res[a]).0.0@, res[a].0.1 as nat))
        && res[a].1 == positions_of(ps, (res[a].0.0@, res[a].0.1 as nat)).len() by {
        let rep = counted[a].1 as int;
        assert(ps.contains(ps[rep]));
        lemma_position_count(gv, kv, ps, ps[rep]);
    }
}

proof fn lemma_examples_counted(
    res: Seq<((String, usize), usize)>,
    counted: Seq<(usize, usize)>,
    gv: Seq<Seq<Seq<char>>>,
    kv: Seq<Seq<Seq<char>>>,
    ps: Seq<(Seq<char>, nat)>,
)
    requires
        gv.len() == kv.len() == ps.len(),
        forall|t: int| 0 <= t < gv.len() ==> #[trigger] gv[t] == pair_key(ps[t]),
        forall|t: int| 0 <= t < kv.len() ==> #[trigger] kv[t] == pair_key(ps[t]).push(decimal_digits(t as nat)),
        res.len() == counted.len(),
        forall|b: int|
            0 <= b < res.len() ==> (#[trigger] res[b]).1 == counted[b].0 && (res[b].0.0@, res[b].0.1 as nat)
                == ps[counted[b].1 as int],
        grouped(gv, kv, counted),
    ensures
        counted_examples(res, ps),
{
    lemma_examples_counts(res, counted, gv, kv, ps);
    reveal(grouped);
    assert forall|a: int, b: int| 0 <= a < b < res.len() implies ((#[trigger] res[a]).0.0@, res[a].0.1) != (
    (#[trigger] res[b]).0.0@, res[b].0.1) by {
        let x = counted[a].1 as int;
        let y = counted[b].1 as int;
        assert(gv[x] != gv[y]);
        assert(res[a].0.0@ == ps[x].0 && res[a].0.1 as nat == ps[x].1);
        assert(res[b].0.0@ == ps[y].0 && res[b].0.1 as nat == ps[y].1);
        if res[a].0.0@ == res[b].0.0@ && res[a].0.1 == res[b].0.1 {
            assert(ps[x] == ps[y]);
        }
    }
    assert forall|u: int| 0 <= u < ps.len() implies listed_examples(res).contains(#[trigger] ps[u]) by {
        assert(covered(gv, counted, u));
        let a = choose|a: int| 0 <= a < counted.len() && gv[(#[trigger] counted[a]).1 as int] == gv[u];
        let x = counted[a].1 as int;
        assert(gv[x] == pair_key(ps[x]));
        assert(gv[u] == pair_key(ps[u]));
        lemma_pair_key_injective(ps[x], ps[u]);
        assert(res[a].0.0@ == ps[x].0 && res[a].0.1 as nat == ps[x].1);
        assert(listed_examples(res)[a] == ps[u]);
    }
    assert forall|a: int, b: int| 0 <= a < b < res.len() implies (#[trigger] res[a]).1 >= (#[trigger] res[b]).1 by {
        assert(sorted_by_count(counted));
    }
}


/// How many records name each evaluation example (eval dataset and eval
/// line), most named first, one entry per example.
pub fn count_eval_examples(results: &Vec<ContaminationRecord>) -> (res: Vec<((String, usize), usize)>)
    ensures
        counted_examples(res@, examples_view(results@)),
{
    let ghost ps = examples_view(results@);
    let mut groups: Vec<Vec<Vec<char>>> = Vec::new();
    let mut keys: Vec<Vec<Vec<char>>> = Vec::new();
    let mut t: usize = 0;
    while t < results.len()
        invariant
            t <= results@.len(),
            ps == examples_view(results@),
            groups@.len() == t,
            keys@.len() == t,
            forall|u: int| 0 <= u < t ==> #[trigger] keys_view(groups@)[u] == pair_key(ps[u]),
            forall|u: int| 0 <= u < t ==> #[trigger] keys_view(keys@)[u] == pair_key(ps[u]).push(decimal_digits(u as nat)),
        decreases results@.len() - t,
    {
        let r = &results[t];
        let g = make_pair_key(r.eval_dataset.as_str(), r.eval_line);
        let mut k = make_pair_key(r.eval_dataset.as_str(), r.eval_line);
        let ghost k0 = key_view(k);
        k.push(decimal(t));
        proof {
            assert(key_view(k) =~= k0.push(decimal_digits(t as nat)));
        }
        let ghost old_groups = groups@;
        let ghost old_keys = keys@;
        groups.push(g);
        keys.push(k);
        proof {
            assert forall|u: int| 0 <= u < t + 1 implies #[trigger] keys_view(groups@)[u] == pair_key(ps[u]) by {
                if u < t {
                    assert(groups@[u] == old_groups[u]);
                    assert(keys_view(old_groups)[u] == key_view(old_groups[u]));
                }
            }
            assert forall|u: int| 0 <= u < t + 1 implies #[trigger] keys_view(keys@)[u] == pair_key(ps[u]).push(decimal_digits(u as nat)) by {
                if u < t {
                    assert(keys@[u] == old_keys[u]);
                    assert(keys_view(old_keys)[u] == key_view(old_keys[u]));
                }
            }
        }
        t = t + 1;
    }
    proof {
        assert forall|u: int| 0 <= u < groups@.len() implies key_view(#[trigger] groups@[u]).len() == 2 by {
            assert(keys_view(groups@)[u] == key_view(groups@[u]));
        }
        assert forall|u: int| 0 <= u < keys@.len() implies key_view(#[trigger] keys@[u]).len() >= 2 && key_view(keys@[u]).take(2)
            == key_view(groups@[u]) by {
            assert(keys_view(groups@)[u] == key_view(groups@[u]));
            assert(keys_view(keys@)[u] == key_view(keys@[u]));
            assert(key_view(keys@[u]).take(2) =~= pair_key(ps[u]));
        }
    }
    let ghost gv = keys_view(groups@);
    let ghost kv = keys_view(keys@);
    let counted = count_by_group(&groups, keys, Ghost(2));
    proof {
        reveal(grouped);
    }
    let mut res: Vec<((String, usize), usize)> = Vec::new();
    let mut a: usize = 0;
    while a < counted.len()
        invariant
            a <= counted@.len(),
            res@.len() == a,
            results@.len() == groups@.len(),
            ps == examples_view(results@),
            forall|b: int|
                0 <= b < a ==> (#[trigger] res@[b]).1 == counted@[b].0 && (res@[b].0.0@, res@[b].0.1 as nat)
                    == ps[counted@[b].1 as int],
            forall|b: int| 0 <= b < counted@.len() ==> (#[trigger] counted@[b]).1 < groups@.len(),
        decreases counted@.len() - a,
    {
        let (c, rep) = counted[a];
        let r = &results[rep];
        res.push(((r.eval_dataset.clone(), r.eval_line), c));
        a = a + 1;
    }
    proof {
        lemma_examples_counted(res@, counted@, gv, kv, ps);
    }
    res
}

/// The prompt n-gram match counts of the records that carry one, in order.
pub open spec fn match_counts(s: Seq<ContaminationRecord>) -> Seq<usize>
    decreases s.len(),
{
    if s.len() == 0 {
        Seq::empty()
    } else {
        let rest = match_counts(s.drop_last());
        match s.last().ngram_match_cnt {
            Some(c) => rest.push(c),
            None => rest,
        }
    }
}

/// How many of the numbers lie in `lo..=hi`.
pub open spec fn count_in(v: Seq<usize>, lo: nat, hi: nat) -> nat {
    v.filter(|c: usize| lo <= c && c <= hi).len()
}

/// The ranges of the match-count histogram: lower bound, upper bound, label.
pub open spec fn bucket(k: int) -> (nat, nat, Seq<char>) {
    if k == 0 {
        (1, 5, "1-5"@)
    } else if k == 1 {
        (6, 10, "6-10"@)
    } else if k == 2 {
        (11, 20, "11-20"@)
    } else if k == 3 {
        (21, 50, "21-50"@)
    } else if k == 4 {
        (51, 100, "51-100"@)
    } else if k == 5 {
        (101, 200, "101-200"@)
    } else if k == 6 {
        (201, 500, "201-500"@)
    } else {
        (501, usize::MAX as nat, "500+"@)
    }
}

/// The number of histogram ranges.
pub const BUCKET_COUNT: usize = 8;

/// The first `k` ranges that hold some of the numbers, each with its label
/// and how many numbers it holds.
pub open spec fn histogram(v: Seq<usize>, k: nat) -> Seq<(Seq<char>, nat)>
    decreases k,
{
    if k == 0 {
        Seq::empty()
    } else {
        let h = histogram(v, (k - 1) as nat);
        let (lo, hi, label) = bucket(k - 1);
        let c = count_in(v, lo, hi);
        if c > 0 {
            h.push((label, c))
        } else {
            h
        }
    }
}

/// The bounds and label of histogram range `k`.
fn bucket_exec(k: usize) -> (b: (usize, usize, String))
    requires
        k < BUCKET_COUNT,
    ensures
        b.0 as nat == bucket(k as int).0,
        b.1 as nat == bucket(k as int).1,
        b.2@ == bucket(k as int).2,
{
    if k == 0 {
        (1, 5, String::from_str("1-5"))
    } else if k == 1 {
        (6, 10, String::from_str("6-10"))
    } else if k == 2 {
        (11, 20, String::from_str("11-20"))
    } else if k == 3 {
        (21, 50, String::from_str("21-50"))
    } else if k == 4 {
        (51, 100, String::from_str("51-100"))
    } else if k == 5 {
        (101, 200, String::from_str("101-200"))
    } else if k == 6 {
        (201, 500, String::from_str("201-500"))
    } else {
        (501, usize::MAX, String::from_str("500+"))
    }
}

/// How many of the numbers lie in `lo..=hi`.
pub(crate) fn count_between(v: &Vec<usize>, lo: usize, hi: usize) -> (c: usize)
    ensures
        c as nat == count_in(v@, lo as nat, hi as nat),
{
    let ghost p = |c: usize| lo as nat <= c && c <= hi as nat;
    let mut c: usize = 0;
    let mut i: usize = 0;
    assert(v@.take(0).filter(p) =~= Seq::<usize>::empty());
    while i < v.len()
        invariant
            i <= v@.len(),
            p == (|c: usize| lo as nat <= c && c <= hi as nat),
            c as nat == v@.take(i as int).filter(p).len(),
            c <= i,
        decreases v@.len() - i,
    {
        proof {
            assert(v@.take(i + 1) =~= v@.take(i as int).push(v@[i as int]));
            v@.take(i as int).lemma_filter_push(v@[i as int], p);
        }
        if lo <= v[i] && v[i] <= hi {
            c = c + 1;
        }
        i = i + 1;
    }
    assert(v@.take(v@.len() as int) =~= v@);
    c
}

/// How the prompt n-gram match counts of a report are spread.
pub struct NgramMatchSummary {
    /// The match counts, smallest first.
    pub sorted_counts: Vec<usize>,
    /// Records without a match count.
    pub missing: usize,
    pub min: usize,
    pub max: usize,
    pub median: usize,
    /// The histogram ranges that hold some counts, with their labels.
    pub buckets: Vec<(String, usize)>,
}

/// The median of ascending numbers: the middle one, or the mean of the two
/// middle ones rounded down.
pub open spec fn median_of(v: Seq<usize>) -> int {
    let n = v.len() as int;
    if n % 2 == 0 {
        (v[n / 2 - 1] + v[n / 2]) / 2
    } else {
        v[n / 2] as int
    }
}

/// Sums up the prompt n-gram match counts of a report; nothing when no
/// record carries one.
pub fn summarize_ngram_matches(results: &Vec<ContaminationRecord>) -> (res: Option<NgramMatchSummary>)
    ensures
        res is None <==> match_counts(results@).len() == 0,
        res matches Some(m) ==> {
            &&& sorted_ascending(m.sorted_counts@)
            &&& m.sorted_counts@.to_multiset() == match_counts(results@).to_multiset()
            &&& m.sorted_counts@.len() > 0
            &&& m.missing == results@.len() - match_counts(results@).len()
            &&& m.min == m.sorted_counts@[0]
            &&& m.max == m.sorted_counts@.last()
            &&& m.median == median_of(m.sorted_counts@)
            &&& m.min <= m.median <= m.max
            &&& m.buckets@.map_values(|b: (String, usize)| (b.0@, b.1 as nat)) == histogram(
                m.sorted_counts@,
                BUCKET_COUNT as nat,
            )
        },
{
    let mut counts: Vec<usize> = Vec::new();
    let mut missing: usize = 0;
    let mut i: usize = 0;
    while i < results.len()
        invariant
            i <= results@.len(),
            counts@ == match_counts(results@.take(i as int)),
            missing + counts@.len() == i,
        decreases results@.len() - i,
    {
        proof {
            assert(results@.take(i + 1).drop_last() =~= results@.take(i as int));
        }
        match results[i].ngram_match_cnt {
            Some(c) => counts.push(c),
            None => missing = missing + 1,
        }
        i = i + 1;
    }
    assert(results@.take(results@.len() as int) =~= results@);
    if counts.len() == 0 {
        return None;
    }
    let ghost unsorted = counts@;
    let sorted = sort_ascending(counts);
    proof {
        sorted@.to_multiset_ensures();
        unsorted.to_multiset_ensures();
    }
    let n = sorted.len();
    let min = sorted[0];
    let max = sorted[n - 1];
    let median = if n % 2 == 0 {
        let a = sorted[n / 2 - 1];
        let b = sorted[n / 2];
        a / 2 + b / 2 + (a % 2 + b % 2) / 2
    } else {
        sorted[n / 2]
    };
    proof {
        let v = sorted@;
        let len = v.len() as int;
        if len % 2 == 0 {
            let a = v[len / 2 - 1];
            let b = v[len / 2];
            assert(v[0] <= a <= b <= v[len - 1]);
            assert(a <= (a + b) / 2 <= b);
        } else {
            assert(v[0] <= v[len / 2] <= v[len - 1]);
        }
    }
    let mut buckets: Vec<(String, usize)> = Vec::new();
    let mut k: usize = 0;
    while k < BUCKET_COUNT
        invariant
            k <= BUCKET_COUNT,
            buckets@.map_values(|b: (String, usize)| (b.0@, b.1 as nat)) == histogram(sorted@, k as nat),
        decreases BUCKET_COUNT - k,
    {
        let (lo, hi, label) = bucket_exec(k);
        let c = count_between(&sorted, lo, hi);
        let ghost before = buckets@;
        if c > 0 {
            buckets.push((label, c));
            proof {
                assert(buckets@.map_values(|b: (String, usize)| (b.0@, b.1 as nat)) =~= before.map_values(
                    |b: (String, usize)| (b.0@, b.1 as nat),
                ).push((bucket(k as int).2, c as nat)));
            }
        }
        k = k + 1;
    }
    Some(NgramMatchSummary { sorted_counts: sorted, missing, min, max, median, buckets })
}

} // verus!
