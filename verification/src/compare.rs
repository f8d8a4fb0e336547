//! Headline numbers for comparing two contamination reports, where an
//! evaluation instance is told apart by its suite, split and instance index.

use vstd::prelude::*;
use crate::display::{decimal, decimal_digits};
use crate::keyset::{key_view, TextKeySet};
use crate::review::{
    count_pairs_per_name, counted_by_name, lemma_decimal_digits_injective, lemma_keys_len, lemma_pair_keys_insert,
    lemma_training_docs_step, make_pair_key, pair_keys, suite_of, suites_view, training_docs, ContaminationMetrics,
    ContaminationRecord, pairs_view,
};
use crate::tokenizer::strings_view;
use crate::text::{chars_of, string_from_chars};
use crate::json::same_chars;

verus! {

/// The split of a record, `unknown` where the report has none.
pub open spec fn split_of(r: ContaminationRecord) -> Seq<char> {
    match r.split {
        Some(s) => s@,
        None => "unknown"@,
    }
}

/// The evaluation instance a record points at: suite, split and instance
/// index.
pub open spec fn suite_instance(r: ContaminationRecord) -> (Seq<char>, Seq<char>, nat) {
    (suite_of(r), split_of(r), r.eval_instance_index.unwrap() as nat)
}

/// The distinct evaluation instances named by some records.
pub open spec fn suite_instances(s: Seq<ContaminationRecord>) -> Set<(Seq<char>, Seq<char>, nat)> {
    Set::new(|d: (Seq<char>, Seq<char>, nat)| exists|j: int| 0 <= j < s.len() && d == suite_instance(#[trigger] s[j]))
}

/// Two texts and a number as one key.
pub open spec fn triple_key(d: (Seq<char>, Seq<char>, nat)) -> Seq<Seq<char>> {
    seq![d.0, d.1, decimal_digits(d.2)]
}

/// The keys of a set of triples.
pub open spec fn triple_keys(ds: Set<(Seq<char>, Seq<char>, nat)>) -> Set<Seq<Seq<char>>> {
    ds.map(|d: (Seq<char>, Seq<char>, nat)| triple_key(d))
}

proof fn lemma_triple_keys_len(ds: Set<(Seq<char>, Seq<char>, nat)>)
    requires
        ds.finite(),
    ensures
        triple_keys(ds).finite(),
        triple_keys(ds).len() == ds.len(),
{
    let f = |d: (Seq<char>, Seq<char>, nat)| triple_key(d);
    assert(vstd::relations::injective_on(f, ds)) by {
        assert forall|p: (Seq<char>, Seq<char>, nat), q: (Seq<char>, Seq<char>, nat)|
            ds.contains(p) && ds.contains(q) && #[trigger] f(p) == #[trigger] f(q) implies p == q by {
            assert(f(p)[0] == f(q)[0]);
            assert(f(p)[1] == f(q)[1]);
            assert(f(p)[2] == f(q)[2]);
            lemma_decimal_digits_injective(p.2, q.2);
        }
    }
    vstd::set_lib::lemma_map_size(ds, triple_keys(ds), f);
}

proof fn lemma_triple_keys_insert(ds: Set<(Seq<char>, Seq<char>, nat)>, d: (Seq<char>, Seq<char>, nat))
    ensures
        triple_keys(ds.insert(d)) == triple_keys(ds).insert(triple_key(d)),
{
    assert(triple_keys(ds.insert(d)) =~= triple_keys(ds).insert(triple_key(d))) by {
        assert forall|k: Seq<Seq<char>>| #[trigger] triple_keys(ds.insert(d)).contains(k)
            implies triple_keys(ds).insert(triple_key(d)).contains(k) by {
            let e = choose|e: (Seq<char>, Seq<char>, nat)| ds.insert(d).contains(e) && k == triple_key(e);
            if e != d {
                assert(ds.contains(e));
            }
        }
        assert forall|k: Seq<Seq<char>>| #[trigger] triple_keys(ds).insert(triple_key(d)).contains(k)
            implies triple_keys(ds.insert(d)).contains(k) by {
            if k != triple_key(d) {
                let e = choose|e: (Seq<char>, Seq<char>, nat)| ds.contains(e) && k == triple_key(e);
                assert(ds.insert(d).contains(e));
            } else {
                assert(ds.insert(d).contains(d));
            }
        }
    }
}

proof fn lemma_suite_instances_step(s: Seq<ContaminationRecord>, i: int)
    requires
        0 <= i < s.len(),
    ensures
        suite_instances(s.take(i + 1)) == suite_instances(s.take(i)).insert(suite_instance(s[i])),
{
    let a = s.take(i);
    let b = s.take(i + 1);
    assert(b[i] == s[i]);
    assert(suite_instances(b) =~= suite_instances(a).insert(suite_instance(s[i]))) by {
        assert forall|d: (Seq<char>, Seq<char>, nat)| #[trigger] suite_instances(b).contains(d)
            implies suite_instances(a).insert(suite_instance(s[i])).contains(d) by {
            let j = choose|j: int| 0 <= j < b.len() && d == suite_instance(#[trigger] b[j]);
            if j < i {
                assert(a[j] == b[j]);
            }
        }
        assert forall|d: (Seq<char>, Seq<char>, nat)| #[trigger] suite_instances(a).insert(suite_instance(s[i])).contains(d)
            implies suite_instances(b).contains(d) by {
            if d != suite_instance(s[i]) {
                let j = choose|j: int| 0 <= j < a.len() && d == suite_instance(#[trigger] a[j]);
                assert(b[j] == a[j]);
            }
        }
    }
}

/// Counts the report lines, the distinct training documents and the distinct
/// evaluation instances (suite, split, instance index) that they name. Every
/// line must carry its instance index.
pub fn compute_contamination_metrics(results: &Vec<ContaminationRecord>) -> (m: ContaminationMetrics)
    requires
        forall|j: int| 0 <= j < results@.len() ==> (#[trigger] results@[j]).eval_instance_index is Some,
    ensures
        m.training_docs_contaminated == training_docs(results@).len(),
        m.contamination_instances == results@.len(),
        m.training_docs_contaminated <= m.contamination_instances,
        m.contaminated_evals <= m.contamination_instances,
        m.contaminated_evals == suite_instances(results@).len(),
        training_docs(results@).finite(),
        suite_instances(results@).finite(),
{
    let mut docs = TextKeySet::new();
    let mut evals = TextKeySet::new();
    let mut n_docs: usize = 0;
    let mut n_evals: usize = 0;
    proof {
        assert(training_docs(results@.take(0)) =~= Set::<(Seq<char>, nat)>::empty());
        assert(suite_instances(results@.take(0)) =~= Set::<(Seq<char>, Seq<char>, nat)>::empty());
        assert(pair_keys(Set::<(Seq<char>, nat)>::empty()) =~= Set::<Seq<Seq<char>>>::empty());
        assert(triple_keys(Set::<(Seq<char>, Seq<char>, nat)>::empty()) =~= Set::<Seq<Seq<char>>>::empty());
    }
    let mut i: usize = 0;
    while i < results.len()
        invariant
            i <= results@.len(),
            forall|j: int| 0 <= j < results@.len() ==> (#[trigger] results@[j]).eval_instance_index is Some,
            docs.wf(),
            evals.wf(),
            training_docs(results@.take(i as int)).finite(),
            suite_instances(results@.take(i as int)).finite(),
            docs@ == pair_keys(training_docs(results@.take(i as int))),
            evals@ == triple_keys(suite_instances(results@.take(i as int))),
            docs@.finite(),
            evals@.finite(),
            n_docs as nat == docs@.len(),
            n_evals as nat == evals@.len(),
            n_docs <= i,
            n_evals <= i,
        decreases results@.len() - i,
    {
        let r = &results[i];
        let instance = match r.eval_instance_index {
            Some(x) => x,
            None => 0,
        };
        let suite = match &r.eval_key {
            Some(k) => chars_of(k.as_str()),
            None => chars_of(r.eval_dataset.as_str()),
        };
        let split = match &r.split {
            Some(s) => chars_of(s.as_str()),
            None => chars_of("unknown"),
        };
        let key = vec![suite, split, decimal(instance)];
        proof {
            assert(key_view(key) =~= triple_key(suite_instance(results@[i as int])));
            lemma_training_docs_step(results@, i as int);
            lemma_suite_instances_step(results@, i as int);
            lemma_pair_keys_insert(training_docs(results@.take(i as int)), (r.training_file@, r.training_line as nat));
            lemma_triple_keys_insert(suite_instances(results@.take(i as int)), suite_instance(results@[i as int]));
        }
        let added_doc = docs.insert(make_pair_key(r.training_file.as_str(), r.training_line));
        if added_doc {
            n_docs = n_docs + 1;
        }
        let added_eval = evals.insert(key);
        if added_eval {
            n_evals = n_evals + 1;
        }
        i = i + 1;
    }
    proof {
        assert(results@.take(results@.len() as int) =~= results@);
        lemma_keys_len(training_docs(results@));
        lemma_triple_keys_len(suite_instances(results@));
    }
    ContaminationMetrics {
        training_docs_contaminated: n_docs,
        contamination_instances: results.len(),
        contaminated_evals: n_evals,
    }
}

/// What tells two report lines apart when two reports are compared:
/// training file and line, eval dataset and line.
pub open spec fn comparison_tuple(r: ContaminationRecord) -> (Seq<char>, nat, Seq<char>, nat) {
    (r.training_file@, r.training_line as nat, r.eval_dataset@, r.eval_line as nat)
}

/// The comparison tuple as one key.
pub open spec fn comparison_key(r: ContaminationRecord) -> Seq<Seq<char>> {
    seq![r.training_file@, decimal_digits(r.training_line as nat), r.eval_dataset@, decimal_digits(r.eval_line as nat)]
}

/// The keys of some report lines.
spec fn comparison_keys(s: Seq<ContaminationRecord>, upto: int) -> Set<Seq<Seq<char>>> {
    Set::new(|k: Seq<Seq<char>>| exists|j: int| 0 <= j < upto && k == comparison_key(#[trigger] s[j]))
}

proof fn lemma_comparison_key_injective(a: ContaminationRecord, b: ContaminationRecord)
    requires
        comparison_key(a) == comparison_key(b),
    ensures
        comparison_tuple(a) == comparison_tuple(b),
{
    assert(comparison_key(a)[0] == comparison_key(b)[0]);
    assert(comparison_key(a)[1] == comparison_key(b)[1]);
    assert(comparison_key(a)[2] == comparison_key(b)[2]);
    assert(comparison_key(a)[3] == comparison_key(b)[3]);
    lemma_decimal_digits_injective(a.training_line as nat, b.training_line as nat);
    lemma_decimal_digits_injective(a.eval_line as nat, b.eval_line as nat);
}

fn make_comparison_key(r: &ContaminationRecord) -> (k: Vec<Vec<char>>)
    ensures
        key_view(k) == comparison_key(*r),
{
    let k = vec![
        chars_of(r.training_file.as_str()),
        decimal(r.training_line),
        chars_of(r.eval_dataset.as_str()),
        decimal(r.eval_line),
    ];
    assert(key_view(k) =~= comparison_key(*r));
    k
}

/// For each line of `records`, whether `other` holds a line with the same
/// training file and line and the same eval dataset and line.
pub fn keys_present(records: &Vec<ContaminationRecord>, other: &Vec<ContaminationRecord>) -> (res: Vec<bool>)
    ensures
        res@.len() == records@.len(),
        forall|i: int|
            0 <= i < records@.len() ==> (#[trigger] res@[i] <==> exists|j: int|
                0 <= j < other@.len() && comparison_tuple(#[trigger] other@[j]) == comparison_tuple(records@[i])),
{
    let mut set = TextKeySet::new();
    let mut j: usize = 0;
    assert(comparison_keys(other@, 0) =~= Set::<Seq<Seq<char>>>::empty());
    while j < other.len()
        invariant
            j <= other@.len(),
            set.wf(),
            set@ == comparison_keys(other@, j as int),
        decreases other@.len() - j,
    {
        let k = make_comparison_key(&other[j]);
        set.insert(k);
        assert(set@ =~= comparison_keys(other@, j + 1)) by {
            assert forall|x: Seq<Seq<char>>| #[trigger] comparison_keys(other@, j + 1).contains(x) implies set@.contains(x) by {
                let u = choose|u: int| 0 <= u < j + 1 && x == comparison_key(#[trigger] other@[u]);
                if u < j {
                    assert(comparison_keys(other@, j as int).contains(x));
                }
            }
            assert forall|x: Seq<Seq<char>>| #[trigger] set@.contains(x) implies comparison_keys(other@, j + 1).contains(x) by {
                if x != comparison_key(other@[j as int]) {
                    let u = choose|u: int| 0 <= u < j && x == comparison_key(#[trigger] other@[u]);
                }
            }
        }
        j = j + 1;
    }
    let mut res: Vec<bool> = Vec::new();
    let mut i: usize = 0;
    while i < records.len()
        invariant
            i <= records@.len(),
            set.wf(),
            set@ == comparison_keys(other@, other@.len() as int),
            res@.len() == i,
            forall|t: int|
                0 <= t < i ==> (#[trigger] res@[t] <==> exists|j: int|
                    0 <= j < other@.len() && comparison_tuple(#[trigger] other@[j]) == comparison_tuple(records@[t])),
        decreases records@.len() - i,
    {
        let k = make_comparison_key(&records[i]);
        let present = set.contains(&k);
        proof {
            if present {
                let u = choose|u: int| 0 <= u < other@.len() && comparison_key(records@[i as int]) == comparison_key(#[trigger] other@[u]);
                lemma_comparison_key_injective(records@[i as int], other@[u]);
            } else {
                assert forall|u: int| 0 <= u < other@.len() implies comparison_tuple(#[trigger] other@[u]) != comparison_tuple(records@[i as int]) by {
                    if comparison_tuple(other@[u]) == comparison_tuple(records@[i as int]) {
                        assert(comparison_key(other@[u]) =~= comparison_key(records@[i as int]));
                        assert(comparison_keys(other@, other@.len() as int).contains(comparison_key(other@[u])));
                    }
                }
            }
        }
        res.push(present);
        i = i + 1;
    }
    res
}

/// The split and instance index of each record.
pub open spec fn split_instances_view(s: Seq<ContaminationRecord>) -> Seq<(Seq<char>, nat)> {
    s.map_values(|r: ContaminationRecord| (split_of(r), r.eval_instance_index.unwrap() as nat))
}

/// For each suite, the number of distinct (split, instance index) pairs
/// that its records name, largest first, one entry per suite. Every record
/// must carry its instance index.
pub fn suite_split_instance_counts(results: &Vec<ContaminationRecord>) -> (res: Vec<(String, usize)>)
    requires
        forall|j: int| 0 <= j < results@.len() ==> (#[trigger] results@[j]).eval_instance_index is Some,
    ensures
        counted_by_name(res@, suites_view(results@), split_instances_view(results@)),
{
    let mut names: Vec<String> = Vec::new();
    let mut texts: Vec<String> = Vec::new();
    let mut nums: Vec<usize> = Vec::new();
    let mut t: usize = 0;
    while t < results.len()
        invariant
            t <= results@.len(),
            forall|j: int| 0 <= j < results@.len() ==> (#[trigger] results@[j]).eval_instance_index is Some,
            names@.len() == t && texts@.len() == t && nums@.len() == t,
            forall|u: int| 0 <= u < t ==> (#[trigger] names@[u])@ == suite_of(results@[u]),
            forall|u: int|
                0 <= u < t ==> (#[trigger] texts@[u])@ == split_of(results@[u]) && nums@[u] as nat
                    == results@[u].eval_instance_index.unwrap() as nat,
        decreases results@.len() - t,
    {
        let r = &results[t];
        let name = match &r.eval_key {
            Some(k) => k.clone(),
            None => r.eval_dataset.clone(),
        };
        let split = match &r.split {
            Some(s) => s.clone(),
            None => String::from_str("unknown"),
        };
        let instance = match r.eval_instance_index {
            Some(x) => x,
            None => 0,
        };
        let ghost split_text = split@;
        assert(split_text == split_of(results@[t as int]));
        names.push(name);
        texts.push(split);
        nums.push(instance);
        assert(texts@[t as int]@ == split_of(results@[t as int]));
        t = t + 1;
    }
    proof {
        assert(strings_view(names@) =~= suites_view(results@));
        assert(pairs_view(texts@, nums@) =~= split_instances_view(results@));
    }
    count_pairs_per_name(&names, &texts, &nums)
}

/// The count of the first entry with a name, or zero.
pub open spec fn count_of(rows: Seq<(String, usize)>, name: Seq<char>) -> nat
    decreases rows.len(),
{
    if rows.len() == 0 {
        0
    } else if rows[0].0@ == name {
        rows[0].1 as nat
    } else {
        count_of(rows.drop_first(), name)
    }
}

/// Whether some entry has a name.
pub open spec fn has_name(rows: Seq<(String, usize)>, name: Seq<char>) -> bool {
    exists|i: int| 0 <= i < rows.len() && (#[trigger] rows[i]).0@ == name
}

/// The names of the second list that the first lacks, in order.
pub open spec fn new_names(first: Seq<(String, usize)>, second: Seq<(String, usize)>) -> Seq<Seq<char>>
    decreases second.len(),
{
    if second.len() == 0 {
        Seq::empty()
    } else {
        let rest = new_names(first, second.drop_last());
        if has_name(first, second.last().0@) {
            rest
        } else {
            rest.push(second.last().0@)
        }
    }
}

/// The names of a change table: those of the first list, then those of the
/// second that the first lacks.
pub open spec fn change_names(first: Seq<(String, usize)>, second: Seq<(String, usize)>) -> Seq<Seq<char>> {
    first.map_values(|r: (String, usize)| r.0@) + new_names(first, second)
}

/// The row of a name: its counts in both lists and the change between them.
pub open spec fn change_row(first: Seq<(String, usize)>, second: Seq<(String, usize)>, name: Seq<char>) -> (
    Seq<char>,
    nat,
    nat,
    int,
) {
    (name, count_of(first, name), count_of(second, name), count_of(second, name) - count_of(first, name))
}

/// The abstract form of change rows.
pub open spec fn change_rows_view(rows: Seq<(String, usize, usize, i64)>) -> Seq<(Seq<char>, nat, nat, int)> {
    rows.map_values(|r: (String, usize, usize, i64)| (r.0@, r.1 as nat, r.2 as nat, r.3 as int))
}

/// Whether counts fit the signed change.
pub open spec fn counts_fit(rows: Seq<(String, usize)>) -> bool {
    forall|i: int| 0 <= i < rows.len() ==> (#[trigger] rows[i]).1 <= i64::MAX
}

fn count_in(rows: &Vec<(String, usize)>, name: &Vec<char>) -> (c: usize)
    ensures
        c == count_of(rows@, name@),
{
    let mut i: usize = 0;
    assert(rows@.skip(0) =~= rows@);
    while i < rows.len()
        invariant
            i <= rows@.len(),
            count_of(rows@, name@) == count_of(rows@.skip(i as int), name@),
        decreases rows@.len() - i,
    {
        proof {
            assert(rows@.skip(i as int)[0] == rows@[i as int]);
            assert(rows@.skip(i as int).drop_first() =~= rows@.skip(i + 1));
        }
        if same_chars(&chars_of(rows[i].0.as_str()), name) {
            return rows[i].1;
        }
        i = i + 1;
    }
    assert(rows@.skip(i as int).len() == 0);
    0
}

fn has_name_in(rows: &Vec<(String, usize)>, name: &Vec<char>) -> (res: bool)
    ensures
        res == has_name(rows@, name@),
{
    let mut i: usize = 0;
    while i < rows.len()
        invariant
            i <= rows@.len(),
            forall|j: int| 0 <= j < i ==> (#[trigger] rows@[j]).0@ != name@,
        decreases rows@.len() - i,
    {
        if same_chars(&chars_of(rows[i].0.as_str()), name) {
            assert(rows@[i as int].0@ == name@);
            return true;
        }
        i = i + 1;
    }
    false
}

proof fn lemma_count_bound(rows: Seq<(String, usize)>, name: Seq<char>)
    requires
        counts_fit(rows),
    ensures
        count_of(rows, name) <= i64::MAX,
    decreases rows.len(),
{
    if rows.len() > 0 {
        assert(rows[0].1 <= i64::MAX);
        let d = rows.drop_first();
        assert forall|i: int| 0 <= i < d.len() implies (#[trigger] d[i]).1 <= i64::MAX by {
            assert(d[i] == rows[i + 1]);
        }
        lemma_count_bound(d, name);
    }
}

fn make_change_row(first: &Vec<(String, usize)>, second: &Vec<(String, usize)>, name: &Vec<char>) -> (r: (
    String,
    usize,
    usize,
    i64,
))
    requires
        counts_fit(first@),
        counts_fit(second@),
    ensures
        (r.0@, r.1 as nat, r.2 as nat, r.3 as int) == change_row(first@, second@, name@),
{
    let c1 = count_in(first, name);
    let c2 = count_in(second, name);
    proof {
        lemma_count_bound(first@, name@);
        lemma_count_bound(second@, name@);
    }
    let n = name.len();
    let s = string_from_chars(name, 0, n);
    assert(name@.subrange(0, n as int) =~= name@);
    (s, c1, c2, c2 as i64 - c1 as i64)
}

proof fn lemma_insert_multiset<A>(s: Seq<A>, p: int, x: A)
    requires
        0 <= p <= s.len(),
    ensures
        s.insert(p, x).to_multiset() == s.to_multiset().insert(x),
{
    let a = s.take(p);
    let b = s.skip(p);
    assert(s =~= a + b);
    assert(s.insert(p, x) =~= a + (seq![x] + b));
    vstd::seq_lib::lemma_multiset_commutative(a, b);
    vstd::seq_lib::lemma_multiset_commutative(seq![x], b);
    vstd::seq_lib::lemma_multiset_commutative(a, seq![x] + b);
    assert(seq![x].to_multiset() =~= vstd::multiset::Multiset::<A>::empty().insert(x)) by {
        broadcast use vstd::seq_lib::group_to_multiset_ensures;
        assert(seq![x] =~= Seq::<A>::empty().push(x));
    }
    assert(s.insert(p, x).to_multiset() =~= s.to_multiset().insert(x));
}

/// The change table of two lists of per-suite counts: one row for each name
/// of the first list and each name of the second that the first lacks,
/// with both counts (zero where a list lacks the name) and the change from
/// the first to the second; largest increase first.
pub fn suite_count_changes(first: &Vec<(String, usize)>, second: &Vec<(String, usize)>) -> (rows: Vec<(
    String,
    usize,
    usize,
    i64,
)>)
    requires
        counts_fit(first@),
        counts_fit(second@),
    ensures
        change_rows_view(rows@).to_multiset() == change_names(first@, second@).map_values(
            |n: Seq<char>| change_row(first@, second@, n),
        ).to_multiset(),
        forall|i: int, j: int|
            0 <= i < j < rows@.len() ==> (#[trigger] rows@[i]).3 >= (#[trigger] rows@[j]).3,
{
    let ghost f = |n: Seq<char>| change_row(first@, second@, n);
    let mut names: Vec<Vec<char>> = Vec::new();
    let mut i: usize = 0;
    while i < first.len()
        invariant
            i <= first@.len(),
            names@.map_values(|v: Vec<char>| v@) == first@.take(i as int).map_values(|r: (String, usize)| r.0@),
        decreases first@.len() - i,
    {
        names.push(chars_of(first[i].0.as_str()));
        proof {
            assert(first@.take(i + 1).map_values(|r: (String, usize)| r.0@) =~= first@.take(i as int).map_values(
                |r: (String, usize)| r.0@,
            ).push(first@[i as int].0@));
            assert(names@.map_values(|v: Vec<char>| v@) =~= first@.take(i as int).map_values(
                |r: (String, usize)| r.0@,
            ).push(first@[i as int].0@));
        }
        i = i + 1;
    }
    assert(first@.take(first@.len() as int) =~= first@);
    let ghost base = names@.map_values(|v: Vec<char>| v@);
    let mut k: usize = 0;
    while k < second.len()
        invariant
            k <= second@.len(),
            base == first@.map_values(|r: (String, usize)| r.0@),
            names@.map_values(|v: Vec<char>| v@) == base + new_names(first@, second@.take(k as int)),
        decreases second@.len() - k,
    {
        let name = chars_of(second[k].0.as_str());
        proof {
            assert(second@.take(k + 1).drop_last() =~= second@.take(k as int));
            assert(second@.take(k + 1).last() == second@[k as int]);
        }
        if !has_name_in(first, &name) {
            let ghost before = names@.map_values(|v: Vec<char>| v@);
            names.push(name);
            proof {
                assert(names@.map_values(|v: Vec<char>| v@) =~= before.push(second@[k as int].0@));
            }
        }
        proof {
            assert(base + new_names(first@, second@.take(k + 1)) =~= names@.map_values(|v: Vec<char>| v@));
        }
        k = k + 1;
    }
    assert(second@.take(second@.len() as int) =~= second@);
    let ghost all = names@.map_values(|v: Vec<char>| v@);
    assert(all == change_names(first@, second@));
    let mut rows: Vec<(String, usize, usize, i64)> = Vec::new();
    let mut m: usize = 0;
    proof {
        broadcast use vstd::seq_lib::group_to_multiset_ensures;
        assert(change_rows_view(rows@) =~= Seq::<(Seq<char>, nat, nat, int)>::empty());
        assert(all.take(0).map_values(|n: Seq<char>| change_row(first@, second@, n)) =~= Seq::<
            (Seq<char>, nat, nat, int),
        >::empty());
    }
    while m < names.len()
        invariant
            m <= names@.len(),
            all == names@.map_values(|v: Vec<char>| v@),
            counts_fit(first@),
            counts_fit(second@),
            change_rows_view(rows@).to_multiset() == all.take(m as int).map_values(
                |n: Seq<char>| change_row(first@, second@, n),
            ).to_multiset(),
            forall|i: int, j: int| 0 <= i < j < rows@.len() ==> (#[trigger] rows@[i]).3 >= (#[trigger] rows@[j]).3,
        decreases names@.len() - m,
    {
        let row = make_change_row(first, second, &names[m]);
        let mut p: usize = 0;
        while p < rows.len() && rows[p].3 >= row.3
            invariant
                p <= rows@.len(),
                forall|j: int| 0 <= j < p ==> (#[trigger] rows@[j]).3 >= row.3,
            decreases rows@.len() - p,
        {
            p = p + 1;
        }
        let ghost before = rows@;
        let ghost rv = (row.0@, row.1 as nat, row.2 as nat, row.3 as int);
        rows.insert(p, row);
        proof {
            assert(rows@ =~= before.insert(p as int, row));
            assert(change_rows_view(rows@) =~= change_rows_view(before).insert(p as int, rv));
            lemma_insert_multiset(change_rows_view(before), p as int, rv);
            broadcast use vstd::seq_lib::group_to_multiset_ensures;
            assert(all.take(m + 1).map_values(|n: Seq<char>| change_row(first@, second@, n)) =~= all.take(
                m as int,
            ).map_values(|n: Seq<char>| change_row(first@, second@, n)).push(rv));
            assert(all[m as int] == names@[m as int]@);
            assert forall|i: int, j: int| 0 <= i < j < rows@.len() implies (#[trigger] rows@[i]).3 >= (
            #[trigger] rows@[j]).3 by {
                if p < before.len() {
                    assert(before[p as int].3 < row.3);
                }
                if i < p && j == p {
                    assert(before[i].3 >= row.3);
                } else if i == p && j > p {
                    assert(rows@[j] == before[j - 1]);
                    if p < before.len() {
                        assert(before[p as int].3 >= before[j - 1].3 || j - 1 == p);
                    }
                } else if i < p && j > p {
                    assert(rows@[j] == before[j - 1]);
                } else if i > p {
                    assert(rows@[i] == before[i - 1]);
                    assert(rows@[j] == before[j - 1]);
                }
            }
        }
        m = m + 1;
    }
    assert(all.take(names@.len() as int) =~= all);
    rows
}

} // verus!
