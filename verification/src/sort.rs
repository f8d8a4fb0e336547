//! Sorting counted items, largest count first, and plain counts, smallest
//! first.

use vstd::prelude::*;
use vstd::multiset::Multiset;

verus! {

/// Whether pairs are ordered by their first number, largest first.
pub open spec fn sorted_by_count(s: Seq<(usize, usize)>) -> bool {
    forall|i: int, j: int| 0 <= i < j < s.len() ==> s[i].0 >= s[j].0
}

fn merge(a: Vec<(usize, usize)>, b: Vec<(usize, usize)>) -> (r: Vec<(usize, usize)>)
    requires
        sorted_by_count(a@),
        sorted_by_count(b@),
    ensures
        sorted_by_count(r@),
        r@.to_multiset() == a@.to_multiset().add(b@.to_multiset()),
{
    broadcast use vstd::seq_lib::group_to_multiset_ensures;
    broadcast use vstd::multiset::group_multiset_axioms;

    let mut r: Vec<(usize, usize)> = Vec::new();
    let mut i: usize = 0;
    let mut j: usize = 0;
    assert(a@.take(0) =~= Seq::<(usize, usize)>::empty());
    assert(b@.take(0) =~= Seq::<(usize, usize)>::empty());
    assert(r@.to_multiset() =~= a@.take(0).to_multiset().add(b@.take(0).to_multiset()));
    while i < a.len() || j < b.len()
        invariant
            i <= a@.len(),
            j <= b@.len(),
            sorted_by_count(a@),
            sorted_by_count(b@),
            sorted_by_count(r@),
            r@.to_multiset() == a@.take(i as int).to_multiset().add(b@.take(j as int).to_multiset()),
            forall|k: int| 0 <= k < r@.len() ==> (i < a@.len() ==> (#[trigger] r@[k]).0 >= a@[i as int].0),
            forall|k: int| 0 <= k < r@.len() ==> (j < b@.len() ==> (#[trigger] r@[k]).0 >= b@[j as int].0),
        decreases a@.len() - i + b@.len() - j,
    {
        if j >= b.len() || (i < a.len() && a[i].0 >= b[j].0) {
            let x = a[i];
            let ghost before = r@;
            r.push(x);
            proof {
                assert(a@.take(i + 1) =~= a@.take(i as int).push(x));
                assert(r@ == before.push(x));
                a@.take(i as int).to_multiset_ensures();
                before.to_multiset_ensures();
                assert(a@.take(i + 1).to_multiset() =~= a@.take(i as int).to_multiset().insert(x));
                assert(r@.to_multiset() =~= before.to_multiset().insert(x));
                assert(r@.to_multiset() =~= a@.take(i + 1).to_multiset().add(b@.take(j as int).to_multiset()));
            }
            i = i + 1;
        } else {
            let x = b[j];
            let ghost before = r@;
            r.push(x);
            proof {
                assert(b@.take(j + 1) =~= b@.take(j as int).push(x));
                assert(r@ == before.push(x));
                b@.take(j as int).to_multiset_ensures();
                before.to_multiset_ensures();
                assert(b@.take(j + 1).to_multiset() =~= b@.take(j as int).to_multiset().insert(x));
                assert(r@.to_multiset() =~= before.to_multiset().insert(x));
                assert(r@.to_multiset() =~= a@.take(i as int).to_multiset().add(b@.take(j + 1).to_multiset()));
            }
            j = j + 1;
        }
    }
    assert(a@.take(a@.len() as int) =~= a@);
    assert(b@.take(b@.len() as int) =~= b@);
    r
}

/// Sorts pairs by their first number, largest first; the result holds the
/// same pairs.
pub fn sort_by_count(v: Vec<(usize, usize)>) -> (r: Vec<(usize, usize)>)
    ensures
        sorted_by_count(r@),
        r@.to_multiset() == v@.to_multiset(),
    decreases v@.len(),
{
    if v.len() <= 1 {
        return v;
    }
    let ghost whole = v@;
    let mut left = v;
    let mid = left.len() / 2;
    let right = left.split_off(mid);
    proof {
        assert(whole =~= left@ + right@);
        vstd::seq_lib::lemma_multiset_commutative(left@, right@);
    }
    let l = sort_by_count(left);
    let r = sort_by_count(right);
    merge(l, r)
}

/// Whether numbers are in ascending order.
pub open spec fn sorted_ascending(s: Seq<usize>) -> bool {
    forall|i: int, j: int| 0 <= i < j < s.len() ==> s[i] <= s[j]
}

fn merge_ascending(a: Vec<usize>, b: Vec<usize>) -> (r: Vec<usize>)
    requires
        sorted_ascending(a@),
        sorted_ascending(b@),
    ensures
        sorted_ascending(r@),
        r@.to_multiset() == a@.to_multiset().add(b@.to_multiset()),
{
    broadcast use vstd::seq_lib::group_to_multiset_ensures;
    broadcast use vstd::multiset::group_multiset_axioms;

    let mut r: Vec<usize> = Vec::new();
    let mut i: usize = 0;
    let mut j: usize = 0;
    assert(a@.take(0) =~= Seq::<usize>::empty());
    assert(b@.take(0) =~= Seq::<usize>::empty());
    assert(r@.to_multiset() =~= a@.take(0).to_multiset().add(b@.take(0).to_multiset()));
    while i < a.len() || j < b.len()
        invariant
            i <= a@.len(),
            j <= b@.len(),
            sorted_ascending(a@),
            sorted_ascending(b@),
            sorted_ascending(r@),
            r@.to_multiset() == a@.take(i as int).to_multiset().add(b@.take(j as int).to_multiset()),
            forall|k: int| 0 <= k < r@.len() ==> (i < a@.len() ==> #[trigger] r@[k] <= a@[i as int]),
            forall|k: int| 0 <= k < r@.len() ==> (j < b@.len() ==> #[trigger] r@[k] <= b@[j as int]),
        decreases a@.len() - i + b@.len() - j,
    {
        if j >= b.len() || (i < a.len() && a[i] <= b[j]) {
            let x = a[i];
            let ghost before = r@;
            r.push(x);
            proof {
                assert(a@.take(i + 1) =~= a@.take(i as int).push(x));
                assert(r@ == before.push(x));
                a@.take(i as int).to_multiset_ensures();
                before.to_multiset_ensures();
                assert(a@.take(i + 1).to_multiset() =~= a@.take(i as int).to_multiset().insert(x));
                assert(r@.to_multiset() =~= before.to_multiset().insert(x));
                assert(r@.to_multiset() =~= a@.take(i + 1).to_multiset().add(b@.take(j as int).to_multiset()));
            }
            i = i + 1;
        } else {
            let x = b[j];
            let ghost before = r@;
            r.push(x);
            proof {
                assert(b@.take(j + 1) =~= b@.take(j as int).push(x));
                assert(r@ == before.push(x));
                b@.take(j as int).to_multiset_ensures();
                before.to_multiset_ensures();
                assert(b@.take(j + 1).to_multiset() =~= b@.take(j as int).to_multiset().insert(x));
                assert(r@.to_multiset() =~= before.to_multiset().insert(x));
                assert(r@.to_multiset() =~= a@.take(i as int).to_multiset().add(b@.take(j + 1).to_multiset()));
            }
            j = j + 1;
        }
    }
    assert(a@.take(a@.len() as int) =~= a@);
    assert(b@.take(b@.len() as int) =~= b@);
    r
}

/// Sorts numbers, smallest first; the result holds the same numbers.
pub fn sort_ascending(v: Vec<usize>) -> (r: Vec<usize>)
    ensures
        sorted_ascending(r@),
        r@.to_multiset() == v@.to_multiset(),
    decreases v@.len(),
{
    if v.len() <= 1 {
        return v;
    }
    let ghost whole = v@;
    let mut left = v;
    let mid = left.len() / 2;
    let right = left.split_off(mid);
    proof {
        assert(whole =~= left@ + right@);
        vstd::seq_lib::lemma_multiset_commutative(left@, right@);
    }
    let l = sort_ascending(left);
    let r = sort_ascending(right);
    merge_ascending(l, r)
}

} // verus!
