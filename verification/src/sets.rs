//! Small helpers over std hash sets and maps of document and n-gram ids.

use std::collections::{HashMap, HashSet};
use vstd::prelude::*;
use vstd::std_specs::iter::IteratorSpec;

verus! {

/// The abstract value of an `Option` lookup into a map.
pub open spec fn mget<V>(m: Map<u32, V>, k: u32) -> Option<V> {
    if m.contains_key(k) {
        Some(m[k])
    } else {
        None
    }
}

/// The sets of a map from ids to hash sets, each taken by its view.
pub open spec fn sets_view(m: Map<u32, HashSet<u32>>) -> Map<u32, Set<u32>> {
    Map::new(|k: u32| m.contains_key(k), |k: u32| m[k]@)
}

/// Lists the elements of a set, each once.
pub fn set_elements(s: &HashSet<u32>) -> (v: Vec<u32>)
    ensures
        v@.to_set() == s@,
        v@.no_duplicates(),
{
    let mut v: Vec<u32> = Vec::new();
    let ghost keys = s.iter().remaining().unref();
    proof {
        broadcast use vstd::std_specs::hash::axiom_spec_hash_keys_iter;
        assert(keys.to_set() == s@);
    }
    for x in it: s.iter()
        invariant
            it.seq().unref() == keys,
            v@ == keys.take(it.index()),
            keys.no_duplicates(),
            keys.to_set() == s@,
    {
        v.push(*x);
        proof {
            assert(v@ =~= keys.take(it.index() + 1));
        }
    }
    proof {
        assert(v@ =~= keys);
    }
    v
}

/// Builds a hash set holding exactly the elements of a sequence.
pub fn set_from_vec(v: &Vec<u32>) -> (s: HashSet<u32>)
    ensures
        s@ == v@.to_set(),
{
    let mut s: HashSet<u32> = HashSet::new();
    let mut i: usize = 0;
    while i < v.len()
        invariant
            i <= v@.len(),
            s@ == v@.take(i as int).to_set(),
        decreases v@.len() - i,
    {
        s.insert(v[i]);
        proof {
            assert(v@.take(i + 1) =~= v@.take(i as int).push(v@[i as int]));
            v@.take(i as int).lemma_push_to_set_commute(v@[i as int]);
        }
        i = i + 1;
    }
    assert(v@.take(v@.len() as int) =~= v@);
    s
}

} // verus!
