//! A hash set of text keys, each a sequence of strings, kept in buckets by
//! the hash of the key.

use std::collections::hash_map::DefaultHasher;
use std::collections::HashMap;
use std::hash::Hasher;
use vstd::prelude::*;
use vstd::std_specs::hash::DefaultHasherAdditionalSpecFns;

verus! {

/// The four little-endian bytes of a character's code.
pub open spec fn char_bytes(c: char) -> Seq<u8> {
    Seq::new(4, |k: int| ((c as u32 >> (8 * k) as u32) & 0xff) as u8)
}

/// The writes that hashing a key performs: each character of each part,
/// then a marker after each part.
pub open spec fn key_writes(key: Seq<Seq<char>>) -> Seq<Seq<u8>>
    decreases key.len(),
{
    if key.len() == 0 {
        Seq::empty()
    } else {
        key_writes(key.drop_last()) + key.last().map_values(|c: char| char_bytes(c)) + seq![seq![0xffu8]]
    }
}

/// The hash of a key.
pub open spec fn key_hash(key: Seq<Seq<char>>) -> u64 {
    DefaultHasher::spec_finish(key_writes(key))
}

/// The abstract value of a key.
pub open spec fn key_view(key: Vec<Vec<char>>) -> Seq<Seq<char>> {
    key@.map_values(|p: Vec<char>| p@)
}

/// A set of text keys.
pub struct TextKeySet {
    buckets: HashMap<u64, Vec<Vec<Vec<char>>>>,
}

fn char_to_bytes(c: char) -> (res: Vec<u8>)
    ensures
        res@ == char_bytes(c),
{
    let v: u32 = c as u32;
    let mut res: Vec<u8> = Vec::new();
    let mut k: u32 = 0;
    while k < 4
        invariant
            k <= 4,
            v == c as u32,
            res@.len() == k,
            forall|j: int| 0 <= j < k ==> res@[j] == ((v >> (8 * j) as u32) & 0xff) as u8,
        decreases 4 - k,
    {
        res.push(((v >> (8 * k)) & 0xff) as u8);
        k = k + 1;
    }
    assert(res@ =~= char_bytes(c));
    res
}

/// Hashes a text key.
pub fn hash_key(key: &Vec<Vec<char>>) -> (h: u64)
    ensures
        h == key_hash(key_view(*key)),
{
    let mut hasher = DefaultHasher::new();
    let mut i: usize = 0;
    assert(hasher@ =~= key_writes(key_view(*key).take(0)));
    while i < key.len()
        invariant
            i <= key@.len(),
            hasher@ == key_writes(key_view(*key).take(i as int)),
        decreases key@.len() - i,
    {
        let part = &key[i];
        let ghost start = hasher@;
        let mut j: usize = 0;
        while j < part.len()
            invariant
                j <= part@.len(),
                hasher@ == start + part@.take(j as int).map_values(|c: char| char_bytes(c)),
            decreases part@.len() - j,
        {
            let b = char_to_bytes(part[j]);
            hasher.write(b.as_slice());
            proof {
                assert(part@.take(j + 1).map_values(|c: char| char_bytes(c)) =~= part@.take(
                    j as int,
                ).map_values(|c: char| char_bytes(c)).push(char_bytes(part@[j as int])));
            }
            j = j + 1;
        }
        let marker: [u8; 1] = [0xff];
        hasher.write(&marker);
        proof {
            let kv = key_view(*key);
            assert(part@.take(part@.len() as int) =~= part@);
            assert(kv.take(i + 1).drop_last() =~= kv.take(i as int));
            assert(kv.take(i + 1).last() == part@);
            assert(marker@ =~= seq![0xffu8]);
        }
        i = i + 1;
    }
    assert(key_view(*key).take(key@.len() as int) =~= key_view(*key));
    hasher.finish()
}

fn same_text(a: &Vec<char>, b: &Vec<char>) -> (res: bool)
    ensures
        res == (a@ == b@),
{
    if a.len() != b.len() {
        return false;
    }
    let mut i: usize = 0;
    while i < a.len()
        invariant
            i <= a@.len(),
            a@.len() == b@.len(),
            forall|j: int| 0 <= j < i ==> a@[j] == b@[j],
        decreases a@.len() - i,
    {
        if a[i] != b[i] {
            return false;
        }
        i = i + 1;
    }
    assert(a@ =~= b@);
    true
}

pub(crate) fn same_key(a: &Vec<Vec<char>>, b: &Vec<Vec<char>>) -> (res: bool)
    ensures
        res == (key_view(*a) == key_view(*b)),
{
    if a.len() != b.len() {
        assert(key_view(*a).len() != key_view(*b).len());
        return false;
    }
    let mut i: usize = 0;
    while i < a.len()
        invariant
            i <= a@.len(),
            a@.len() == b@.len(),
            forall|j: int| 0 <= j < i ==> a@[j]@ == b@[j]@,
        decreases a@.len() - i,
    {
        if !same_text(&a[i], &b[i]) {
            assert(key_view(*a)[i as int] != key_view(*b)[i as int]);
            return false;
        }
        i = i + 1;
    }
    assert(key_view(*a) =~= key_view(*b));
    true
}

/// The keys held by a map of buckets.
pub open spec fn bucket_keys(m: Map<u64, Vec<Vec<Vec<char>>>>) -> Set<Seq<Seq<char>>> {
    Set::new(
        |k: Seq<Seq<char>>|
            m.contains_key(key_hash(k)) && exists|i: int|
                0 <= i < m[key_hash(k)]@.len() && key_view(#[trigger] m[key_hash(k)]@[i]) == k,
    )
}

/// Whether every key of a map of buckets sits in the bucket of its hash.
pub open spec fn buckets_wf(m: Map<u64, Vec<Vec<Vec<char>>>>) -> bool {
    forall|h: u64, i: int|
        m.contains_key(h) && 0 <= i < m[h]@.len() ==> key_hash(key_view(#[trigger] m[h]@[i])) == h
}

proof fn lemma_same_buckets(m1: Map<u64, Vec<Vec<Vec<char>>>>, m2: Map<u64, Vec<Vec<Vec<char>>>>)
    requires
        m1.dom() == m2.dom(),
        forall|g: u64| #[trigger] m1.contains_key(g) ==> m1[g]@ == m2[g]@,
    ensures
        bucket_keys(m1) == bucket_keys(m2),
        buckets_wf(m1) == buckets_wf(m2),
{
    assert forall|k: Seq<Seq<char>>| #![auto] bucket_keys(m1).contains(k) <==> bucket_keys(m2).contains(k) by {
        let g = key_hash(k);
        if m1.contains_key(g) {
            assert(m1[g]@ == m2[g]@);
            if bucket_keys(m1).contains(k) {
                let i = choose|i: int| 0 <= i < m1[g]@.len() && key_view(#[trigger] m1[g]@[i]) == k;
                assert(m2[g]@[i] == m1[g]@[i]);
            }
            if bucket_keys(m2).contains(k) {
                let i = choose|i: int| 0 <= i < m2[g]@.len() && key_view(#[trigger] m2[g]@[i]) == k;
                assert(m2[g]@[i] == m1[g]@[i]);
            }
        }
    }
    assert(bucket_keys(m1) =~= bucket_keys(m2));
    if buckets_wf(m1) {
        assert forall|h: u64, i: int| m2.contains_key(h) && 0 <= i < m2[h]@.len() implies key_hash(key_view(#[trigger] m2[h]@[i])) == h by {
            assert(m1[h]@ == m2[h]@);
            assert(m1[h]@[i] == m2[h]@[i]);
        }
    }
    if buckets_wf(m2) {
        assert forall|h: u64, i: int| m1.contains_key(h) && 0 <= i < m1[h]@.len() implies key_hash(key_view(#[trigger] m1[h]@[i])) == h by {
            assert(m1[h]@ == m2[h]@);
            assert(m1[h]@[i] == m2[h]@[i]);
        }
    }
}

impl TextKeySet {
    /// The keys in the set.
    pub closed spec fn view(&self) -> Set<Seq<Seq<char>>> {
        bucket_keys(self.buckets@)
    }

    /// Every key sits in the bucket of its hash.
    pub closed spec fn wf(&self) -> bool {
        buckets_wf(self.buckets@)
    }

    /// An empty set.
    pub fn new() -> (s: Self)
        ensures
            s.wf(),
            s.view() == Set::<Seq<Seq<char>>>::empty(),
    {
        let s = TextKeySet { buckets: HashMap::new() };
        assert(s.view() =~= Set::<Seq<Seq<char>>>::empty());
        s
    }

    /// Whether a key is in the set.
    pub fn contains(&self, key: &Vec<Vec<char>>) -> (res: bool)
        requires
            self.wf(),
        ensures
            res == self@.contains(key_view(*key)),
    {
        let ghost k = key_view(*key);
        let h = hash_key(key);
        match self.buckets.get(&h) {
            None => {
                assert(!self@.contains(k));
                false
            },
            Some(bucket) => {
                let ghost b = self.buckets@[h];
                let mut i: usize = 0;
                while i < bucket.len()
                    invariant
                        i <= bucket@.len(),
                        *bucket == b,
                        self.buckets@.contains_key(h),
                        self.buckets@[h] == b,
                        h == key_hash(k),
                        k == key_view(*key),
                        forall|j: int| 0 <= j < i ==> key_view(#[trigger] bucket@[j]) != k,
                    decreases bucket@.len() - i,
                {
                    if same_key(&bucket[i], key) {
                        assert(key_view(self.buckets@[h]@[i as int]) == k);
                        return true;
                    }
                    i = i + 1;
                }
                assert(!self@.contains(k)) by {
                    if self@.contains(k) {
                        let j = choose|j: int| 0 <= j < self.buckets@[key_hash(k)]@.len() && key_view(#[trigger] self.buckets@[key_hash(k)]@[j]) == k;
                        assert(bucket@[j] == b@[j]);
                    }
                }
                false
            },
        }
    }

    /// Adds a key; tells whether it was not in the set before.
    pub fn insert(&mut self, key: Vec<Vec<char>>) -> (added: bool)
        requires
            old(self).wf(),
        ensures
            final(self).wf(),
            added == !old(self).view().contains(key_view(key)),
            final(self).view() == old(self).view().insert(key_view(key)),
    {
        let ghost k = key_view(key);
        let h = hash_key(&key);
        let ghost before = self.buckets@;
        let mut bucket = match self.buckets.remove(&h) {
            Some(b) => b,
            None => Vec::new(),
        };
        let ghost bucket0 = bucket@;
        assert(before.contains_key(h) ==> bucket0 == before[h]@);
        assert(!before.contains_key(h) ==> bucket0 == Seq::<Vec<Vec<char>>>::empty());
        let mut i: usize = 0;
        while i < bucket.len()
            invariant
                i <= bucket@.len(),
                bucket@ == bucket0,
                k == key_view(key),
                h == key_hash(k),
                before == old(self).buckets@,
                buckets_wf(before),
                self.buckets@ == before.remove(h),
                before.contains_key(h) ==> bucket0 == before[h]@,
                !before.contains_key(h) ==> bucket0 == Seq::<Vec<Vec<char>>>::empty(),
                forall|j: int| 0 <= j < i ==> key_view(bucket@[j]) != k,
            decreases bucket@.len() - i,
        {
            if same_key(&bucket[i], &key) {
                self.buckets.insert(h, bucket);
                proof {
                    assert(before.contains_key(h));
                    assert(self.buckets@.dom() =~= before.dom());
                    assert forall|g: u64| #[trigger] self.buckets@.contains_key(g) implies self.buckets@[g]@ == before[g]@ by {
                        if g != h {
                            assert(self.buckets@[g] == before[g]);
                        }
                    }
                    lemma_same_buckets(self.buckets@, before);
                    assert(key_view(self.buckets@[h]@[i as int]) == k);
                    assert(self.view().contains(k));
                    assert(self.view() =~= self.view().insert(k));
                }
                return false;
            }
            i = i + 1;
        }
        bucket.push(key);
        self.buckets.insert(h, bucket);
        proof {
            let after = self.buckets@;
            assert(after[h]@ == bucket0.push(key));
            assert(!old(self).view().contains(k)) by {
                if old(self).view().contains(k) {
                    let j = choose|j: int|
                        0 <= j < before[h]@.len() && key_view(#[trigger] before[h]@[j]) == k;
                    assert(bucket0[j] == before[h]@[j]);
                }
            }
            assert forall|x: Seq<Seq<char>>| #![auto] self.view().contains(x) <==> old(self).view().insert(k).contains(x) by {
                if x == k {
                    assert(key_view(after[h]@[bucket0.len() as int]) == k);
                } else if key_hash(x) == h {
                    if self.view().contains(x) {
                        let j = choose|j: int| 0 <= j < after[h]@.len() && key_view(#[trigger] after[h]@[j]) == x;
                        assert(j < bucket0.len());
                        assert(before[h]@[j] == after[h]@[j]);
                    }
                    if old(self).view().contains(x) {
                        let j = choose|j: int| 0 <= j < before[h]@.len() && key_view(#[trigger] before[h]@[j]) == x;
                        assert(after[h]@[j] == before[h]@[j]);
                    }
                } else {
                    if before.contains_key(key_hash(x)) {
                        assert(after[key_hash(x)] == before[key_hash(x)]);
                    }
                }
            }
            assert(self.view() =~= old(self).view().insert(k));
            assert forall|g: u64, j: int|
                after.contains_key(g) && 0 <= j < after[g]@.len() implies key_hash(
                key_view(#[trigger] after[g]@[j]),
            ) == g by {
                if g == h {
                    if j < bucket0.len() {
                        assert(after[g]@[j] == before[h]@[j]);
                    }
                } else {
                    assert(before.contains_key(g));
                    assert(after[g] == before[g]);
                }
            }
        }
        true
    }
}

} // verus!
