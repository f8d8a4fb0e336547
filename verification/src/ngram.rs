//! N-gram hashing and the question n-gram index lookups.

use std::collections::hash_map::DefaultHasher;
use std::collections::{HashMap, HashSet};
use std::hash::Hasher;
use vstd::prelude::*;
use vstd::std_specs::hash::DefaultHasherAdditionalSpecFns;

verus! {

/// The eight little-endian bytes of a token, as fed to the hasher.
pub open spec fn token_bytes(t: usize) -> Seq<u8> {
    Seq::new(8, |k: int| ((t as u64 >> (8 * k) as u64) & 0xff) as u8)
}

/// The writes that hashing an n-gram performs: its length, then each token.
pub open spec fn ngram_writes(tokens: Seq<usize>) -> Seq<Seq<u8>> {
    seq![token_bytes(tokens.len() as usize)] + tokens.map_values(|t: usize| token_bytes(t))
}

/// The hash of an n-gram of tokens.
pub open spec fn spec_hash_ngram(tokens: Seq<usize>) -> u64 {
    DefaultHasher::spec_finish(ngram_writes(tokens))
}

fn token_to_bytes(t: usize) -> (res: Vec<u8>)
    ensures
        res@ == token_bytes(t),
{
    let v: u64 = t as u64;
    let mut res: Vec<u8> = Vec::new();
    let mut k: u64 = 0;
    while k < 8
        invariant
            k <= 8,
            v == t as u64,
            res@.len() == k,
            forall|j: int| 0 <= j < k ==> res@[j] == ((v >> (8 * j) as u64) & 0xff) as u8,
        decreases 8 - k,
    {
        res.push(((v >> (8 * k)) & 0xff) as u8);
        k = k + 1;
    }
    assert(res@ =~= token_bytes(t));
    res
}

/// Hashes an n-gram of tokens; equal n-grams always hash equally.
pub fn hash_ngram(tokens: &[usize]) -> (res: u64)
    ensures
        res == spec_hash_ngram(tokens@),
{
    let mut hasher = DefaultHasher::new();
    let len_bytes = token_to_bytes(tokens.len());
    hasher.write(len_bytes.as_slice());
    let ghost written = seq![token_bytes(tokens@.len() as usize)];
    let mut i: usize = 0;
    while i < tokens.len()
        invariant
            i <= tokens@.len(),
            hasher@ == written + tokens@.subrange(0, i as int).map_values(|t: usize| token_bytes(t)),
            written == seq![token_bytes(tokens@.len() as usize)],
        decreases tokens@.len() - i,
    {
        let b = token_to_bytes(tokens[i]);
        hasher.write(b.as_slice());
        proof {
            assert(tokens@.subrange(0, i + 1).map_values(|t: usize| token_bytes(t))
                =~= tokens@.subrange(0, i as int).map_values(|t: usize| token_bytes(t)).push(
                token_bytes(tokens@[i as int]),
            ));
        }
        i = i + 1;
    }
    assert(tokens@.subrange(0, tokens@.len() as int) =~= tokens@);
    hasher.finish()
}

} // verus!
