//! How many evaluation documents each question n-gram points at: the spread
//! that decides which n-grams are too common to start a cluster on.

use vstd::prelude::*;
use crate::review::{count_between, count_in};
use crate::sort::{sort_ascending, sorted_ascending};

verus! {

/// The size ranges of the bucket histogram: lower bound, upper bound, label.
pub open spec fn size_range(k: int) -> (nat, nat, Seq<char>) {
    if k == 0 {
        (1, 10, "1-10 docs"@)
    } else if k == 1 {
        (11, 50, "11-50 docs"@)
    } else if k == 2 {
        (51, 100, "51-100 docs"@)
    } else if k == 3 {
        (101, 500, "101-500 docs"@)
    } else {
        (501, usize::MAX as nat, "500+ docs"@)
    }
}

/// The number of size ranges.
pub const SIZE_RANGE_COUNT: usize = 5;

/// The histogram rows: each range with how many buckets it holds. A bucket
/// counts in its range only up to `usize::MAX - 1` documents.
pub open spec fn size_histogram(sizes: Seq<usize>) -> Seq<(nat, nat, Seq<char>, nat)> {
    Seq::new(
        SIZE_RANGE_COUNT as nat,
        |k: int| {
            let (lo, hi, label) = size_range(k);
            let top = if hi < usize::MAX { hi } else { (usize::MAX - 1) as nat };
            (lo, hi, label, count_in(sizes, lo, top))
        },
    )
}

/// The spread of bucket sizes.
pub struct HotBucketStats {
    pub total_ngrams: usize,
    /// The bucket sizes, smallest first.
    pub sorted_sizes: Vec<usize>,
    /// Each size range: lower bound, upper bound, label, number of buckets.
    pub bucket_histogram: Vec<(usize, usize, String, usize)>,
    /// The size in the middle (the upper middle one for an even count), or 0.
    pub median_bucket_size: usize,
    /// The largest size, or 0.
    pub max_bucket_size: usize,
}

fn size_range_exec(k: usize) -> (r: (usize, usize, String))
    requires
        k < SIZE_RANGE_COUNT,
    ensures
        r.0 as nat == size_range(k as int).0,
        r.1 as nat == size_range(k as int).1,
        r.2@ == size_range(k as int).2,
{
    if k == 0 {
        (1, 10, String::from_str("1-10 docs"))
    } else if k == 1 {
        (11, 50, String::from_str("11-50 docs"))
    } else if k == 2 {
        (51, 100, String::from_str("51-100 docs"))
    } else if k == 3 {
        (101, 500, String::from_str("101-500 docs"))
    } else {
        (501, usize::MAX, String::from_str("500+ docs"))
    }
}

/// Sums up the sizes of the n-gram buckets (the number of documents each
/// question n-gram points at).
pub fn analyze(bucket_sizes: Vec<usize>) -> (res: HotBucketStats)
    ensures
        res.total_ngrams == bucket_sizes@.len(),
        sorted_ascending(res.sorted_sizes@),
        res.sorted_sizes@.to_multiset() == bucket_sizes@.to_multiset(),
        res.median_bucket_size == if bucket_sizes@.len() == 0 {
            0
        } else {
            res.sorted_sizes@[bucket_sizes@.len() as int / 2]
        },
        res.max_bucket_size == if bucket_sizes@.len() == 0 {
            0
        } else {
            res.sorted_sizes@.last()
        },
        res.bucket_histogram@.map_values(|r: (usize, usize, String, usize)| (r.0 as nat, r.1 as nat, r.2@, r.3 as nat))
            == size_histogram(res.sorted_sizes@),
{
    let total_ngrams = bucket_sizes.len();
    let ghost initial_sizes = bucket_sizes@;
    let sorted = sort_ascending(bucket_sizes);
    proof {
        sorted@.to_multiset_ensures();
        initial_sizes.to_multiset_ensures();
    }
    let n = sorted.len();
    let median_bucket_size = if n > 0 { sorted[n / 2] } else { 0 };
    let max_bucket_size = if n > 0 { sorted[n - 1] } else { 0 };
    let mut bucket_histogram: Vec<(usize, usize, String, usize)> = Vec::new();
    let mut k: usize = 0;
    while k < SIZE_RANGE_COUNT
        invariant
            k <= SIZE_RANGE_COUNT,
            bucket_histogram@.len() == k,
            forall|j: int|
                0 <= j < k ==> ((#[trigger] bucket_histogram@[j]).0 as nat, bucket_histogram@[j].1 as nat,
                bucket_histogram@[j].2@, bucket_histogram@[j].3 as nat) == size_histogram(sorted@)[j],
        decreases SIZE_RANGE_COUNT - k,
    {
        let (lo, hi, label) = size_range_exec(k);
        let top = if hi < usize::MAX { hi } else { usize::MAX - 1 };
        let c = count_between(&sorted, lo, top);
        bucket_histogram.push((lo, hi, label, c));
        k = k + 1;
    }
    let res = HotBucketStats { total_ngrams, sorted_sizes: sorted, bucket_histogram, median_bucket_size, max_bucket_size };
    assert(res.bucket_histogram@.map_values(|r: (usize, usize, String, usize)| (r.0 as nat, r.1 as nat, r.2@, r.3 as nat))
        =~= size_histogram(res.sorted_sizes@));
    res
}

} // verus!
