//! Per-worker counters of the detection run and their aggregation.

use vstd::prelude::*;

verus! {

/// Counters kept by one worker during detection.
#[derive(Debug, Clone)]
pub struct ThreadLocalStats {
    pub files_processed: usize,
    pub lines_processed: usize,
    pub contaminations_found: usize,
    pub question_expansion_time_us: u64,
    pub answer_cluster_time_us: u64,
    pub passage_cluster_time_us: u64,
    pub question_expansion_calls: usize,
    pub answer_cluster_calls: usize,
    pub passage_cluster_calls: usize,
    pub left_traversals: usize,
    pub right_traversals: usize,
    pub excluded_no_answer: usize,
    pub excluded_no_passage: usize,
    pub excluded_low_idf_threshold: usize,
}

/// The sums of the counters of all workers that did any work.
#[derive(Debug, Clone)]
pub struct AggregatedStats {
    pub total_files_processed: usize,
    pub total_lines_processed: usize,
    pub total_contaminations_found: usize,
    pub total_question_expansion_time_us: u64,
    pub total_answer_cluster_time_us: u64,
    pub total_passage_cluster_time_us: u64,
    pub total_question_expansion_calls: usize,
    pub total_answer_cluster_calls: usize,
    pub total_passage_cluster_calls: usize,
    pub total_left_traversals: usize,
    pub total_right_traversals: usize,
    pub total_excluded_no_answer: usize,
    pub total_excluded_no_passage: usize,
    pub total_excluded_low_idf_threshold: usize,
}

impl ThreadLocalStats {
    /// Whether all counters are zero.
    pub open spec fn is_zero(&self) -> bool {
        &&& self.files_processed == 0
        &&& self.lines_processed == 0
        &&& self.contaminations_found == 0
        &&& self.question_expansion_time_us == 0
        &&& self.answer_cluster_time_us == 0
        &&& self.passage_cluster_time_us == 0
        &&& self.question_expansion_calls == 0
        &&& self.answer_cluster_calls == 0
        &&& self.passage_cluster_calls == 0
        &&& self.left_traversals == 0
        &&& self.right_traversals == 0
        &&& self.excluded_no_answer == 0
        &&& self.excluded_no_passage == 0
        &&& self.excluded_low_idf_threshold == 0
    }
}

impl Default for ThreadLocalStats {
    fn default() -> (s: Self)
        ensures
            s.is_zero(),
    {
        ThreadLocalStats {
            files_processed: 0,
            lines_processed: 0,
            contaminations_found: 0,
            question_expansion_time_us: 0,
            answer_cluster_time_us: 0,
            passage_cluster_time_us: 0,
            question_expansion_calls: 0,
            answer_cluster_calls: 0,
            passage_cluster_calls: 0,
            left_traversals: 0,
            right_traversals: 0,
            excluded_no_answer: 0,
            excluded_no_passage: 0,
            excluded_low_idf_threshold: 0,
        }
    }
}


/// Whether a worker did any work: processed a file or a line.
pub open spec fn did_work(s: ThreadLocalStats) -> bool {
    s.files_processed > 0 || s.lines_processed > 0
}

/// The sum of a counter over the workers that did any work.
pub open spec fn sum_of(s: Seq<ThreadLocalStats>, f: spec_fn(ThreadLocalStats) -> int) -> int
    decreases s.len(),
{
    if s.len() == 0 {
        0
    } else {
        sum_of(s.drop_last(), f) + if did_work(s.last()) { f(s.last()) } else { 0 }
    }
}

proof fn lemma_sum_prefix(s: Seq<ThreadLocalStats>, f: spec_fn(ThreadLocalStats) -> int, i: int)
    requires
        0 <= i <= s.len(),
        forall|t: ThreadLocalStats| #[trigger] f(t) >= 0,
    ensures
        0 <= sum_of(s.take(i), f) <= sum_of(s, f),
    decreases s.len() - i,
{
    if i < s.len() {
        lemma_sum_prefix(s, f, i + 1);
        assert(s.take(i + 1).drop_last() =~= s.take(i));
        assert(s.take(i + 1).last() == s[i]);
        assert(f(s[i]) >= 0);
        lemma_sum_nonneg(s.take(i), f);
    } else {
        assert(s.take(i) =~= s);
        lemma_sum_nonneg(s, f);
    }
}

proof fn lemma_sum_nonneg(s: Seq<ThreadLocalStats>, f: spec_fn(ThreadLocalStats) -> int)
    requires
        forall|t: ThreadLocalStats| #[trigger] f(t) >= 0,
    ensures
        sum_of(s, f) >= 0,
    decreases s.len(),
{
    if s.len() > 0 {
        lemma_sum_nonneg(s.drop_last(), f);
    }
}

/// The `files_processed` counter.
pub open spec fn c_files_processed(t: ThreadLocalStats) -> int {
    t.files_processed as int
}

/// The `lines_processed` counter.
pub open spec fn c_lines_processed(t: ThreadLocalStats) -> int {
    t.lines_processed as int
}

/// The `contaminations_found` counter.
pub open spec fn c_contaminations_found(t: ThreadLocalStats) -> int {
    t.contaminations_found as int
}

/// The `question_expansion_time_us` counter.
pub open spec fn c_question_expansion_time_us(t: ThreadLocalStats) -> int {
    t.question_expansion_time_us as int
}

/// The `answer_cluster_time_us` counter.
pub open spec fn c_answer_cluster_time_us(t: ThreadLocalStats) -> int {
    t.answer_cluster_time_us as int
}

/// The `passage_cluster_time_us` counter.
pub open spec fn c_passage_cluster_time_us(t: ThreadLocalStats) -> int {
    t.passage_cluster_time_us as int
}

/// The `question_expansion_calls` counter.
pub open spec fn c_question_expansion_calls(t: ThreadLocalStats) -> int {
    t.question_expansion_calls as int
}

/// The `answer_cluster_calls` counter.
pub open spec fn c_answer_cluster_calls(t: ThreadLocalStats) -> int {
    t.answer_cluster_calls as int
}

/// The `passage_cluster_calls` counter.
pub open spec fn c_passage_cluster_calls(t: ThreadLocalStats) -> int {
    t.passage_cluster_calls as int
}

/// The `left_traversals` counter.
pub open spec fn c_left_traversals(t: ThreadLocalStats) -> int {
    t.left_traversals as int
}

/// The `right_traversals` counter.
pub open spec fn c_right_traversals(t: ThreadLocalStats) -> int {
    t.right_traversals as int
}

/// The `excluded_no_answer` counter.
pub open spec fn c_excluded_no_answer(t: ThreadLocalStats) -> int {
    t.excluded_no_answer as int
}

/// The `excluded_no_passage` counter.
pub open spec fn c_excluded_no_passage(t: ThreadLocalStats) -> int {
    t.excluded_no_passage as int
}

/// The `excluded_low_idf_threshold` counter.
pub open spec fn c_excluded_low_idf_threshold(t: ThreadLocalStats) -> int {
    t.excluded_low_idf_threshold as int
}

/// Whether every summed counter fits its type.
pub open spec fn sums_fit(s: Seq<ThreadLocalStats>) -> bool {
    &&& sum_of(s, |t: ThreadLocalStats| c_files_processed(t)) <= usize::MAX
    &&& sum_of(s, |t: ThreadLocalStats| c_lines_processed(t)) <= usize::MAX
    &&& sum_of(s, |t: ThreadLocalStats| c_contaminations_found(t)) <= usize::MAX
    &&& sum_of(s, |t: ThreadLocalStats| c_question_expansion_time_us(t)) <= u64::MAX
    &&& sum_of(s, |t: ThreadLocalStats| c_answer_cluster_time_us(t)) <= u64::MAX
    &&& sum_of(s, |t: ThreadLocalStats| c_passage_cluster_time_us(t)) <= u64::MAX
    &&& sum_of(s, |t: ThreadLocalStats| c_question_expansion_calls(t)) <= usize::MAX
    &&& sum_of(s, |t: ThreadLocalStats| c_answer_cluster_calls(t)) <= usize::MAX
    &&& sum_of(s, |t: ThreadLocalStats| c_passage_cluster_calls(t)) <= usize::MAX
    &&& sum_of(s, |t: ThreadLocalStats| c_left_traversals(t)) <= usize::MAX
    &&& sum_of(s, |t: ThreadLocalStats| c_right_traversals(t)) <= usize::MAX
    &&& sum_of(s, |t: ThreadLocalStats| c_excluded_no_answer(t)) <= usize::MAX
    &&& sum_of(s, |t: ThreadLocalStats| c_excluded_no_passage(t)) <= usize::MAX
    &&& sum_of(s, |t: ThreadLocalStats| c_excluded_low_idf_threshold(t)) <= usize::MAX
}

/// Sums the counters of the workers that processed a file or a line.
pub fn aggregate_stats(thread_stats: &Vec<ThreadLocalStats>) -> (res: AggregatedStats)
    requires
        sums_fit(thread_stats@),
    ensures
        res.total_files_processed == sum_of(thread_stats@, |t: ThreadLocalStats| c_files_processed(t)),
        res.total_lines_processed == sum_of(thread_stats@, |t: ThreadLocalStats| c_lines_processed(t)),
        res.total_contaminations_found == sum_of(thread_stats@, |t: ThreadLocalStats| c_contaminations_found(t)),
        res.total_question_expansion_time_us == sum_of(thread_stats@, |t: ThreadLocalStats| c_question_expansion_time_us(t)),
        res.total_answer_cluster_time_us == sum_of(thread_stats@, |t: ThreadLocalStats| c_answer_cluster_time_us(t)),
        res.total_passage_cluster_time_us == sum_of(thread_stats@, |t: ThreadLocalStats| c_passage_cluster_time_us(t)),
        res.total_question_expansion_calls == sum_of(thread_stats@, |t: ThreadLocalStats| c_question_expansion_calls(t)),
        res.total_answer_cluster_calls == sum_of(thread_stats@, |t: ThreadLocalStats| c_answer_cluster_calls(t)),
        res.total_passage_cluster_calls == sum_of(thread_stats@, |t: ThreadLocalStats| c_passage_cluster_calls(t)),
        res.total_left_traversals == sum_of(thread_stats@, |t: ThreadLocalStats| c_left_traversals(t)),
        res.total_right_traversals == sum_of(thread_stats@, |t: ThreadLocalStats| c_right_traversals(t)),
        res.total_excluded_no_answer == sum_of(thread_stats@, |t: ThreadLocalStats| c_excluded_no_answer(t)),
        res.total_excluded_no_passage == sum_of(thread_stats@, |t: ThreadLocalStats| c_excluded_no_passage(t)),
        res.total_excluded_low_idf_threshold == sum_of(thread_stats@, |t: ThreadLocalStats| c_excluded_low_idf_threshold(t)),
{
    let mut agg = AggregatedStats {
        total_files_processed: 0,
        total_lines_processed: 0,
        total_contaminations_found: 0,
        total_question_expansion_time_us: 0,
        total_answer_cluster_time_us: 0,
        total_passage_cluster_time_us: 0,
        total_question_expansion_calls: 0,
        total_answer_cluster_calls: 0,
        total_passage_cluster_calls: 0,
        total_left_traversals: 0,
        total_right_traversals: 0,
        total_excluded_no_answer: 0,
        total_excluded_no_passage: 0,
        total_excluded_low_idf_threshold: 0,
    };
    let mut i: usize = 0;
    while i < thread_stats.len()
        invariant
            i <= thread_stats@.len(),
            sums_fit(thread_stats@),
            agg.total_files_processed == sum_of(thread_stats@.take(i as int), |t: ThreadLocalStats| c_files_processed(t)),
            agg.total_lines_processed == sum_of(thread_stats@.take(i as int), |t: ThreadLocalStats| c_lines_processed(t)),
            agg.total_contaminations_found == sum_of(thread_stats@.take(i as int), |t: ThreadLocalStats| c_contaminations_found(t)),
            agg.total_question_expansion_time_us == sum_of(thread_stats@.take(i as int), |t: ThreadLocalStats| c_question_expansion_time_us(t)),
            agg.total_answer_cluster_time_us == sum_of(thread_stats@.take(i as int), |t: ThreadLocalStats| c_answer_cluster_time_us(t)),
            agg.total_passage_cluster_time_us == sum_of(thread_stats@.take(i as int), |t: ThreadLocalStats| c_passage_cluster_time_us(t)),
            agg.total_question_expansion_calls == sum_of(thread_stats@.take(i as int), |t: ThreadLocalStats| c_question_expansion_calls(t)),
            agg.total_answer_cluster_calls == sum_of(thread_stats@.take(i as int), |t: ThreadLocalStats| c_answer_cluster_calls(t)),
            agg.total_passage_cluster_calls == sum_of(thread_stats@.take(i as int), |t: ThreadLocalStats| c_passage_cluster_calls(t)),
            agg.total_left_traversals == sum_of(thread_stats@.take(i as int), |t: ThreadLocalStats| c_left_traversals(t)),
            agg.total_right_traversals == sum_of(thread_stats@.take(i as int), |t: ThreadLocalStats| c_right_traversals(t)),
            agg.total_excluded_no_answer == sum_of(thread_stats@.take(i as int), |t: ThreadLocalStats| c_excluded_no_answer(t)),
            agg.total_excluded_no_passage == sum_of(thread_stats@.take(i as int), |t: ThreadLocalStats| c_excluded_no_passage(t)),
            agg.total_excluded_low_idf_threshold == sum_of(thread_stats@.take(i as int), |t: ThreadLocalStats| c_excluded_low_idf_threshold(t)),
        decreases thread_stats@.len() - i,
    {
        let s = &thread_stats[i];
        proof {
            assert(thread_stats@.take(i + 1).drop_last() =~= thread_stats@.take(i as int));
            lemma_sum_prefix(thread_stats@, |t: ThreadLocalStats| c_files_processed(t), i + 1);
            lemma_sum_prefix(thread_stats@, |t: ThreadLocalStats| c_lines_processed(t), i + 1);
            lemma_sum_prefix(thread_stats@, |t: ThreadLocalStats| c_contaminations_found(t), i + 1);
            lemma_sum_prefix(thread_stats@, |t: ThreadLocalStats| c_question_expansion_time_us(t), i + 1);
            lemma_sum_prefix(thread_stats@, |t: ThreadLocalStats| c_answer_cluster_time_us(t), i + 1);
            lemma_sum_prefix(thread_stats@, |t: ThreadLocalStats| c_passage_cluster_time_us(t), i + 1);
            lemma_sum_prefix(thread_stats@, |t: ThreadLocalStats| c_question_expansion_calls(t), i + 1);
            lemma_sum_prefix(thread_stats@, |t: ThreadLocalStats| c_answer_cluster_calls(t), i + 1);
            lemma_sum_prefix(thread_stats@, |t: ThreadLocalStats| c_passage_cluster_calls(t), i + 1);
            lemma_sum_prefix(thread_stats@, |t: ThreadLocalStats| c_left_traversals(t), i + 1);
            lemma_sum_prefix(thread_stats@, |t: ThreadLocalStats| c_right_traversals(t), i + 1);
            lemma_sum_prefix(thread_stats@, |t: ThreadLocalStats| c_excluded_no_answer(t), i + 1);
            lemma_sum_prefix(thread_stats@, |t: ThreadLocalStats| c_excluded_no_passage(t), i + 1);
            lemma_sum_prefix(thread_stats@, |t: ThreadLocalStats| c_excluded_low_idf_threshold(t), i + 1);
        }
        if s.files_processed > 0 || s.lines_processed > 0 {
            agg.total_files_processed = agg.total_files_processed + s.files_processed;
            agg.total_lines_processed = agg.total_lines_processed + s.lines_processed;
            agg.total_contaminations_found = agg.total_contaminations_found + s.contaminations_found;
            agg.total_question_expansion_time_us = agg.total_question_expansion_time_us + s.question_expansion_time_us;
            agg.total_answer_cluster_time_us = agg.total_answer_cluster_time_us + s.answer_cluster_time_us;
            agg.total_passage_cluster_time_us = agg.total_passage_cluster_time_us + s.passage_cluster_time_us;
            agg.total_question_expansion_calls = agg.total_question_expansion_calls + s.question_expansion_calls;
            agg.total_answer_cluster_calls = agg.total_answer_cluster_calls + s.answer_cluster_calls;
            agg.total_passage_cluster_calls = agg.total_passage_cluster_calls + s.passage_cluster_calls;
            agg.total_left_traversals = agg.total_left_traversals + s.left_traversals;
            agg.total_right_traversals = agg.total_right_traversals + s.right_traversals;
            agg.total_excluded_no_answer = agg.total_excluded_no_answer + s.excluded_no_answer;
            agg.total_excluded_no_passage = agg.total_excluded_no_passage + s.excluded_no_passage;
            agg.total_excluded_low_idf_threshold = agg.total_excluded_low_idf_threshold + s.excluded_low_idf_threshold;
        }
        i = i + 1;
    }
    assert(thread_stats@.take(thread_stats@.len() as int) =~= thread_stats@);
    agg
}

} // verus!
