//! The job table of the detection server: jobs are submitted, taken by a
//! worker, and finish or fail; clients ask for a job's status by its id.

use vstd::prelude::*;
use crate::keyset::same_key;
use crate::paths::append_chars;
use crate::text::chars_of;

verus! {

/// Where a job stands.
pub enum JobStatus {
    Pending,
    Processing,
    Completed,
    Failed(String),
}

/// A submitted job.
pub struct Job {
    pub id: String,
    pub file_path: String,
    pub status: JobStatus,
    pub output_path: Option<String>,
    pub purified_path: Option<String>,
}

/// How a worker's run of a job ended.
pub enum JobOutcome {
    /// Detection ran; a report and a purified file where they were written.
    Done { output_path: Option<String>, purified_path: Option<String> },
    /// Detection returned an error.
    ProcessingError(String),
    /// The task running detection failed.
    TaskError(String),
}

/// The answer to a status request.
pub enum StatusReply {
    NotFound,
    Pending,
    Processing,
    Completed { output_path: Option<String>, purified_path: Option<String> },
    Failed(String),
}

/// A job status as text.
pub enum StatusView {
    Pending,
    Processing,
    Completed,
    Failed(Seq<char>),
}

/// A job as text.
pub struct JobView {
    pub file_path: Seq<char>,
    pub status: StatusView,
    pub output_path: Option<Seq<char>>,
    pub purified_path: Option<Seq<char>>,
}

/// A status reply as text.
pub enum ReplyView {
    NotFound,
    Pending,
    Processing,
    Completed { output_path: Option<Seq<char>>, purified_path: Option<Seq<char>> },
    Failed(Seq<char>),
}

/// An outcome as text.
pub enum OutcomeView {
    Done { output_path: Option<Seq<char>>, purified_path: Option<Seq<char>> },
    ProcessingError(Seq<char>),
    TaskError(Seq<char>),
}

pub open spec fn opt_view(o: Option<String>) -> Option<Seq<char>> {
    match o {
        Some(s) => Some(s@),
        None => None,
    }
}

pub open spec fn status_view(s: JobStatus) -> StatusView {
    match s {
        JobStatus::Pending => StatusView::Pending,
        JobStatus::Processing => StatusView::Processing,
        JobStatus::Completed => StatusView::Completed,
        JobStatus::Failed(m) => StatusView::Failed(m@),
    }
}

pub open spec fn job_view(j: Job) -> JobView {
    JobView {
        file_path: j.file_path@,
        status: status_view(j.status),
        output_path: opt_view(j.output_path),
        purified_path: opt_view(j.purified_path),
    }
}

pub open spec fn reply_view(r: StatusReply) -> ReplyView {
    match r {
        StatusReply::NotFound => ReplyView::NotFound,
        StatusReply::Pending => ReplyView::Pending,
        StatusReply::Processing => ReplyView::Processing,
        StatusReply::Completed { output_path, purified_path } => ReplyView::Completed {
            output_path: opt_view(output_path),
            purified_path: opt_view(purified_path),
        },
        StatusReply::Failed(m) => ReplyView::Failed(m@),
    }
}

pub open spec fn outcome_view(o: JobOutcome) -> OutcomeView {
    match o {
        JobOutcome::Done { output_path, purified_path } => OutcomeView::Done {
            output_path: opt_view(output_path),
            purified_path: opt_view(purified_path),
        },
        JobOutcome::ProcessingError(m) => OutcomeView::ProcessingError(m@),
        JobOutcome::TaskError(m) => OutcomeView::TaskError(m@),
    }
}

/// The jobs by id.
pub type JobMap = Map<Seq<char>, JobView>;

/// A table after a job is submitted: a pending job under its id.
pub open spec fn spec_submit(t: JobMap, id: Seq<char>, file_path: Seq<char>) -> JobMap {
    t.insert(id, JobView { file_path, status: StatusView::Pending, output_path: None, purified_path: None })
}

/// A job with another status, where the table holds it.
pub open spec fn spec_set_status(t: JobMap, id: Seq<char>, status: StatusView) -> JobMap {
    if t.contains_key(id) {
        t.insert(id, JobView { status, ..t[id] })
    } else {
        t
    }
}

/// The message of a job whose queueing failed.
pub open spec fn queue_failure_message() -> Seq<char> {
    "Failed to queue job"@
}

/// A table after a worker's run of a job ended.
pub open spec fn spec_finish(t: JobMap, id: Seq<char>, outcome: OutcomeView) -> JobMap {
    if t.contains_key(id) {
        match outcome {
            OutcomeView::Done { output_path, purified_path } => t.insert(
                id,
                JobView { status: StatusView::Completed, output_path, purified_path, ..t[id] },
            ),
            OutcomeView::ProcessingError(m) => t.insert(
                id,
                JobView { status: StatusView::Failed("Processing error: "@ + m), ..t[id] },
            ),
            OutcomeView::TaskError(m) => t.insert(
                id,
                JobView { status: StatusView::Failed("Task error: "@ + m), ..t[id] },
            ),
        }
    } else {
        t
    }
}

/// The answer to a status request for `id`.
pub open spec fn spec_reply(t: JobMap, id: Seq<char>) -> ReplyView {
    if !t.contains_key(id) {
        ReplyView::NotFound
    } else {
        match t[id].status {
            StatusView::Pending => ReplyView::Pending,
            StatusView::Processing => ReplyView::Processing,
            StatusView::Completed => ReplyView::Completed {
                output_path: t[id].output_path,
                purified_path: t[id].purified_path,
            },
            StatusView::Failed(m) => ReplyView::Failed(m),
        }
    }
}

/// The jobs of a list by id.
pub open spec fn jobs_map(s: Seq<Job>) -> JobMap
    decreases s.len(),
{
    if s.len() == 0 {
        Map::empty()
    } else {
        jobs_map(s.drop_last()).insert(s.last().id@, job_view(s.last()))
    }
}

/// No two jobs of a list share an id.
pub open spec fn distinct_ids(s: Seq<Job>) -> bool {
    forall|i: int, j: int| 0 <= i < j < s.len() ==> (#[trigger] s[i]).id@ != (#[trigger] s[j]).id@
}

proof fn lemma_jobs_map_lookup(s: Seq<Job>, i: int)
    requires
        distinct_ids(s),
        0 <= i < s.len(),
    ensures
        jobs_map(s).contains_key(s[i].id@),
        jobs_map(s)[s[i].id@] == job_view(s[i]),
    decreases s.len(),
{
    if i < s.len() - 1 {
        assert(s.drop_last()[i] == s[i]);
        lemma_jobs_map_lookup(s.drop_last(), i);
        assert(s.last() == s[s.len() - 1]);
    }
}

proof fn lemma_jobs_map_missing(s: Seq<Job>, id: Seq<char>)
    requires
        forall|i: int| 0 <= i < s.len() ==> (#[trigger] s[i]).id@ != id,
    ensures
        !jobs_map(s).contains_key(id),
    decreases s.len(),
{
    if s.len() > 0 {
        assert forall|i: int| 0 <= i < s.drop_last().len() implies (#[trigger] s.drop_last()[i]).id@ != id by {
            assert(s.drop_last()[i] == s[i]);
        }
        lemma_jobs_map_missing(s.drop_last(), id);
        assert(s.last() == s[s.len() - 1]);
    }
}

proof fn lemma_jobs_map_update(s: Seq<Job>, i: int, j: Job)
    requires
        distinct_ids(s),
        0 <= i < s.len(),
        j.id@ == s[i].id@,
    ensures
        jobs_map(s.update(i, j)) == jobs_map(s).insert(j.id@, job_view(j)),
        distinct_ids(s.update(i, j)),
    decreases s.len(),
{
    let u = s.update(i, j);
    assert(distinct_ids(u)) by {
        assert forall|a: int, b: int| 0 <= a < b < u.len() implies (#[trigger] u[a]).id@ != (#[trigger] u[b]).id@ by {
            assert(u[a].id@ == s[a].id@);
            assert(u[b].id@ == s[b].id@);
        }
    }
    if i == s.len() - 1 {
        assert(u.drop_last() =~= s.drop_last());
        assert(jobs_map(u) =~= jobs_map(s).insert(j.id@, job_view(j)));
    } else {
        let d = s.drop_last();
        assert(u.drop_last() =~= d.update(i, j));
        assert(distinct_ids(d)) by {
            assert forall|a: int, b: int| 0 <= a < b < d.len() implies (#[trigger] d[a]).id@ != (#[trigger] d[b]).id@ by {
                assert(d[a] == s[a]);
                assert(d[b] == s[b]);
            }
        }
        assert(d[i] == s[i]);
        lemma_jobs_map_update(d, i, j);
        assert(u.last() == s.last());
        assert(s.last() == s[s.len() - 1]);
        assert(s.last().id@ != j.id@);
        assert(jobs_map(u) =~= jobs_map(s).insert(j.id@, job_view(j)));
    }
}

/// The jobs of the server.
pub struct JobTable {
    jobs: Vec<Job>,
}

/// A copy of an optional text.
fn copy_opt(o: &Option<String>) -> (r: Option<String>)
    ensures
        opt_view(r) == opt_view(*o),
{
    match o {
        Some(s) => Some(s.clone()),
        None => None,
    }
}

/// Two texts joined.
fn concat(prefix: &str, rest: &str) -> (s: String)
    ensures
        s@ == prefix@ + rest@,
{
    let mut s = String::new();
    append_chars(&mut s, &chars_of(prefix));
    append_chars(&mut s, &chars_of(rest));
    assert(s@ =~= prefix@ + rest@);
    s
}

impl JobTable {
    /// The jobs by id.
    pub closed spec fn view(&self) -> JobMap {
        jobs_map(self.jobs@)
    }

    /// No two stored jobs share an id.
    pub closed spec fn wf(&self) -> bool {
        distinct_ids(self.jobs@)
    }

    /// An empty table.
    pub fn new() -> (t: Self)
        ensures
            t.wf(),
            t@ == Map::<Seq<char>, JobView>::empty(),
    {
        JobTable { jobs: Vec::new() }
    }

    /// The position of the job with this id.
    fn position(&self, id: &str) -> (res: Option<usize>)
        requires
            self.wf(),
        ensures
            match res {
                Some(i) => i < self.jobs@.len() && self.jobs@[i as int].id@ == id@,
                None => forall|i: int| 0 <= i < self.jobs@.len() ==> (#[trigger] self.jobs@[i]).id@ != id@,
            },
    {
        let key = vec![chars_of(id)];
        let mut i: usize = 0;
        while i < self.jobs.len()
            invariant
                i <= self.jobs@.len(),
                key@.len() == 1,
                key@[0]@ == id@,
                forall|j: int| 0 <= j < i ==> (#[trigger] self.jobs@[j]).id@ != id@,
            decreases self.jobs@.len() - i,
        {
            let other = vec![chars_of(self.jobs[i].id.as_str())];
            if same_key(&other, &key) {
                assert(crate::keyset::key_view(other)[0] == crate::keyset::key_view(key)[0]);
                return Some(i);
            }
            proof {
                if self.jobs@[i as int].id@ == id@ {
                    assert(crate::keyset::key_view(other) =~= crate::keyset::key_view(key));
                }
            }
            i = i + 1;
        }
        None
    }

    /// Stores a new pending job under its id, replacing a job with the same
    /// id.
    pub fn submit(&mut self, id: String, file_path: String)
        requires
            old(self).wf(),
        ensures
            final(self).wf(),
            final(self)@ == spec_submit(old(self)@, id@, file_path@),
    {
        let pos = self.position(id.as_str());
        let job = Job { id, file_path, status: JobStatus::Pending, output_path: None, purified_path: None };
        let ghost jv = job_view(job);
        match pos {
            Some(i) => {
                proof {
                    lemma_jobs_map_update(self.jobs@, i as int, job);
                }
                self.jobs.set(i, job);
            },
            None => {
                let ghost before = self.jobs@;
                self.jobs.push(job);
                proof {
                    assert(self.jobs@.drop_last() =~= before);
                    assert(distinct_ids(self.jobs@)) by {
                        assert forall|a: int, b: int| 0 <= a < b < self.jobs@.len() implies (#[trigger] self.jobs@[a]).id@ != (#[trigger] self.jobs@[b]).id@ by {
                            if b < before.len() {
                                assert(self.jobs@[a] == before[a]);
                                assert(self.jobs@[b] == before[b]);
                            } else {
                                assert(self.jobs@[a] == before[a]);
                            }
                        }
                    }
                }
            },
        }
        assert(self@ =~= spec_submit(old(self)@, id@, file_path@));
    }

    /// Replaces the job at position `i` by a copy with another status and
    /// paths.
    fn replace_at(&mut self, i: usize, status: JobStatus, output_path: Option<String>, purified_path: Option<String>)
        requires
            old(self).wf(),
            i < old(self).jobs@.len(),
        ensures
            final(self).wf(),
            final(self)@ == old(self)@.insert(
                old(self).jobs@[i as int].id@,
                JobView {
                    file_path: old(self).jobs@[i as int].file_path@,
                    status: status_view(status),
                    output_path: opt_view(output_path),
                    purified_path: opt_view(purified_path),
                },
            ),
    {
        let old_job = &self.jobs[i];
        let job = Job { id: old_job.id.clone(), file_path: old_job.file_path.clone(), status, output_path, purified_path };
        proof {
            lemma_jobs_map_update(self.jobs@, i as int, job);
        }
        self.jobs.set(i, job);
    }

    /// Marks a job failed because it could not be queued.
    pub fn mark_queue_failed(&mut self, id: &str)
        requires
            old(self).wf(),
        ensures
            final(self).wf(),
            final(self)@ == spec_set_status(old(self)@, id@, StatusView::Failed(queue_failure_message())),
    {
        proof {
            reveal_strlit("Failed to queue job");
        }
        match self.position(id) {
            Some(i) => {
                proof {
                    lemma_jobs_map_lookup(self.jobs@, i as int);
                }
                let out = copy_opt(&self.jobs[i].output_path);
                let pur = copy_opt(&self.jobs[i].purified_path);
                self.replace_at(i, JobStatus::Failed(String::from_str("Failed to queue job")), out, pur);
            },
            None => {
                proof {
                    lemma_jobs_map_missing(self.jobs@, id@);
                }
            },
        }
    }

    /// Marks a job as taken by a worker.
    pub fn start(&mut self, id: &str)
        requires
            old(self).wf(),
        ensures
            final(self).wf(),
            final(self)@ == spec_set_status(old(self)@, id@, StatusView::Processing),
    {
        match self.position(id) {
            Some(i) => {
                proof {
                    lemma_jobs_map_lookup(self.jobs@, i as int);
                }
                let out = copy_opt(&self.jobs[i].output_path);
                let pur = copy_opt(&self.jobs[i].purified_path);
                self.replace_at(i, JobStatus::Processing, out, pur);
            },
            None => {
                proof {
                    lemma_jobs_map_missing(self.jobs@, id@);
                }
            },
        }
    }

    /// Records how a worker's run of a job ended.
    pub fn finish(&mut self, id: &str, outcome: JobOutcome)
        requires
            old(self).wf(),
        ensures
            final(self).wf(),
            final(self)@ == spec_finish(old(self)@, id@, outcome_view(outcome)),
    {
        proof {
            reveal_strlit("Processing error: ");
            reveal_strlit("Task error: ");
        }
        match self.position(id) {
            Some(i) => {
                proof {
                    lemma_jobs_map_lookup(self.jobs@, i as int);
                }
                match outcome {
                    JobOutcome::Done { output_path, purified_path } => {
                        self.replace_at(i, JobStatus::Completed, output_path, purified_path);
                    },
                    JobOutcome::ProcessingError(m) => {
                        let out = copy_opt(&self.jobs[i].output_path);
                        let pur = copy_opt(&self.jobs[i].purified_path);
                        self.replace_at(i, JobStatus::Failed(concat("Processing error: ", m.as_str())), out, pur);
                    },
                    JobOutcome::TaskError(m) => {
                        let out = copy_opt(&self.jobs[i].output_path);
                        let pur = copy_opt(&self.jobs[i].purified_path);
                        self.replace_at(i, JobStatus::Failed(concat("Task error: ", m.as_str())), out, pur);
                    },
                }
            },
            None => {
                proof {
                    lemma_jobs_map_missing(self.jobs@, id@);
                }
            },
        }
    }

    /// The answer to a status request for a job.
    pub fn reply(&self, id: &str) -> (r: StatusReply)
        requires
            self.wf(),
        ensures
            reply_view(r) == spec_reply(self@, id@),
    {
        match self.position(id) {
            None => {
                proof {
                    lemma_jobs_map_missing(self.jobs@, id@);
                }
                StatusReply::NotFound
            },
            Some(i) => {
                proof {
                    lemma_jobs_map_lookup(self.jobs@, i as int);
                }
                let job = &self.jobs[i];
                match &job.status {
                    JobStatus::Pending => StatusReply::Pending,
                    JobStatus::Processing => StatusReply::Processing,
                    JobStatus::Completed => StatusReply::Completed {
                        output_path: copy_opt(&job.output_path),
                        purified_path: copy_opt(&job.purified_path),
                    },
                    JobStatus::Failed(m) => StatusReply::Failed(m.clone()),
                }
            },
        }
    }
}

/// A job just submitted reads as pending.
pub proof fn lemma_submitted_job_is_pending(t: JobMap, id: Seq<char>, file_path: Seq<char>)
    ensures
        spec_reply(spec_submit(t, id, file_path), id) == ReplyView::Pending,
{
}

/// A finished run of a job that the table holds reads as completed with the
/// run's paths, or as failed with the run's error behind its kind.
pub proof fn lemma_finished_job_reply(t: JobMap, id: Seq<char>, outcome: OutcomeView)
    requires
        t.contains_key(id),
    ensures
        spec_reply(spec_finish(t, id, outcome), id) == match outcome {
            OutcomeView::Done { output_path, purified_path } => ReplyView::Completed { output_path, purified_path },
            OutcomeView::ProcessingError(m) => ReplyView::Failed("Processing error: "@ + m),
            OutcomeView::TaskError(m) => ReplyView::Failed("Task error: "@ + m),
        },
{
}

/// Changing one job leaves the replies about every other job as they were.
pub proof fn lemma_other_jobs_unchanged(t: JobMap, id: Seq<char>, other: Seq<char>, file_path: Seq<char>, status: StatusView, outcome: OutcomeView)
    requires
        id != other,
    ensures
        spec_reply(spec_submit(t, id, file_path), other) == spec_reply(t, other),
        spec_reply(spec_set_status(t, id, status), other) == spec_reply(t, other),
        spec_reply(spec_finish(t, id, outcome), other) == spec_reply(t, other),
{
}

/// A job that was never submitted is not found, whatever happens to it.
pub proof fn lemma_unknown_job_not_found(t: JobMap, id: Seq<char>, status: StatusView, outcome: OutcomeView)
    requires
        !t.contains_key(id),
    ensures
        spec_reply(t, id) == ReplyView::NotFound,
        spec_reply(spec_set_status(t, id, status), id) == ReplyView::NotFound,
        spec_reply(spec_finish(t, id, outcome), id) == ReplyView::NotFound,
{
}

} // verus!
