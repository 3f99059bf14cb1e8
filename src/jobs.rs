use vstd::prelude::*;

use crate::text::{decimal_of, decimal_text};

verus! {

/// Where a job stands. A job starts running and ends, once, completed or failed.
#[derive(Debug, Clone, Copy, PartialEq, Eq, Structural)]
pub enum JobState {
    Running,
    Completed,
    Failed,
}

impl JobState {
    /// The state as the answers write it.
    pub fn as_str(&self) -> (r: &'static str)
        ensures
            r@ == state_text(*self),
    {
        match self {
            JobState::Running => "running",
            JobState::Completed => "completed",
            JobState::Failed => "failed",
        }
    }
}

pub open spec fn state_text(s: JobState) -> Seq<char> {
    match s {
        JobState::Running => "running"@,
        JobState::Completed => "completed"@,
        JobState::Failed => "failed"@,
    }
}

/// How many files of one kind a job found, indexed, failed on and skipped.
#[derive(Debug, Clone, Copy, PartialEq, Eq, Structural)]
pub struct CategoryCounts {
    pub found: usize,
    pub indexed: usize,
    pub errors: usize,
    pub skipped: usize,
}

/// The record of one indexing job.
#[derive(Debug)]
pub struct IndexJobStatus {
    pub job_id: String,
    pub dir: String,
    pub status: JobState,
    pub phase: String,
    pub batch_size: usize,
    pub text: CategoryCounts,
    pub video: CategoryCounts,
    pub image: CategoryCounts,
    pub message: String,
    pub error: String,
    pub started_at: String,
    pub updated_at: String,
    pub finished_at: Option<String>,
}

/// What the text files of a job came to.
#[derive(Debug)]
pub struct TextSummary {
    pub found: usize,
    pub indexed: usize,
    pub skipped: usize,
    pub errors: usize,
    /// The error of the first file that failed, or the empty text.
    pub first_error: String,
}

/// A change that the job's own work makes to its record.
#[derive(Debug)]
pub enum JobUpdate {
    /// The job has entered another phase.
    Phase { phase: String, message: String },
    /// The job could not do its work.
    Fail { error: String },
    /// The job's text files are done.
    Finish(TextSummary),
}

impl IndexJobStatus {
    /// A job is finished exactly when it is no longer running, and a finished
    /// job is in its phase "done".
    pub open spec fn wf(&self) -> bool {
        &&& (self.status == JobState::Running) == (self.finished_at is None)
        &&& self.status != JobState::Running ==> self.phase@ == "done"@
    }

    /// Whether this record is the one that a job running over `dir` starts with.
    pub open spec fn is_start(&self, job_id: Seq<char>, dir: Seq<char>, now: Seq<char>) -> bool {
        let zero = CategoryCounts { found: 0, indexed: 0, errors: 0, skipped: 0 };
        &&& self.job_id@ == job_id
        &&& self.dir@ == dir
        &&& self.status == JobState::Running
        &&& self.phase@ == "scan_text"@
        &&& self.batch_size == 0
        &&& self.text == zero && self.video == zero && self.image == zero
        &&& self.message@ == "Starting Rust text indexer"@
        &&& self.error@.len() == 0
        &&& self.started_at@ == now
        &&& self.updated_at@ == now
        &&& self.finished_at is None
    }

    /// The record of a job that starts now.
    pub fn start(job_id: String, dir: String, now: String) -> (r: IndexJobStatus)
        ensures
            r.is_start(job_id@, dir@, now@),
            r.wf(),
    {
        let zero = CategoryCounts { found: 0, indexed: 0, errors: 0, skipped: 0 };
        IndexJobStatus {
            job_id,
            dir,
            status: JobState::Running,
            phase: String::from_str("scan_text"),
            batch_size: 0,
            text: zero,
            video: zero,
            image: zero,
            message: String::from_str("Starting Rust text indexer"),
            error: String::new(),
            started_at: now.clone(),
            updated_at: now,
            finished_at: None,
        }
    }

    /// Whether `self` holds what `other` holds.
    pub open spec fn same_as(&self, other: IndexJobStatus) -> bool {
        &&& self.job_id@ == other.job_id@
        &&& self.dir@ == other.dir@
        &&& self.status == other.status
        &&& self.phase@ == other.phase@
        &&& self.batch_size == other.batch_size
        &&& self.text == other.text && self.video == other.video && self.image == other.image
        &&& self.message@ == other.message@
        &&& self.error@ == other.error@
        &&& self.started_at@ == other.started_at@
        &&& self.updated_at@ == other.updated_at@
        &&& crate::json::opt_text(self.finished_at) == crate::json::opt_text(other.finished_at)
    }

    /// A snapshot of the record.
    pub fn snapshot(&self) -> (r: IndexJobStatus)
        ensures
            r.same_as(*self),
    {
        IndexJobStatus {
            job_id: self.job_id.clone(),
            dir: self.dir.clone(),
            status: self.status,
            phase: self.phase.clone(),
            batch_size: self.batch_size,
            text: self.text,
            video: self.video,
            image: self.image,
            message: self.message.clone(),
            error: self.error.clone(),
            started_at: self.started_at.clone(),
            updated_at: self.updated_at.clone(),
            finished_at: match &self.finished_at {
                Some(t) => Some(t.clone()),
                None => None,
            },
        }
    }
}

/// Whether `new` is the record `old` after the update `u` at the time `now`.
/// Every update refreshes `updated_at`; the end of a job sets `finished_at`.
pub open spec fn is_updated(new: IndexJobStatus, old: IndexJobStatus, u: JobUpdate, now: Seq<char>) -> bool {
    &&& new.job_id@ == old.job_id@
    &&& new.dir@ == old.dir@
    &&& new.batch_size == old.batch_size
    &&& new.video == old.video && new.image == old.image
    &&& new.started_at@ == old.started_at@
    &&& new.updated_at@ == now
    &&& match u {
        JobUpdate::Phase { phase, message } => {
            &&& new.status == old.status
            &&& new.phase@ == phase@
            &&& new.message@ == message@
            &&& new.text == old.text
            &&& new.error@ == old.error@
            &&& crate::json::opt_text(new.finished_at) == crate::json::opt_text(old.finished_at)
        },
        JobUpdate::Fail { error } => {
            &&& new.status == JobState::Failed
            &&& new.phase@ == "done"@
            &&& new.message@ == "Indexing failed"@
            &&& new.text == old.text
            &&& new.error@ == error@
            &&& crate::json::opt_text(new.finished_at) == Some(now)
        },
        JobUpdate::Finish(s) => {
            &&& new.text == CategoryCounts {
                found: s.found,
                indexed: s.indexed,
                errors: s.errors,
                skipped: s.skipped,
            }
            &&& new.phase@ == "done"@
            &&& crate::json::opt_text(new.finished_at) == Some(now)
            &&& if s.errors > 0 {
                &&& new.status == JobState::Failed
                &&& new.message@ == "Text indexing failed"@
                &&& new.error@ == s.first_error@
            } else {
                &&& new.status == JobState::Completed
                &&& new.message@ == "Text indexing complete"@
                &&& new.error@.len() == 0
            }
        },
    }
}

/// Applies `u` to a running job's record at the time `now`.
pub fn apply_update(job: &mut IndexJobStatus, u: JobUpdate, now: String)
    requires
        old(job).status == JobState::Running,
    ensures
        is_updated(*final(job), *old(job), u, now@),
{
    match u {
        JobUpdate::Phase { phase, message } => {
            job.phase = phase;
            job.message = message;
        },
        JobUpdate::Fail { error } => {
            job.status = JobState::Failed;
            job.phase = String::from_str("done");
            job.error = error;
            job.message = String::from_str("Indexing failed");
            job.finished_at = Some(now.clone());
        },
        JobUpdate::Finish(s) => {
            job.text = CategoryCounts { found: s.found, indexed: s.indexed, errors: s.errors, skipped: s.skipped };
            job.phase = String::from_str("done");
            job.finished_at = Some(now.clone());
            if s.errors > 0 {
                job.status = JobState::Failed;
                job.message = String::from_str("Text indexing failed");
                job.error = s.first_error;
            } else {
                job.status = JobState::Completed;
                job.message = String::from_str("Text indexing complete");
                job.error = String::new();
            }
        },
    }
    job.updated_at = now;
}

/// A job's state never goes back: an update applies only to a running job,
/// leaves it running, completed or failed, and sets `finished_at` exactly
/// when it ends the job, so that a record is finished if and only if it is
/// no longer running.
pub proof fn job_status_never_regresses(new: IndexJobStatus, old: IndexJobStatus, u: JobUpdate, now: Seq<char>)
    requires
        old.wf(),
        old.status == JobState::Running,
        is_updated(new, old, u, now),
    ensures
        new.wf(),
        new.status != JobState::Running ==> new.finished_at is Some,
        new.status == JobState::Running ==> u is Phase,
{
}

/// The first record of `jobs` whose id is `id`.
pub open spec fn lookup(jobs: Seq<IndexJobStatus>, id: Seq<char>) -> Option<IndexJobStatus>
    decreases jobs.len(),
{
    if jobs.len() == 0 {
        None
    } else if jobs[0].job_id@ == id {
        Some(jobs[0])
    } else {
        lookup(jobs.drop_first(), id)
    }
}

/// The jobs of one process, by id.
#[derive(Debug)]
pub struct JobTable {
    jobs: Vec<IndexJobStatus>,
    next_seq: u64,
}

impl JobTable {
    /// The records of the table.
    pub closed spec fn records(&self) -> Seq<IndexJobStatus> {
        self.jobs@
    }

    /// The number that the next job id carries.
    pub closed spec fn next_seq(&self) -> u64 {
        self.next_seq
    }

    /// The record of the job `id`.
    pub open spec fn job(&self, id: Seq<char>) -> Option<IndexJobStatus> {
        lookup(self.records(), id)
    }

    /// Every record is well formed, and no two records share an id.
    pub open spec fn wf(&self) -> bool {
        &&& forall|i: int| 0 <= i < self.records().len() ==> (#[trigger] self.records()[i]).wf()
        &&& forall|i: int, j: int|
            0 <= i < j < self.records().len() ==> (#[trigger] self.records()[i]).job_id@ != (
            #[trigger] self.records()[j]).job_id@
    }
}

/// The job table of a process: empty when it starts, its first id numbered 1.
pub fn store() -> (r: JobTable)
    ensures
        r.wf(),
        r.records().len() == 0,
        r.next_seq() == 1,
{
    JobTable { jobs: Vec::new(), next_seq: 1 }
}

proof fn lemma_lookup_index(jobs: Seq<IndexJobStatus>, id: Seq<char>)
    ensures
        lookup(jobs, id) is None <==> forall|i: int| 0 <= i < jobs.len() ==> (#[trigger] jobs[i]).job_id@ != id,
        lookup(jobs, id) matches Some(j) ==> exists|i: int|
            0 <= i < jobs.len() && jobs[i] == j && jobs[i].job_id@ == id && forall|k: int|
                0 <= k < i ==> (#[trigger] jobs[k]).job_id@ != id,
    decreases jobs.len(),
{
    if jobs.len() > 0 {
        let rest = jobs.drop_first();
        lemma_lookup_index(rest, id);
        assert forall|i: int| 0 < i < jobs.len() implies jobs[i] == rest[i - 1] by {}
        if jobs[0].job_id@ != id {
            if lookup(rest, id) is Some {
                let j = lookup(rest, id)->0;
                let i = choose|i: int|
                    0 <= i < rest.len() && rest[i] == j && rest[i].job_id@ == id && forall|k: int|
                        0 <= k < i ==> (#[trigger] rest[k]).job_id@ != id;
                assert(jobs[i + 1] == j);
                assert forall|k: int| 0 <= k < i + 1 implies (#[trigger] jobs[k]).job_id@ != id by {
                    if k > 0 {
                        assert(jobs[k] == rest[k - 1]);
                    }
                }
            } else {
                assert forall|i: int| 0 <= i < jobs.len() implies (#[trigger] jobs[i]).job_id@ != id by {
                    if i > 0 {
                        assert(jobs[i] == rest[i - 1]);
                    }
                }
            }
        } else {
            assert(jobs[0] == jobs[0]);
        }
    }
}

proof fn lemma_lookup_update(jobs: Seq<IndexJobStatus>, i: int, rec: IndexJobStatus, id: Seq<char>)
    requires
        0 <= i < jobs.len(),
        rec.job_id@ == jobs[i].job_id@,
        forall|k: int| 0 <= k < i ==> (#[trigger] jobs[k]).job_id@ != jobs[i].job_id@,
    ensures
        lookup(jobs.update(i, rec), id) == if id == rec.job_id@ {
            Some(rec)
        } else {
            lookup(jobs, id)
        },
    decreases jobs.len(),
{
    let j2 = jobs.update(i, rec);
    assert(j2[0] == if i == 0 { rec } else { jobs[0] });
    if i == 0 {
        assert(j2.drop_first() =~= jobs.drop_first());
    } else {
        assert(j2.drop_first() =~= jobs.drop_first().update(i - 1, rec));
        assert forall|k: int| 0 <= k < i - 1 implies (#[trigger] jobs.drop_first()[k]).job_id@ != jobs.drop_first()[i
            - 1].job_id@ by {
            assert(jobs.drop_first()[k] == jobs[k + 1]);
        }
        lemma_lookup_update(jobs.drop_first(), i - 1, rec, id);
    }
}

proof fn lemma_lookup_push(jobs: Seq<IndexJobStatus>, rec: IndexJobStatus, id: Seq<char>)
    requires
        lookup(jobs, rec.job_id@) is None,
    ensures
        lookup(jobs.push(rec), id) == if id == rec.job_id@ {
            Some(rec)
        } else {
            lookup(jobs, id)
        },
    decreases jobs.len(),
{
    assert(jobs.push(rec)[0] == if jobs.len() == 0 { rec } else { jobs[0] });
    if jobs.len() > 0 {
        assert(jobs.push(rec).drop_first() =~= jobs.drop_first().push(rec));
        lemma_lookup_push(jobs.drop_first(), rec, id);
    } else {
        assert(jobs.push(rec).drop_first() =~= Seq::<IndexJobStatus>::empty());
    }
}

/// Where the record of the job `id` stands in the table, if anywhere.
fn position_of(table: &JobTable, id: &str) -> (r: Option<usize>)
    ensures
        match r {
            Some(i) => i < table.records().len() && table.records()[i as int].job_id@ == id@ && forall|k: int|
                0 <= k < i ==> (#[trigger] table.records()[k]).job_id@ != id@,
            None => table.job(id@) is None,
        },
{
    let mut i: usize = 0;
    while i < table.jobs.len()
        invariant
            i <= table.jobs@.len(),
            forall|k: int| 0 <= k < i ==> (#[trigger] table.jobs@[k]).job_id@ != id@,
        decreases table.jobs@.len() - i,
    {
        if crate::text::same_text(table.jobs[i].job_id.as_str(), id) {
            return Some(i);
        }
        i = i + 1;
    }
    proof {
        lemma_lookup_index(table.jobs@, id@);
    }
    None
}

/// Puts a record in the table, in place of the record with the same id.
pub fn put_job(table: &mut JobTable, status: IndexJobStatus)
    requires
        old(table).wf(),
        status.wf(),
    ensures
        final(table).wf(),
        final(table).next_seq() == old(table).next_seq(),
        forall|id: Seq<char>|
            #[trigger] final(table).job(id) == if id == status.job_id@ {
                Some(status)
            } else {
                old(table).job(id)
            },
{
    let ghost rec = status;
    match position_of(table, status.job_id.as_str()) {
        Some(i) => {
            let ghost before = table.jobs@;
            table.jobs.set(i, status);
            proof {
                assert(table.jobs@ == before.update(i as int, rec));
                assert forall|id: Seq<char>|
                    #[trigger] lookup(table.jobs@, id) == if id == rec.job_id@ {
                        Some(rec)
                    } else {
                        lookup(before, id)
                    } by {
                    lemma_lookup_update(before, i as int, rec, id);
                }
                let t = table.jobs@;
                assert forall|x: int, y: int| 0 <= x < y < t.len() implies (#[trigger] t[x]).job_id@ != (
                #[trigger] t[y]).job_id@ by {
                    assert(t[x].job_id@ == before[x].job_id@ && t[y].job_id@ == before[y].job_id@);
                }
            }
        },
        None => {
            let ghost before = table.jobs@;
            table.jobs.push(status);
            proof {
                lemma_lookup_index(before, rec.job_id@);
                let t = table.jobs@;
                assert forall|x: int, y: int| 0 <= x < y < t.len() implies (#[trigger] t[x]).job_id@ != (
                #[trigger] t[y]).job_id@ by {
                    assert(t[x] == before[x]);
                    if y < before.len() {
                        assert(t[y] == before[y]);
                    }
                }
                assert forall|id: Seq<char>|
                    #[trigger] lookup(table.jobs@, id) == if id == rec.job_id@ {
                        Some(rec)
                    } else {
                        lookup(before, id)
                    } by {
                    lemma_lookup_push(before, rec, id);
                }
            }
        },
    }
}

/// A snapshot of the record of the job `job_id`, if the table has one.
pub fn get_job(table: &JobTable, job_id: &str) -> (r: Option<IndexJobStatus>)
    ensures
        match r {
            Some(s) => table.job(job_id@) matches Some(j) && s.same_as(j),
            None => table.job(job_id@) is None,
        },
{
    match position_of(table, job_id) {
        Some(i) => {
            proof {
                lemma_lookup_index(table.jobs@, job_id@);
                if lookup(table.jobs@, job_id@) is Some {
                    let j = lookup(table.jobs@, job_id@)->0;
                    let k = choose|k: int|
                        0 <= k < table.jobs@.len() && table.jobs@[k] == j && table.jobs@[k].job_id@ == job_id@
                            && forall|m: int| 0 <= m < k ==> (#[trigger] table.jobs@[m]).job_id@ != job_id@;
                    if k != i {
                        if k < i {
                        } else {
                            assert(table.jobs@[i as int].job_id@ == job_id@);
                        }
                    }
                }
            }
            Some(table.jobs[i].snapshot())
        },
        None => None,
    }
}

/// Applies `update` at the time `now` to the record of the running job
/// `job_id`. A job that the table does not know, or that has ended, is left
/// as it is, and the answer says so.
pub fn update_job(table: &mut JobTable, job_id: &str, update: JobUpdate, now: String) -> (r: Result<(), String>)
    requires
        old(table).wf(),
    ensures
        final(table).wf(),
        final(table).next_seq() == old(table).next_seq(),
        r is Ok <==> (old(table).job(job_id@) is Some && old(table).job(job_id@)->0.status == JobState::Running),
        r is Ok ==> final(table).job(job_id@) is Some && is_updated(
            final(table).job(job_id@)->0,
            old(table).job(job_id@)->0,
            update,
            now@,
        ),
        r is Err ==> final(table).records() == old(table).records(),
        old(table).job(job_id@) is None ==> (r matches Err(e) && e@ == "job not found: "@ + job_id@),
        forall|id: Seq<char>| id != job_id@ ==> #[trigger] final(table).job(id) == old(table).job(id),
{
    match position_of(table, job_id) {
        Some(i) => {
            proof {
                lemma_lookup_index(table.jobs@, job_id@);
                if lookup(table.jobs@, job_id@) is Some {
                    let j = lookup(table.jobs@, job_id@)->0;
                    let k = choose|k: int|
                        0 <= k < table.jobs@.len() && table.jobs@[k] == j && table.jobs@[k].job_id@ == job_id@
                            && forall|m: int| 0 <= m < k ==> (#[trigger] table.jobs@[m]).job_id@ != job_id@;
                    if k < i {
                    } else if k > i {
                        assert(table.jobs@[i as int].job_id@ == job_id@);
                    }
                }
            }
            if table.jobs[i].status != JobState::Running {
                return Err(String::from_str("job has already finished"));
            }
            let ghost before = table.jobs@;
            let ghost u = update;
            let mut job = table.jobs[i].snapshot();
            apply_update(&mut job, update, now);
            let ghost rec = job;
            proof {
                assert(job.job_id@ == before[i as int].job_id@);
                assert(is_updated(job, before[i as int], u, now@));
            }
            table.jobs.set(i, job);
            proof {
                assert(table.jobs@ == before.update(i as int, rec));
                assert forall|id: Seq<char>|
                    #[trigger] lookup(table.jobs@, id) == if id == rec.job_id@ {
                        Some(rec)
                    } else {
                        lookup(before, id)
                    } by {
                    lemma_lookup_update(before, i as int, rec, id);
                }
                assert forall|k: int| 0 <= k < table.jobs@.len() implies (#[trigger] table.jobs@[k]).wf() by {
                    if k != i {
                        assert(table.jobs@[k] == before[k]);
                    }
                }
            }
            Ok(())
        },
        None => {
            let mut m = String::from_str("job not found: ");
            m.append(job_id);
            Err(m)
        },
    }
}

/// The id of a new job started at the time `now`: `rust-text-<now>-<n>`,
/// where `n` counts the ids that the table has given.
pub fn make_job_id(table: &mut JobTable, now: &str) -> (r: String)
    ensures
        r@ == "rust-text-"@ + now@ + "-"@ + decimal_of(old(table).next_seq() as nat),
        final(table).records() == old(table).records(),
        final(table).next_seq() == if old(table).next_seq() < u64::MAX {
            (old(table).next_seq() + 1) as u64
        } else {
            1u64
        },
{
    let seq = table.next_seq;
    table.next_seq = if seq < u64::MAX { seq + 1 } else { 1 };
    let mut id = String::from_str("rust-text-");
    id.append(now);
    id.append("-");
    let digits = decimal_text(seq);
    id.append(digits.as_str());
    id
}

/// Relies on std::time::SystemTime::now: the whole seconds since the Unix
/// epoch, zero before it. Nothing is promised of the value.
#[verifier::external_body]
fn now_secs() -> (r: u64) {
    std::time::SystemTime::now().duration_since(std::time::UNIX_EPOCH).unwrap_or_default().as_secs()
}

/// The time now, as whole seconds since the Unix epoch in decimal.
pub fn now_string() -> (r: String)
    ensures
        exists|n: nat| r@ == decimal_of(n),
{
    decimal_text(now_secs())
}

/// Records a new running job over `dir` at the time `now`, and gives its id,
/// which no job of the table had. An id already in use is refused, and the
/// table is left as it was.
pub fn start_job(table: &mut JobTable, dir: String, now: String) -> (r: Result<String, String>)
    requires
        old(table).wf(),
    ensures
        final(table).wf(),
        ({
            let id = "rust-text-"@ + now@ + "-"@ + decimal_of(old(table).next_seq() as nat);
            match r {
                Ok(job_id) => {
                    &&& job_id@ == id
                    &&& old(table).job(id) is None
                    &&& final(table).job(id) matches Some(j) && j.is_start(id, dir@, now@)
                    &&& forall|other: Seq<char>| other != id ==> #[trigger] final(table).job(other) == old(table).job(other)
                },
                Err(e) => {
                    &&& old(table).job(id) is Some
                    &&& e@ == "job id already in use: "@ + id
                    &&& final(table).records() == old(table).records()
                },
            }
        }),
{
    let job_id = make_job_id(table, now.as_str());
    if position_of(table, job_id.as_str()).is_some() {
        proof {
            lemma_lookup_index(table.records(), job_id@);
        }
        let mut m = String::from_str("job id already in use: ");
        m.append(job_id.as_str());
        return Err(m);
    }
    let status = IndexJobStatus::start(job_id.clone(), dir, now);
    put_job(table, status);
    Ok(job_id)
}

} // verus!
