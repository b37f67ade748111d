//! Background jobs: the shared pause/cancel flags a running job polls, and
//! the rules by which control requests and run outcomes move a job between
//! states. The worker loop that performs the runs lives with the caller; it
//! asks these functions what to do next.

use vstd::prelude::*;

use std::sync::Arc;
use std::sync::atomic::AtomicBool;
use std::sync::atomic::Ordering;

use crate::errors::AppError;
use crate::models::{JobStatus, JobType, LibraryStatus};
use crate::text::push_str;

verus! {

// ---------------------------------------------------------------------------
// Control flags
// ---------------------------------------------------------------------------

/// Cancel and pause flags shared between the job registry and the worker
/// running the job; clones share the same flags.
#[derive(Clone)]
pub struct JobControl {
    cancelled: Arc<AtomicBool>,
    paused: Arc<AtomicBool>,
}

impl JobControl {
    /// Fresh flags: neither cancelled nor paused.
    pub fn new() -> (r: JobControl) {
        JobControl { cancelled: Arc::new(AtomicBool::new(false)), paused: Arc::new(AtomicBool::new(false)) }
    }

    /// Asks the running job to stop for good.
    pub fn cancel(&self) {
        self.cancelled.store(true, Ordering::SeqCst);
    }

    /// Asks the running job to stop at its next checkpoint so it can resume later.
    pub fn pause(&self) {
        self.paused.store(true, Ordering::SeqCst);
    }

    /// Withdraws a pause request.
    pub fn resume(&self) {
        self.paused.store(false, Ordering::SeqCst);
    }

    /// Whether cancellation was requested. The flag is shared with other
    /// threads, so no contract can say what it reads.
    pub fn is_cancelled(&self) -> bool {
        self.cancelled.load(Ordering::SeqCst)
    }

    /// Whether a pause was requested; shared like `is_cancelled`.
    pub fn is_paused(&self) -> bool {
        self.paused.load(Ordering::SeqCst)
    }
}

// ---------------------------------------------------------------------------
// Job records
// ---------------------------------------------------------------------------

/// A queued or finished job. Its fractional progress is kept by the caller
/// next to this record; the changes below say when it is reset or completed.
#[derive(Debug, Clone)]
pub struct Job {
    pub id: String,
    pub job_type: JobType,
    pub library_id: Option<String>,
    pub asset_id: Option<String>,
    pub status: JobStatus,
    pub priority: i32,
    pub current_step: String,
    pub checkpoint_json: Option<String>,
    pub error_code: Option<String>,
    pub error_message: Option<String>,
    pub started_at: Option<i64>,
    pub finished_at: Option<i64>,
    pub created_at: i64,
    pub updated_at: i64,
}

/// A request from the user about a job.
#[derive(Debug, Clone, Copy, PartialEq, Eq, Structural)]
pub enum ControlRequest {
    Pause,
    Resume,
    Cancel,
}

/// How a run of a job ended.
#[derive(Debug, Clone, PartialEq, Eq)]
pub enum RunOutcome {
    Completed,
    Cancelled,
    Paused,
    /// Failed with this message.
    Failed(String),
}

/// A status to record for the job's library.
#[derive(Debug, Clone)]
pub struct LibraryUpdate {
    pub library_id: String,
    pub status: LibraryStatus,
    /// Set when a scan finished, to the time it finished.
    pub last_scan_at: Option<i64>,
}

/// What the caller has to do after a job changed.
#[derive(Debug, Clone)]
pub struct JobEffect {
    /// The job record changed and must be stored.
    pub store: bool,
    /// The job's fractional progress becomes complete.
    pub progress_complete: bool,
    /// A library status to record.
    pub library: Option<LibraryUpdate>,
}

pub open spec fn is_terminal(s: JobStatus) -> bool {
    s == JobStatus::Completed || s == JobStatus::Failed || s == JobStatus::Cancelled
}

/// The status a control request leads to, or `None` when the request does
/// not apply to a job in status `s`.
pub open spec fn controlled_status(s: JobStatus, request: ControlRequest) -> Option<JobStatus> {
    match request {
        ControlRequest::Pause => if s == JobStatus::Running { Some(JobStatus::Paused) } else { None },
        ControlRequest::Resume => if s == JobStatus::Paused { Some(JobStatus::Pending) } else { None },
        ControlRequest::Cancel => if s == JobStatus::Pending || s == JobStatus::Running || s == JobStatus::Paused {
            Some(JobStatus::Cancelled)
        } else {
            None
        },
    }
}

/// The library status that goes with a control request.
pub open spec fn controlled_library_status(request: ControlRequest) -> LibraryStatus {
    match request {
        ControlRequest::Pause => LibraryStatus::Paused,
        _ => LibraryStatus::Idle,
    }
}

/// The job after a control request at time `now`.
pub open spec fn controlled(job: Job, request: ControlRequest, now: i64) -> Job {
    match controlled_status(job.status, request) {
        Some(s) => Job {
            status: s,
            finished_at: if request == ControlRequest::Cancel { Some(now) } else { job.finished_at },
            updated_at: now,
            ..job
        },
        None => job,
    }
}

pub open spec fn library_update_for(job: Job, status: LibraryStatus, last_scan_at: Option<i64>) -> Option<(Seq<char>, LibraryStatus, Option<i64>)> {
    match job.library_id {
        Some(l) => Some((l@, status, last_scan_at)),
        None => None,
    }
}

pub open spec fn library_view(u: Option<LibraryUpdate>) -> Option<(Seq<char>, LibraryStatus, Option<i64>)> {
    match u {
        Some(x) => Some((x.library_id@, x.status, x.last_scan_at)),
        None => None,
    }
}

fn library_update(job: &Job, status: LibraryStatus, last_scan_at: Option<i64>) -> (r: Option<LibraryUpdate>)
    ensures
        library_view(r) == library_update_for(*job, status, last_scan_at),
{
    match &job.library_id {
        Some(l) => Some(LibraryUpdate { library_id: l.clone(), status, last_scan_at }),
        None => None,
    }
}

/// Applies a pause, resume or cancel request. A request that does not apply
/// to the job's status leaves the job as it is.
pub fn apply_control(job: &mut Job, request: ControlRequest, now: i64) -> (r: JobEffect)
    ensures
        *final(job) == controlled(*old(job), request, now),
        r.store == controlled_status(old(job).status, request).is_some(),
        !r.progress_complete,
        library_view(r.library) == if r.store {
            library_update_for(*old(job), controlled_library_status(request), None)
        } else {
            None
        },
{
    let next = match request {
        ControlRequest::Pause => if job.status == JobStatus::Running { Some(JobStatus::Paused) } else { None },
        ControlRequest::Resume => if job.status == JobStatus::Paused { Some(JobStatus::Pending) } else { None },
        ControlRequest::Cancel => if job.status == JobStatus::Pending || job.status == JobStatus::Running
            || job.status == JobStatus::Paused {
            Some(JobStatus::Cancelled)
        } else {
            None
        },
    };
    match next {
        Some(s) => {
            job.status = s;
            if request == ControlRequest::Cancel {
                job.finished_at = Some(now);
            }
            job.updated_at = now;
            let library_status = match request {
                ControlRequest::Pause => LibraryStatus::Paused,
                _ => LibraryStatus::Idle,
            };
            let library = library_update(job, library_status, None);
            JobEffect { store: true, progress_complete: false, library }
        },
        None => JobEffect { store: false, progress_complete: false, library: None },
    }
}

/// The job as the worker starts running it at `now`.
pub open spec fn started(job: Job, now: i64) -> Job {
    Job { status: JobStatus::Running, started_at: Some(now), updated_at: now, ..job }
}

/// Marks a job as running. A scan job's library is then marked as scanning.
pub fn start_job(job: &mut Job, now: i64) -> (r: JobEffect)
    ensures
        *final(job) == started(*old(job), now),
        r.store,
        !r.progress_complete,
        library_view(r.library) == if old(job).job_type == JobType::Scan {
            library_update_for(*old(job), LibraryStatus::Scanning, None)
        } else {
            None
        },
{
    job.status = JobStatus::Running;
    job.started_at = Some(now);
    job.updated_at = now;
    let library = if job.job_type == JobType::Scan {
        library_update(job, LibraryStatus::Scanning, None)
    } else {
        None
    };
    JobEffect { store: true, progress_complete: false, library }
}

/// The status a run outcome leads to.
pub open spec fn outcome_status(outcome: RunOutcome) -> JobStatus {
    match outcome {
        RunOutcome::Completed => JobStatus::Completed,
        RunOutcome::Cancelled => JobStatus::Cancelled,
        RunOutcome::Paused => JobStatus::Paused,
        RunOutcome::Failed(_) => JobStatus::Failed,
    }
}

/// The library status a run outcome leads to.
pub open spec fn outcome_library_status(outcome: RunOutcome) -> LibraryStatus {
    match outcome {
        RunOutcome::Completed => LibraryStatus::Idle,
        RunOutcome::Cancelled => LibraryStatus::Idle,
        RunOutcome::Paused => LibraryStatus::Paused,
        RunOutcome::Failed(_) => LibraryStatus::Failed,
    }
}

/// Records how a run ended: the job's final status, its finish time, the
/// failure reason, and the status its library returns to.
pub fn finish_job(job: &mut Job, outcome: RunOutcome, now: i64) -> (r: JobEffect)
    ensures
        final(job).id == old(job).id,
        final(job).job_type == old(job).job_type,
        final(job).library_id == old(job).library_id,
        final(job).asset_id == old(job).asset_id,
        final(job).priority == old(job).priority,
        final(job).current_step == old(job).current_step,
        final(job).checkpoint_json == old(job).checkpoint_json,
        final(job).started_at == old(job).started_at,
        final(job).created_at == old(job).created_at,
        final(job).status == outcome_status(outcome),
        final(job).updated_at == now,
        final(job).finished_at == if outcome == RunOutcome::Paused { old(job).finished_at } else { Some(now) },
        match outcome {
            RunOutcome::Failed(m) => final(job).error_code is Some && final(job).error_code->0@ == "scan_failed"@
                && final(job).error_message == Some(m),
            _ => final(job).error_code == old(job).error_code && final(job).error_message == old(job).error_message,
        },
        r.store,
        r.progress_complete == (outcome == RunOutcome::Completed),
        library_view(r.library) == library_update_for(
            *old(job),
            outcome_library_status(outcome),
            if outcome == RunOutcome::Completed { Some(now) } else { None },
        ),
{
    let mut complete = false;
    match outcome {
        RunOutcome::Completed => {
            job.status = JobStatus::Completed;
            job.finished_at = Some(now);
            complete = true;
        },
        RunOutcome::Cancelled => {
            job.status = JobStatus::Cancelled;
            job.finished_at = Some(now);
        },
        RunOutcome::Paused => {
            job.status = JobStatus::Paused;
        },
        RunOutcome::Failed(m) => {
            job.status = JobStatus::Failed;
            let mut code = String::new();
            push_str(&mut code, "scan_failed");
            job.error_code = Some(code);
            job.error_message = Some(m);
            job.finished_at = Some(now);
        },
    }
    job.updated_at = now;
    let library_status = if complete {
        LibraryStatus::Idle
    } else {
        match job.status {
            JobStatus::Cancelled => LibraryStatus::Idle,
            JobStatus::Paused => LibraryStatus::Paused,
            _ => LibraryStatus::Failed,
        }
    };
    let library = library_update(job, library_status, if complete { Some(now) } else { None });
    JobEffect { store: true, progress_complete: complete, library }
}

/// The job as the worker picks it up again after the process stopped while
/// it ran; jobs in any other status are left alone (a pause is the user's
/// decision and survives a restart).
pub fn recover_interrupted(job: &mut Job, now: i64) -> (r: bool)
    ensures
        r == (old(job).status == JobStatus::Running),
        !r ==> *final(job) == *old(job),
        r ==> final(job).status == JobStatus::Pending && final(job).current_step@ == "等待恢复（上次运行中断）"@
            && final(job).updated_at == now && *final(job) == (Job {
                status: final(job).status,
                current_step: final(job).current_step,
                updated_at: final(job).updated_at,
                ..*old(job)
            }),
{
    if job.status == JobStatus::Running {
        job.status = JobStatus::Pending;
        let mut step = String::new();
        push_str(&mut step, "等待恢复（上次运行中断）");
        job.current_step = step;
        job.updated_at = now;
        true
    } else {
        false
    }
}

// ---------------------------------------------------------------------------
// Retrying
// ---------------------------------------------------------------------------

pub open spec fn retryable(s: JobStatus) -> bool {
    s == JobStatus::Failed || s == JobStatus::Cancelled
}

/// The fresh job that retries `failed` under the id `new_id` at `now`: same
/// kind, target and priority, back in the queue with its run history cleared.
pub open spec fn retry_of(failed: Job, new_id: Seq<char>, now: i64, j: Job) -> bool {
    &&& j.id@ == new_id
    &&& j.job_type == failed.job_type
    &&& j.library_id == failed.library_id
    &&& j.asset_id == failed.asset_id
    &&& j.priority == failed.priority
    &&& j.status == JobStatus::Pending
    &&& j.current_step@ == "等待重试"@
    &&& j.checkpoint_json is None
    &&& j.error_code is None
    &&& j.error_message is None
    &&& j.started_at is None
    &&& j.finished_at is None
    &&& j.created_at == now
    &&& j.updated_at == now
}

pub open spec fn retry_refusal() -> Seq<char> {
    "只有失败或已取消的任务可以重试"@
}

/// Builds the retry of a failed or cancelled job; any other job is refused.
pub fn retried_job(failed: &Job, new_id: String, now: i64) -> (r: Result<Job, AppError>)
    ensures
        r is Ok <==> retryable(failed.status),
        r matches Ok(j) ==> retry_of(*failed, new_id@, now, j),
        r matches Err(e) ==> e matches AppError::Other(m) && m@ == retry_refusal(),
{
    if !(failed.status == JobStatus::Failed || failed.status == JobStatus::Cancelled) {
        let mut m = String::new();
        push_str(&mut m, "只有失败或已取消的任务可以重试");
        return Err(AppError::Other(m));
    }
    let mut step = String::new();
    push_str(&mut step, "等待重试");
    Ok(Job {
        id: new_id,
        job_type: failed.job_type,
        library_id: failed.library_id.clone(),
        asset_id: failed.asset_id.clone(),
        status: JobStatus::Pending,
        priority: failed.priority,
        current_step: step,
        checkpoint_json: None,
        error_code: None,
        error_message: None,
        started_at: None,
        finished_at: None,
        created_at: now,
        updated_at: now,
    })
}

/// Retries a failed or cancelled job under a new random id.
pub fn retry_job(failed: &Job, now: i64) -> (r: Result<Job, AppError>)
    ensures
        r is Ok <==> retryable(failed.status),
        r matches Ok(j) ==> j.id@.len() == 36 && retry_of(*failed, j.id@, now, j),
        r matches Err(e) ==> e matches AppError::Other(m) && m@ == retry_refusal(),
{
    let id = crate::models::new_random_id();
    retried_job(failed, id, now)
}

// ---------------------------------------------------------------------------
// Choosing the next job
// ---------------------------------------------------------------------------

/// Whether job `i` goes before job `j`: higher priority first, then the
/// older one, then the one listed first.
pub open spec fn runs_before(jobs: Seq<Job>, i: int, j: int) -> bool {
    ||| jobs[i].priority > jobs[j].priority
    ||| jobs[i].priority == jobs[j].priority && jobs[i].created_at < jobs[j].created_at
    ||| jobs[i].priority == jobs[j].priority && jobs[i].created_at == jobs[j].created_at && i < j
}

/// The pending job to run next: the one that goes before all others.
pub fn next_job(jobs: &Vec<Job>) -> (r: Option<usize>)
    ensures
        r is None <==> jobs@.len() == 0,
        r matches Some(i) ==> i < jobs@.len() && forall|j: int|
            0 <= j < jobs@.len() && j != i ==> runs_before(jobs@, i as int, j),
{
    let n = jobs.len();
    if n == 0 {
        return None;
    }
    let mut best: usize = 0;
    for k in 1..n
        invariant
            n == jobs@.len(),
            best < k,
            forall|j: int| 0 <= j < k && j != best ==> runs_before(jobs@, best as int, j),
    {
        let better = jobs[k].priority > jobs[best].priority || (jobs[k].priority == jobs[best].priority
            && jobs[k].created_at < jobs[best].created_at);
        let ghost old_best = best as int;
        if better {
            best = k;
            assert forall|j: int| 0 <= j < k + 1 && j != best implies runs_before(jobs@, best as int, j) by {
                if j != old_best {
                    assert(runs_before(jobs@, old_best, j));
                }
            }
        } else {
            assert(runs_before(jobs@, best as int, k as int));
        }
    }
    Some(best)
}

// ---------------------------------------------------------------------------
// Laws
// ---------------------------------------------------------------------------

/// Completed, failed and cancelled jobs ignore pause, resume and cancel
/// requests.
pub proof fn law_finished_jobs_ignore_control(job: Job, request: ControlRequest, now: i64)
    requires
        is_terminal(job.status),
    ensures
        controlled(job, request, now) == job,
{
}

/// Cancelling twice is the same as cancelling once.
pub proof fn law_cancel_is_idempotent(job: Job, t1: i64, t2: i64)
    ensures
        controlled(controlled(job, ControlRequest::Cancel, t1), ControlRequest::Cancel, t2)
            == controlled(job, ControlRequest::Cancel, t1),
{
}

/// Pausing a running job and resuming it puts it back in the queue, with
/// nothing but its status and update time changed.
pub proof fn law_pause_then_resume_requeues(job: Job, t1: i64, t2: i64)
    requires
        job.status == JobStatus::Running,
    ensures
        controlled(controlled(job, ControlRequest::Pause, t1), ControlRequest::Resume, t2)
            == (Job { status: JobStatus::Pending, updated_at: t2, ..job }),
{
}

/// The library a scan job scans; a scan job without one is refused.
pub fn scan_target(job: &Job) -> (r: Result<String, AppError>)
    ensures
        match job.library_id {
            Some(l) => r matches Ok(x) && x == l,
            None => r matches Err(e) && (e matches AppError::Other(m) && m@ == "扫描任务缺少素材库 ID"@),
        },
{
    match &job.library_id {
        Some(l) => Ok(l.clone()),
        None => Err(AppError::Other("扫描任务缺少素材库 ID".to_string())),
    }
}

/// The step shown once a scan has counted its files.
pub fn total_step(total: i64) -> (r: String)
    ensures
        r@ == "发现 "@ + crate::text::signed_decimal(total as int) + " 个文件"@,
{
    let mut s = String::new();
    push_str(&mut s, "发现 ");
    crate::text::push_signed(&mut s, total);
    push_str(&mut s, " 个文件");
    s
}

/// The step shown while a file is scanned.
pub fn scan_step(file_name: &str) -> (r: String)
    ensures
        r@ == "扫描: "@ + file_name@,
{
    let mut s = String::new();
    push_str(&mut s, "扫描: ");
    push_str(&mut s, file_name);
    s
}


/// Cancelling stops every job that has not finished: a pending, running or
/// paused job becomes cancelled, finished at the time of the request, its
/// record is stored and its library goes idle.
pub proof fn law_cancel_stops_every_unfinished_job(job: Job, now: i64)
    requires
        !is_terminal(job.status),
    ensures
        controlled(job, ControlRequest::Cancel, now).status == JobStatus::Cancelled,
        controlled(job, ControlRequest::Cancel, now).finished_at == Some(now),
        controlled_status(job.status, ControlRequest::Cancel).is_some(),
        controlled_library_status(ControlRequest::Cancel) == LibraryStatus::Idle,
{
}

} // verus!
