//! Download policy: which failures are retried and after what delay, when
//! a download is skipped, how a partial file is resumed or discarded, how
//! many workers a batch uses, and the progress a batch reports.

use vstd::prelude::*;
use crate::text::{copy_str, decimal, decimal_text};

verus! {

/// One file to fetch: its URL and destination path.
#[derive(Clone, Debug, PartialEq, Eq)]
pub struct DownloadJob {
    pub url: String,
    pub dest: String,
}

/// Progress of a long-running operation.
#[derive(Clone, Debug, PartialEq, Eq)]
pub struct ProgressEvent {
    pub stage: String,
    pub message: String,
    pub current: u64,
    pub total: Option<u64>,
    pub detail: Option<String>,
}

/// How one network attempt failed.
#[derive(Clone, Copy, Debug, PartialEq, Eq, Structural)]
pub enum Failure {
    /// The server answered with this HTTP status.
    Status(u16),
    /// The connection failed before a status came back.
    Transport,
    /// Writing the received bytes failed.
    Io,
}

/// Delays between attempts, in milliseconds.
pub open spec fn backoff(attempt: int) -> u64 {
    if attempt == 0 {
        200
    } else if attempt == 1 {
        500
    } else if attempt == 2 {
        1000
    } else if attempt == 3 {
        2000
    } else {
        4000
    }
}

/// Number of attempts a call gets.
pub const MAX_ATTEMPTS: usize = 5;

/// A failure worth retrying: a transport failure, HTTP 429 or a status of 500 or more.
pub open spec fn retryable(f: Failure) -> bool {
    match f {
        Failure::Status(code) => code == 429 || code >= 500,
        Failure::Transport => true,
        Failure::Io => false,
    }
}

/// What follows failure number `failures + 1` of a plain request: another
/// attempt after the backoff delay while attempts are left and the failure
/// is retryable; else giving up.
pub open spec fn fetch_retry(failures: nat, f: Failure) -> AttemptStep {
    if retryable(f) && failures + 1 < MAX_ATTEMPTS {
        AttemptStep::Wait(backoff(failures as int))
    } else {
        AttemptStep::GiveUp
    }
}

/// What follows failure number `failures + 1` of a download: as for a plain
/// request, except that a refused range (416) is also attempted again, from
/// byte zero once the partial file is discarded.
pub open spec fn download_retry(failures: nat, f: Failure) -> AttemptStep {
    if (retryable(f) || f == Failure::Status(416)) && failures + 1 < MAX_ATTEMPTS {
        AttemptStep::Wait(backoff(failures as int))
    } else {
        AttemptStep::GiveUp
    }
}

/// The failure discards the partial file.
pub open spec fn discards(f: Failure) -> bool {
    f == Failure::Status(416)
}

/// Byte offset an attempt asks from, given the partial file's length.
pub open spec fn resume_range(partial_len: u64) -> Option<u64> {
    if partial_len > 0 {
        Some(partial_len)
    } else {
        None
    }
}

/// The received bytes are appended to the partial file (rather than written
/// from byte zero).
pub open spec fn appends(resume_from: Option<u64>, status: u16) -> bool {
    resume_from matches Some(o) && o > 0 && status == 206
}

/// How a download to a destination that exists, or not, starts.
pub open spec fn start_plan(dest_exists: bool) -> DownloadStart {
    if dest_exists {
        DownloadStart::Skip
    } else {
        DownloadStart::Fetch
    }
}

/// Whether an HTTP status is worth retrying.
pub fn should_retry_http(code: u16) -> (r: bool)
    ensures
        r == retryable(Failure::Status(code)),
{
    code == 429 || code >= 500
}

/// Whether a failed attempt is worth retrying.
pub fn should_retry_download(f: Failure) -> (r: bool)
    ensures
        r == retryable(f),
{
    match f {
        Failure::Status(code) => should_retry_http(code),
        Failure::Transport => true,
        Failure::Io => false,
    }
}

/// The server refused the requested byte range.
pub fn is_range_not_satisfiable(f: Failure) -> (r: bool)
    ensures
        r == (f == Failure::Status(416)),
{
    match f {
        Failure::Status(code) => code == 416,
        _ => false,
    }
}

/// What to do after attempt number `attempt` (from 0) failed.
#[derive(Clone, Copy, Debug, PartialEq, Eq, Structural)]
pub enum RetryDecision {
    /// Wait this many milliseconds, then try again.
    Retry(u64),
    /// Give up with the failure.
    GiveUp,
}

/// Retry after the fixed backoff while attempts are left and the failure is
/// retryable; give up otherwise.
pub fn after_failure(attempt: usize, f: Failure) -> (r: RetryDecision)
    requires
        attempt < MAX_ATTEMPTS,
    ensures
        r == (if retryable(f) && attempt + 1 < MAX_ATTEMPTS {
            RetryDecision::Retry(backoff(attempt as int))
        } else {
            RetryDecision::GiveUp
        }),
{
    if !should_retry_download(f) || attempt + 1 >= MAX_ATTEMPTS {
        return RetryDecision::GiveUp;
    }
    let delay: u64 = if attempt == 0 {
        200
    } else if attempt == 1 {
        500
    } else if attempt == 2 {
        1000
    } else if attempt == 3 {
        2000
    } else {
        4000
    };
    RetryDecision::Retry(delay)
}

/// What follows a failed attempt.
#[derive(Clone, Copy, Debug, PartialEq, Eq, Structural)]
pub enum AttemptStep {
    /// Wait this many milliseconds, then attempt again.
    Wait(u64),
    /// Fail with the last error.
    GiveUp,
}

/// The attempts of one network call.
pub struct Attempts {
    failed: usize,
}

impl Attempts {
    /// Attempts that failed so far.
    pub closed spec fn failures(&self) -> nat {
        self.failed as nat
    }

    /// A call that has not been attempted yet.
    pub fn new() -> (r: Attempts)
        ensures
            r.failures() == 0,
    {
        Attempts { failed: 0 }
    }

    /// Whether another failure may be recorded (always, once a call has been
    /// set up through `new` and `on_failure`).
    pub fn may_record(&self) -> (r: bool)
        ensures
            r == (self.failures() < MAX_ATTEMPTS),
    {
        self.failed < MAX_ATTEMPTS
    }

    /// Records a failed attempt and decides what follows: another attempt
    /// after the next backoff delay while attempts are left and the failure
    /// is retryable, else giving up. A call is attempted at most
    /// `MAX_ATTEMPTS` times.
    pub fn on_failure(&mut self, f: Failure) -> (r: AttemptStep)
        requires
            old(self).failures() < MAX_ATTEMPTS,
        ensures
            r == fetch_retry(old(self).failures(), f),
            r is Wait ==> final(self).failures() == old(self).failures() + 1 && final(self).failures() < MAX_ATTEMPTS,
            r is GiveUp ==> final(self).failures() == old(self).failures(),
    {
        match after_failure(self.failed, f) {
            RetryDecision::Retry(delay) => {
                self.failed = self.failed + 1;
                AttemptStep::Wait(delay)
            },
            RetryDecision::GiveUp => AttemptStep::GiveUp,
        }
    }

    /// Records a failed download attempt and decides what follows (see
    /// `download_retry`): a refused range is attempted again too, after the
    /// caller has discarded the partial file (see `discard_partial`).
    pub fn on_download_failure(&mut self, f: Failure) -> (r: AttemptStep)
        requires
            old(self).failures() < MAX_ATTEMPTS,
        ensures
            r == download_retry(old(self).failures(), f),
            r is Wait ==> final(self).failures() == old(self).failures() + 1 && final(self).failures() < MAX_ATTEMPTS,
            r is GiveUp ==> final(self).failures() == old(self).failures(),
    {
        let restart = is_range_not_satisfiable(f);
        if (should_retry_download(f) || restart) && self.failed + 1 < MAX_ATTEMPTS {
            let delay: u64 = if self.failed == 0 {
                200
            } else if self.failed == 1 {
                500
            } else if self.failed == 2 {
                1000
            } else if self.failed == 3 {
                2000
            } else {
                4000
            };
            self.failed = self.failed + 1;
            AttemptStep::Wait(delay)
        } else {
            AttemptStep::GiveUp
        }
    }
}

/// How a download to a destination starts.
#[derive(Clone, Copy, Debug, PartialEq, Eq, Structural)]
pub enum DownloadStart {
    /// The destination exists: nothing is fetched.
    Skip,
    /// Fetch into the temporary sibling, then rename.
    Fetch,
}

/// A destination that already exists is never fetched again.
pub fn plan_download(dest_exists: bool) -> (r: DownloadStart)
    ensures
        r == start_plan(dest_exists),
{
    if dest_exists {
        DownloadStart::Skip
    } else {
        DownloadStart::Fetch
    }
}

/// Offset to resume from, given the length of the partial temporary file.
pub fn resume_offset(partial_len: u64) -> (r: Option<u64>)
    ensures
        r == resume_range(partial_len),
{
    if partial_len > 0 {
        Some(partial_len)
    } else {
        None
    }
}

/// Value of the `Range` header that asks for the bytes from `offset` on.
pub fn range_header(offset: u64) -> (r: String)
    ensures
        r@ == "bytes="@ + decimal(offset as nat) + "-"@,
{
    let mut r = copy_str("bytes=");
    let n = decimal_text(offset);
    r.append(n.as_str());
    r.append("-");
    r
}

/// Whether the received bytes are appended to the partial file (the server
/// honoured the range) rather than written over it.
pub fn append_to_partial(resume_from: Option<u64>, status: u16) -> (r: bool)
    ensures
        r == appends(resume_from, status),
{
    match resume_from {
        Some(o) => o > 0 && status == 206,
        None => false,
    }
}

/// Whether a failure discards the partial file, so that the next attempt
/// starts from byte zero.
pub fn discard_partial(f: Failure) -> (r: bool)
    ensures
        r == discards(f),
{
    is_range_not_satisfiable(f)
}

/// A second download to a destination that the first one created makes no
/// request: for an existing destination the plan is to skip.
pub proof fn lemma_existing_destination_skipped()
    ensures
        start_plan(true) == DownloadStart::Skip,
{
}

/// Resuming a partial file of length `len > 0`: the attempt asks for the
/// bytes from `len` on, and a server that honours the range (206) has its
/// bytes appended. A refused range (416) discards the partial file and, with
/// attempts left, is attempted again; that attempt finds no partial file, so
/// it asks for the whole file and writes it from byte zero, whatever status
/// comes back.
pub proof fn lemma_download_resume(len: u64, failures: nat, status: u16)
    requires
        len > 0,
        failures + 1 < MAX_ATTEMPTS,
    ensures
        resume_range(len) == Some(len),
        appends(resume_range(len), 206),
        discards(Failure::Status(416)),
        download_retry(failures, Failure::Status(416)) is Wait,
        resume_range(0) is None,
        !appends(resume_range(0), status),
{
}

/// Number of worker threads for a batch: the host's parallelism (4 when it is
/// unknown), kept between 2 and 8.
pub fn worker_count(available: Option<usize>) -> (r: usize)
    ensures
        r == ({
            let n = match available {
                Some(n) => n,
                None => 4,
            };
            if n < 2 {
                2
            } else if n > 8 {
                8
            } else {
                n
            }
        }),
{
    let n = match available {
        Some(n) => n,
        None => 4,
    };
    if n < 2 {
        2
    } else if n > 8 {
        8
    } else {
        n
    }
}

/// Bookkeeping of a parallel batch: completions counted in the order they
/// arrive, and the first error kept.
pub struct BatchProgress {
    pub stage: String,
    pub label: String,
    pub total: u64,
    pub completed: u64,
    pub first_error: Option<String>,
}

impl BatchProgress {
    /// A batch of `total` jobs with nothing completed yet.
    pub fn new(stage: &str, label: &str, total: u64) -> (r: BatchProgress)
        ensures
            r.stage@ == stage@,
            r.label@ == label@,
            r.total == total,
            r.completed == 0,
            r.first_error is None,
    {
        BatchProgress {
            stage: copy_str(stage),
            label: copy_str(label),
            total,
            completed: 0,
            first_error: None,
        }
    }

    /// Records one completed job (its destination's file name, when it has
    /// one, and its error, if any) and returns the progress to report:
    /// `label (completed/total)`, with detail `stage: file` (or `stage`).
    pub fn record(&mut self, file_name: Option<String>, error: Option<String>) -> (r: ProgressEvent)
        requires
            old(self).completed < old(self).total,
        ensures
            final(self).completed == old(self).completed + 1,
            final(self).total == old(self).total,
            final(self).stage == old(self).stage,
            final(self).label == old(self).label,
            final(self).first_error == (if old(self).first_error is Some {
                old(self).first_error
            } else {
                error
            }),
            r.stage@ == old(self).stage@,
            r.current == final(self).completed,
            r.total == Some(old(self).total),
            r.message@ == old(self).label@ + " ("@ + decimal(final(self).completed as nat) + "/"@
                + decimal(old(self).total as nat) + ")"@,
            r.detail matches Some(d) && d@ == match file_name {
                Some(f) => old(self).stage@ + ": "@ + f@,
                None => old(self).stage@,
            },
    {
        self.completed = self.completed + 1;
        let mut message = self.label.clone();
        message.append(" (");
        let c = decimal_text(self.completed);
        message.append(c.as_str());
        message.append("/");
        let t = decimal_text(self.total);
        message.append(t.as_str());
        message.append(")");
        let detail = match file_name {
            Some(f) => {
                let mut d = self.stage.clone();
                d.append(": ");
                d.append(f.as_str());
                d
            },
            None => self.stage.clone(),
        };
        if self.first_error.is_none() {
            self.first_error = error;
        }
        ProgressEvent {
            stage: self.stage.clone(),
            message,
            current: self.completed,
            total: Some(self.total),
            detail: Some(detail),
        }
    }

    /// Outcome of the whole batch: the first error recorded, if any.
    pub fn finish(self) -> (r: Result<(), String>)
        ensures
            match self.first_error {
                Some(e) => r == Err::<(), String>(e),
                None => r is Ok,
            },
    {
        match self.first_error {
            Some(e) => Err(e),
            None => Ok(()),
        }
    }
}

} // verus!
