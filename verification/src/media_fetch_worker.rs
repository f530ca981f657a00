//! Decisions of the worker that downloads the originals of saved posts.

use vstd::prelude::*;

use crate::audit;
use crate::audit::event;
use crate::text;
use crate::text::{dec_i64, dec_u64, join};

verus! {

/// How many posts one pass takes.
pub const BATCH: i64 = 20;

/// The pause between two downloads, in milliseconds.
pub const ITEM_DELAY_MS: u64 = 400;

/// The pause between two passes, in milliseconds.
pub const PASS_INTERVAL_MS: u64 = 30000;

/// How often a download is tried.
pub const ATTEMPTS: usize = 3;

// ---------------------------------------------------------------------------
// Control
// ---------------------------------------------------------------------------

/// The switches of the worker.
#[derive(Clone, Copy, Debug, PartialEq, Eq, Structural)]
pub struct WorkerFlags {
    pub paused: bool,
    pub kick: bool,
}

pub fn set_worker_paused(flags: &mut WorkerFlags, paused: bool)
    ensures
        *final(flags) == (WorkerFlags { paused, ..*old(flags) }),
{
    flags.paused = paused;
}

pub fn worker_paused(flags: &WorkerFlags) -> (r: bool)
    ensures
        r == flags.paused,
{
    flags.paused
}

/// Asks for a pass without the usual wait.
pub fn kick_worker(flags: &mut WorkerFlags)
    ensures
        *final(flags) == (WorkerFlags { kick: true, ..*old(flags) }),
{
    flags.kick = true;
}

/// Whether a pass was asked for since the last call.
pub fn take_kick(flags: &mut WorkerFlags) -> (r: bool)
    ensures
        r == old(flags).kick,
        *final(flags) == (WorkerFlags { kick: false, ..*old(flags) }),
{
    let asked = flags.kick;
    flags.kick = false;
    asked
}

/// How long the worker waits before its next pass.
pub fn wait_before_pass(flags: &mut WorkerFlags) -> (r: u64)
    ensures
        r == (if old(flags).kick {
            50
        } else {
            PASS_INTERVAL_MS
        }),
        *final(flags) == (WorkerFlags { kick: false, ..*old(flags) }),
{
    if take_kick(flags) {
        50
    } else {
        PASS_INTERVAL_MS
    }
}

/// What a pass does with one pending post.
#[derive(Clone, Copy, Debug, PartialEq, Eq, Structural)]
pub enum PassStep {
    /// The worker was paused: the pass ends.
    Stop,
    /// Nothing to download.
    Skip,
    /// Download it.
    Fetch,
}

pub fn pass_step(flags: &WorkerFlags, url: &str, ext: &str) -> (r: PassStep)
    ensures
        r == (if flags.paused {
            PassStep::Stop
        } else if url@.len() == 0 || ext@.len() == 0 {
            PassStep::Skip
        } else {
            PassStep::Fetch
        }),
{
    if flags.paused {
        PassStep::Stop
    } else if url.is_empty() || ext.is_empty() {
        PassStep::Skip
    } else {
        PassStep::Fetch
    }
}

// ---------------------------------------------------------------------------
// One original
// ---------------------------------------------------------------------------

/// What a download came to.
#[derive(Clone, Copy, Debug, PartialEq, Eq, Structural)]
pub enum DownloadResult {
    Stored,
    Deleted,
}

/// The download of one original.
#[derive(Debug)]
pub struct FetchRun {
    pub attempt: usize,
    pub last_err: Option<String>,
}

/// What to do next.
#[derive(Debug)]
pub enum FetchAction {
    /// Wait so many milliseconds, then download.
    Attempt(u64),
    /// Give up with this error.
    Fail(String),
}

/// Starts a download; a stored original needs none.
pub fn fetch_original(stored: bool) -> (r: Option<FetchRun>)
    ensures
        match r {
            Some(f) => !stored && f.attempt == 0 && f.last_err is None,
            None => stored,
        },
{
    if stored {
        None
    } else {
        Some(FetchRun { attempt: 0, last_err: None })
    }
}

impl FetchRun {
    /// The next attempt, or the last error once the attempts are spent.
    pub fn action(&self) -> (r: FetchAction)
        ensures
            if self.attempt < ATTEMPTS {
                r matches FetchAction::Attempt(ms) && ms == 400 * self.attempt
            } else {
                r matches FetchAction::Fail(e) && e@ == (match self.last_err {
                    Some(m) => m@,
                    None => "no attempts ran"@,
                })
            },
    {
        if self.attempt < ATTEMPTS {
            FetchAction::Attempt(400 * self.attempt as u64)
        } else {
            match &self.last_err {
                Some(m) => FetchAction::Fail(m.clone()),
                None => FetchAction::Fail(String::from_str("no attempts ran")),
            }
        }
    }

    /// Books an attempt. The result is whether the original is stored, once that
    /// is settled.
    pub fn report(&mut self, outcome: Result<DownloadResult, String>) -> (r: Option<bool>)
        requires
            old(self).attempt < ATTEMPTS,
        ensures
            final(self).attempt == old(self).attempt + 1,
            match outcome {
                Ok(DownloadResult::Stored) => r == Some(true) && final(self).last_err == old(
                    self,
                ).last_err,
                Ok(DownloadResult::Deleted) => r == Some(false) && final(self).last_err == old(
                    self,
                ).last_err,
                Err(e) => r is None && final(self).last_err == Some(e),
            },
    {
        self.attempt = self.attempt + 1;
        match outcome {
            Ok(DownloadResult::Stored) => Some(true),
            Ok(DownloadResult::Deleted) => Some(false),
            Err(e) => {
                self.last_err = Some(e);
                None
            },
        }
    }
}

/// `get <id> <url>: `, at the head of every download error.
pub open spec fn get_prefix(post_id: int, url: Seq<char>) -> Seq<char> {
    "get "@ + text::dec(post_id) + " "@ + url + ": "@
}

fn get_text(post_id: i64, url: &str) -> (r: String)
    ensures
        r@ == get_prefix(post_id as int, url@),
{
    let mut s = String::from_str("get ");
    s.append(dec_i64(post_id).as_str());
    s.append(" ");
    s.append(url);
    s.append(": ");
    s
}

/// The error of a request that got no response.
pub fn send_error(post_id: i64, url: &str, chain: &Vec<String>) -> (r: String)
    ensures
        r@ == get_prefix(post_id as int, url@) + text::joined(text::views(chain@), " <- "@),
{
    let mut s = get_text(post_id, url);
    s.append(err_chain(chain).as_str());
    s
}

/// An error and its causes, outermost first, in one line.
pub fn err_chain(chain: &Vec<String>) -> (r: String)
    ensures
        r@ == text::joined(text::views(chain@), " <- "@),
{
    join(chain, " <- ")
}

/// What the status of a response means.
#[derive(Debug)]
pub enum StatusVerdict {
    /// The original is gone for good.
    Deleted,
    /// The attempt failed.
    Failed(String),
    /// The body is worth reading.
    Read,
}

/// Judges a response by its status; `status_text` is the status line.
pub fn judge_status(post_id: i64, url: &str, status: u16, status_text: &str) -> (r: StatusVerdict)
    ensures
        if status == 404 || status == 410 {
            r is Deleted
        } else if 200 <= status < 300 {
            r is Read
        } else {
            r matches StatusVerdict::Failed(e) && e@ == get_prefix(post_id as int, url@) + "HTTP "@
                + status_text@
        },
{
    if status == 404 || status == 410 {
        return StatusVerdict::Deleted;
    }
    if status >= 200 && status < 300 {
        return StatusVerdict::Read;
    }
    let mut s = get_text(post_id, url);
    s.append("HTTP ");
    s.append(status_text);
    StatusVerdict::Failed(s)
}

/// An announced length, `?` where none was.
pub open spec fn length_text(content_length: Option<u64>) -> Seq<char> {
    match content_length {
        Some(n) => text::dec(n as int),
        None => "?"@,
    }
}

fn length_string(content_length: Option<u64>) -> (r: String)
    ensures
        r@ == length_text(content_length),
{
    match content_length {
        Some(n) => dec_u64(n),
        None => String::from_str("?"),
    }
}

/// The error of a body that broke off.
pub fn read_error(
    post_id: i64,
    url: &str,
    chain: &Vec<String>,
    status_text: &str,
    content_length: Option<u64>,
    content_type: &str,
) -> (r: String)
    ensures
        r@ == "read "@ + text::dec(post_id as int) + " "@ + url@ + ": "@ + text::joined(
            text::views(chain@),
            " <- "@,
        ) + " (status="@ + status_text@ + ", content-length="@ + length_text(content_length)
            + ", content-type="@ + content_type@ + ")"@,
{
    let mut s = String::from_str("read ");
    s.append(dec_i64(post_id).as_str());
    s.append(" ");
    s.append(url);
    s.append(": ");
    s.append(err_chain(chain).as_str());
    s.append(" (status=");
    s.append(status_text);
    s.append(", content-length=");
    s.append(length_string(content_length).as_str());
    s.append(", content-type=");
    s.append(content_type);
    s.append(")");
    s
}

/// Refuses an empty body.
pub fn judge_body(
    post_id: i64,
    url: &str,
    body_len: usize,
    status_text: &str,
    content_length: Option<u64>,
) -> (r: Result<(), String>)
    ensures
        body_len > 0 ==> r is Ok,
        body_len == 0 ==> (r matches Err(e) && e@ == get_prefix(post_id as int, url@)
            + "empty body (status="@ + status_text@ + ", content-length="@ + length_text(
            content_length,
        ) + ")"@),
{
    if body_len > 0 {
        return Ok(());
    }
    let mut s = get_text(post_id, url);
    s.append("empty body (status=");
    s.append(status_text);
    s.append(", content-length=");
    s.append(length_string(content_length).as_str());
    s.append(")");
    Err(s)
}

/// The audit line of a post that was dropped because its original is gone; none
/// where it was not in the catalog any more.
pub fn remove_deleted_post(post_id: i64, dropped: usize) -> (r: Option<String>)
    ensures
        match r {
            Some(s) => dropped > 0 && s@ == "[AUDIT] "@ + "catalog.media.post_deleted"@
                + audit::field_text("post_id"@, text::dec(post_id as int)),
            None => dropped == 0,
        },
{
    if dropped == 0 {
        return None;
    }
    let line = event("catalog.media.post_deleted").field(
        "post_id",
        dec_i64(post_id).as_str(),
    ).emit();
    proof {
        let f = audit::field_text("post_id"@, text::dec(post_id as int));
        assert(Seq::<char>::empty() + f =~= f);
    }
    Some(line)
}

/// The state of a download after some failed attempts.
pub open spec fn failed_run(run: FetchRun, errors: Seq<String>) -> FetchRun
    decreases errors.len(),
{
    if errors.len() == 0 {
        run
    } else {
        let before = failed_run(run, errors.drop_last());
        FetchRun { attempt: (before.attempt + 1) as usize, last_err: Some(errors.last()) }
    }
}

/// A download is tried three times; what it fails with is its last error.
pub proof fn law_three_attempts(errors: Seq<String>)
    requires
        errors.len() == 3,
    ensures
        failed_run(FetchRun { attempt: 0, last_err: None }, errors).attempt == ATTEMPTS,
        failed_run(FetchRun { attempt: 0, last_err: None }, errors).last_err == Some(errors[2]),
{
    reveal_with_fuel(failed_run, 4);
}

} // verus!
