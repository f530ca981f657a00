//! Feed sessions and the pruning of revoked tokens.

use vstd::prelude::*;

use crate::clock;
use crate::clock::{parse_db_datetime, span_between};
use crate::models::Stamp;

verus! {

pub const FEED_SESSION_TTL_MIN: i64 = 30;

#[derive(Debug, Clone, Copy, PartialEq, Eq, Structural)]
pub enum FeedSessionState {
    /// The session was not known; it is created.
    Fresh,
    /// The session goes on; its last access is renewed.
    Active,
    /// The session lay idle too long; it is left as it is.
    Expired,
}

/// How long a session stays good without a request, in nanoseconds.
pub open spec fn ttl_nanos() -> int {
    FEED_SESSION_TTL_MIN * 60_000_000_000
}

/// The state of a session that was last touched `idle` nanoseconds ago.
pub open spec fn session_state(idle: int) -> FeedSessionState {
    if idle > ttl_nanos() {
        FeedSessionState::Expired
    } else {
        FeedSessionState::Active
    }
}

/// The state of a session, given the seconds and nanoseconds since its last access.
pub fn judge_session(idle: (i64, i32)) -> (r: FeedSessionState)
    ensures
        r == session_state(clock::span_nanos(idle)),
{
    let nanos: i128 = idle.0 as i128 * 1_000_000_000 + idle.1 as i128;
    if nanos > FEED_SESSION_TTL_MIN as i128 * 60_000_000_000 {
        FeedSessionState::Expired
    } else {
        FeedSessionState::Active
    }
}

/// What a request means for its feed session. `last_raw` is the stored time of
/// the last access, if the session is known. A fresh session is to be inserted,
/// an active one touched.
///
/// A stored time that reads but lies outside the calendar counts as never
/// expiring; `Utc` values written by this service never do.
pub fn touch_or_create_feed_session(last_raw: Option<&str>, now: Stamp) -> (r: Result<
    FeedSessionState,
    String,
>)
    ensures
        match last_raw {
            None => r == Ok::<FeedSessionState, String>(FeedSessionState::Fresh),
            Some(raw) => match clock::db_datetime(raw@) {
                Ok(last) => r == Ok::<FeedSessionState, String>(
                    match clock::span_apart(now.secs, now.nanos, last.0, last.1) {
                        Some(d) => session_state(clock::span_nanos(d)),
                        None => FeedSessionState::Active,
                    },
                ),
                Err(e) => r matches Err(m) && m@ == "Failed to parse session timestamp: "@ + e,
            },
        },
        match last_raw {
            Some(raw) => match clock::db_datetime(raw@) {
                Ok(last) => clock::is_plain(now.secs, now.nanos) && clock::is_plain(last.0, last.1)
                    ==> r == Ok::<FeedSessionState, String>(
                    session_state(clock::nanos_apart((now.secs, now.nanos), last)),
                ),
                Err(_) => true,
            },
            None => true,
        },
{
    match last_raw {
        None => Ok(FeedSessionState::Fresh),
        Some(raw) => match parse_db_datetime(raw) {
            Ok(last) => match span_between(now, last) {
                Some(d) => Ok(judge_session(d)),
                None => Ok(FeedSessionState::Active),
            },
            Err(e) => {
                let mut m = String::from_str("Failed to parse session timestamp: ");
                m.append(e.as_str());
                Err(m)
            },
        },
    }
}

/// The time before which a session that was last touched has expired.
pub open spec fn cutoff_of(now: Stamp) -> Stamp {
    Stamp { secs: (now.secs - FEED_SESSION_TTL_MIN * 60) as i64, nanos: now.nanos }
}

/// The time before which sessions are pruned.
pub fn session_cutoff(now: Stamp) -> (r: Stamp)
    requires
        now.secs - FEED_SESSION_TTL_MIN * 60 >= i64::MIN,
    ensures
        r == cutoff_of(now),
{
    Stamp { secs: now.secs - FEED_SESSION_TTL_MIN * 60, nanos: now.nanos }
}

/// The tokens on record before a prune and after it.
pub fn prune_revoked_tokens(before: i64, removed: usize) -> (r: (usize, usize))
    requires
        0 <= before <= usize::MAX,
        removed <= before,
    ensures
        r == (before as usize, (before - removed) as usize),
{
    let b: usize = before as usize;
    (b, b - removed)
}

/// The time before which a revoked token is forgotten.
pub fn revoked_cutoff(now_secs: i64, retention_secs: i64) -> (r: i64)
    requires
        i64::MIN <= now_secs - retention_secs <= i64::MAX,
    ensures
        r == now_secs - retention_secs,
{
    now_secs - retention_secs
}

/// A session stays good for thirty minutes without a request, no longer.
pub proof fn law_session_lifetime(now: (i64, u32), last: (i64, u32))
    ensures
        session_state(clock::nanos_apart(now, last)) == FeedSessionState::Active
            <==> clock::nanos_apart(now, last) <= 1_800_000_000_000,
        session_state(clock::nanos_apart(now, last)) == FeedSessionState::Expired
            <==> clock::nanos_apart(now, last) > 1_800_000_000_000,
{
}

/// A session is pruned just where a request would find it expired.
pub proof fn law_prune_and_touch_agree(now: Stamp, last: Stamp)
    requires
        clock::is_plain(now.secs, now.nanos),
        clock::is_plain(last.secs, last.nanos),
    ensures
        clock::is_after(cutoff_of(now), last) <==> session_state(
            clock::nanos_apart((now.secs, now.nanos), (last.secs, last.nanos)),
        ) == FeedSessionState::Expired,
{
}

} // verus!
