//! The upstream client: its response cache, the retry policy, request URLs and
//! tag queries. Times are milliseconds of a clock that does not run backward.

use vstd::prelude::*;

use crate::order;
use crate::order::sorted_texts;
use crate::text;
use crate::text::{chars_of, dec_i64, dec_u64, join, split_text_lines, string_from, trim};
use crate::timed;
use crate::timed::{age_at, TimedEntry, TimedMap};

verus! {

// ---------------------------------------------------------------------------
// The response cache
// ---------------------------------------------------------------------------

/// Response bodies by URL, and the time of the last access.
pub struct ApiCache {
    pub map: TimedMap<String, String>,
    pub last_access: u64,
}

/// A time to live of so many seconds, in milliseconds as far as the clock reaches.
pub open spec fn ttl_ms(secs: u64) -> u64 {
    if secs * 1000 > u64::MAX {
        u64::MAX
    } else {
        (secs * 1000) as u64
    }
}

fn ttl_millis(secs: u64) -> (r: u64)
    ensures
        r == ttl_ms(secs),
{
    match secs.checked_mul(1000) {
        Some(x) => x,
        None => u64::MAX,
    }
}

impl ApiCache {
    pub open spec fn wf(&self) -> bool {
        self.map.wf()
    }

    /// The body cached for a URL, while it is younger than `ttl_secs`.
    pub open spec fn fresh(&self, url: Seq<char>, ttl_secs: u64, now: u64) -> Option<String> {
        self.map.live(url, now, ttl_ms(ttl_secs))
    }

    pub fn new(now: u64) -> (r: ApiCache)
        ensures
            r.wf(),
            r.map.count() == 0,
            forall|u: Seq<char>| (#[trigger] r.map.find(u)) is None,
            r.last_access == now,
    {
        ApiCache { map: TimedMap::new(), last_access: now }
    }
}

/// Notes an access.
pub fn touch_api_cache_access(cache: &mut ApiCache, now: u64)
    ensures
        final(cache).last_access == now,
        final(cache).map == old(cache).map,
{
    cache.last_access = now;
}

/// The cached body of a URL, while it is fresh. A hit counts as an access.
pub fn api_cache_get(cache: &mut ApiCache, url: &str, ttl_secs: u64, now: u64) -> (r: Option<String>)
    requires
        old(cache).wf(),
    ensures
        final(cache).map == old(cache).map,
        r == old(cache).fresh(url@, ttl_secs, now),
        final(cache).last_access == (if r is Some {
            now
        } else {
            old(cache).last_access
        }),
{
    if ttl_secs == 0 {
        return None;
    }
    let key = String::from_str(url);
    let hit: Option<String> = match cache.map.get(&key, now, ttl_millis(ttl_secs)) {
        Some(body) => Some(body.clone()),
        None => None,
    };
    if hit.is_some() {
        touch_api_cache_access(cache, now);
    }
    hit
}

/// Forgets every body.
pub fn clear_api_cache(cache: &mut ApiCache)
    ensures
        final(cache).wf(),
        final(cache).map.count() == 0,
        forall|u: Seq<char>| (#[trigger] final(cache).map.find(u)) is None,
        final(cache).last_access == old(cache).last_access,
{
    cache.map.clear();
}

/// Forgets the body of a URL.
pub fn remove_api_cache_entry(cache: &mut ApiCache, url: &str)
    requires
        old(cache).wf(),
    ensures
        final(cache).wf(),
        final(cache).map.find(url@) is None,
        forall|u: Seq<char>|
            u != url@ ==> (#[trigger] final(cache).map.find(u)) == old(cache).map.find(u),
        final(cache).last_access == old(cache).last_access,
{
    let key = String::from_str(url);
    cache.map.remove(&key);
}

/// The entry as it is after stale ones were dropped.
pub open spec fn unless_stale(
    e: Option<TimedEntry<String, String>>,
    ttl_secs: u64,
    now: u64,
) -> Option<TimedEntry<String, String>> {
    match e {
        Some(x) => if timed::age(now, x.at) < ttl_ms(ttl_secs) {
            Some(x)
        } else {
            None
        },
        None => None,
    }
}

/// Drops what is no longer fresh. The result counts the entries before and
/// after; without a time to live nothing is dropped and nothing counted.
pub fn prune_api_cache(cache: &mut ApiCache, ttl_secs: u64, now: u64) -> (r: (usize, usize))
    requires
        old(cache).wf(),
    ensures
        final(cache).wf(),
        final(cache).last_access == old(cache).last_access,
        ttl_secs == 0 ==> r == (0usize, 0usize) && *final(cache) == *old(cache),
        ttl_secs > 0 ==> r.0 == old(cache).map.count() && r.1 == final(cache).map.count(),
        ttl_secs > 0 ==> forall|u: Seq<char>| #[trigger]
            final(cache).map.find(u) == unless_stale(old(cache).map.find(u), ttl_secs, now),
        r.1 <= r.0,
{
    if ttl_secs == 0 {
        return (0, 0);
    }
    let before: usize = cache.map.entries.len();
    cache.map.drop_stale(now, ttl_millis(ttl_secs));
    (before, cache.map.entries.len())
}

/// Empties the cache after `idle_secs` seconds without access. The result counts
/// the entries before and after; where nothing was due, nothing is counted.
pub fn evict_api_cache_if_idle(cache: &mut ApiCache, idle_secs: u64, now: u64) -> (r: (
    usize,
    usize,
))
    requires
        old(cache).wf(),
    ensures
        final(cache).wf(),
        ({
            let due = idle_secs > 0 && timed::age(now, old(cache).last_access) / 1000 >= idle_secs
                && old(cache).map.count() > 0;
            if due {
                &&& r.0 == old(cache).map.count()
                &&& r.1 == 0
                &&& final(cache).map.count() == 0
                &&& final(cache).last_access == now
                &&& forall|u: Seq<char>| (#[trigger] final(cache).map.find(u)) is None
            } else {
                r == (0usize, 0usize) && *final(cache) == *old(cache)
            }
        }),
{
    if idle_secs == 0 {
        return (0, 0);
    }
    if age_at(now, cache.last_access) / 1000 < idle_secs {
        return (0, 0);
    }
    let before: usize = cache.map.entries.len();
    if before == 0 {
        return (0, 0);
    }
    cache.map.clear();
    cache.last_access = now;
    (before, 0)
}

/// `b` is `a` without its `n` oldest entries.
pub open spec fn without_oldest(
    a: TimedMap<String, String>,
    b: TimedMap<String, String>,
    n: int,
) -> bool {
    &&& b.wf()
    &&& b.count() == (if a.count() > n {
        a.count() - n
    } else {
        0
    })
    &&& forall|u: Seq<char>| (#[trigger] b.find(u)) is Some ==> b.find(u) == a.find(u)
    &&& forall|gone: Seq<char>, kept: Seq<char>|
        (#[trigger] a.find(gone)) is Some && b.find(gone) is None && (#[trigger] b.find(
            kept,
        )) is Some ==> a.find(gone)->0.at <= a.find(kept)->0.at
}

/// The cache after a body was stored into `a`, where `room` is `a` or, for a full
/// cache, `a` without its oldest tenth and one more.
pub open spec fn stored_body(
    a: ApiCache,
    room: TimedMap<String, String>,
    b: ApiCache,
    url: String,
    body: String,
    ttl_secs: u64,
    max_entries: usize,
    now: u64,
) -> bool {
    let full = a.map.count() >= max_entries;
    &&& b.wf()
    &&& b.last_access == now
    &&& if full {
        without_oldest(a.map, room, max_entries as int / 10 + 1)
    } else {
        room == a.map
    }
    &&& b.map.find(url@) == Some(TimedEntry { key: url, value: body, at: now })
    &&& forall|u: Seq<char>|
        u != url@ ==> #[trigger] b.map.find(u) == (if full {
            unless_stale(room.find(u), ttl_secs, now)
        } else {
            room.find(u)
        })
}

/// Caches the body of a URL. A full cache first gives up its oldest tenth and
/// one more, and then whatever is no longer fresh. Without a time to live or
/// without room nothing is cached.
pub fn api_cache_put(
    cache: &mut ApiCache,
    url: String,
    body: String,
    ttl_secs: u64,
    max_entries: usize,
    now: u64,
)
    requires
        old(cache).wf(),
    ensures
        final(cache).wf(),
        ttl_secs == 0 || max_entries == 0 ==> *final(cache) == *old(cache),
        ttl_secs > 0 && max_entries > 0 ==> exists|room: TimedMap<String, String>| #[trigger]
            stored_body(
                *old(cache),
                room,
                *final(cache),
                url,
                body,
                ttl_secs,
                max_entries,
                now,
            ),
{
    if ttl_secs == 0 || max_entries == 0 {
        return;
    }
    let ghost a = *cache;
    let len: usize = cache.map.entries.len();
    let ghost mut room = cache.map;
    if len >= max_entries {
        let evict: usize = max_entries / 10 + 1;
        let left: usize = if len > evict {
            len - evict
        } else {
            0
        };
        cache.map.drop_oldest(left);
        proof {
            room = cache.map;
            assert(without_oldest(a.map, room, max_entries as int / 10 + 1));
        }
        cache.map.drop_stale(now, ttl_millis(ttl_secs));
    }
    touch_api_cache_access(cache, now);
    cache.map.put(url, body, now);
    proof {
        assert(stored_body(a, room, *cache, url, body, ttl_secs, max_entries, now));
    }
}

/// A body that was just cached is read back until it is no longer fresh.
pub proof fn law_cached_body_reads_back(
    a: ApiCache,
    room: TimedMap<String, String>,
    b: ApiCache,
    url: String,
    body: String,
    ttl_secs: u64,
    max_entries: usize,
    at: u64,
    now: u64,
    read_ttl: u64,
)
    requires
        stored_body(a, room, b, url, body, ttl_secs, max_entries, at),
        at <= now,
    ensures
        b.fresh(url@, read_ttl, now) == (if now - at < ttl_ms(read_ttl) {
            Some(body)
        } else {
            None
        }),
{
}

// ---------------------------------------------------------------------------
// Fetching through the cache
// ---------------------------------------------------------------------------

/// The time to live of a request: its own, or the configured one.
pub fn effective_ttl(own_secs: u64, configured_secs: u64) -> (r: u64)
    ensures
        r == (if own_secs > 0 {
            own_secs
        } else {
            configured_secs
        }),
{
    if own_secs > 0 {
        own_secs
    } else {
        configured_secs
    }
}

/// The cached answer to a request, unless the request goes round the cache.
pub fn cached_answer(
    cache: &mut ApiCache,
    url: &str,
    bypass_cache: bool,
    ttl_secs: u64,
    now: u64,
) -> (r: Option<String>)
    requires
        old(cache).wf(),
    ensures
        final(cache).map == old(cache).map,
        r == (if bypass_cache {
            None
        } else {
            old(cache).fresh(url@, ttl_secs, now)
        }),
        final(cache).last_access == (if r is Some {
            now
        } else {
            old(cache).last_access
        }),
{
    if bypass_cache {
        None
    } else {
        api_cache_get(cache, url, ttl_secs, now)
    }
}

/// The preview of a body: its first line that is not blank, up to 160 characters.
pub open spec fn preview(body: Seq<char>) -> Seq<char> {
    let lines = text::text_lines(body);
    if lines.len() == 0 {
        Seq::empty()
    } else if lines[0].len() > 160 {
        lines[0].take(160)
    } else {
        lines[0]
    }
}

pub fn body_preview(body: &str) -> (r: String)
    ensures
        r@ == preview(body@),
{
    let lines = split_text_lines(body);
    if lines.len() == 0 {
        return String::new();
    }
    proof {
        assert(text::views(lines@)[0] == lines@[0]@);
    }
    let line = chars_of(lines[0].as_str());
    if line.len() > 160 {
        proof {
            assert(line@.subrange(0, 160) =~= line@.take(160));
        }
        string_from(&line, 0, 160)
    } else {
        proof {
            assert(line@.subrange(0, line@.len() as int) =~= line@);
        }
        string_from(&line, 0, line.len())
    }
}

/// What a completed request answers. A failure status is an error with a preview
/// of the body, and is not cached; a success is cached unless the request goes
/// round the cache. `status_text` is the status line of the response.
pub fn fetch_authed_text(
    cache: &mut ApiCache,
    url: String,
    bypass_cache: bool,
    ttl_secs: u64,
    max_entries: usize,
    success: bool,
    status_text: &str,
    body: String,
    now: u64,
) -> (r: Result<String, String>)
    requires
        old(cache).wf(),
    ensures
        final(cache).wf(),
        if success {
            r == Ok::<String, String>(body)
        } else {
            r matches Err(e) && e@ == "returned "@ + status_text@ + ": "@ + preview(body@)
        },
        !success || bypass_cache || ttl_secs == 0 || max_entries == 0 ==> *final(cache) == *old(
            cache,
        ),
        success && !bypass_cache && ttl_secs > 0 && max_entries > 0 ==> exists|
            room: TimedMap<String, String>,
        | #[trigger]
            stored_body(
                *old(cache),
                room,
                *final(cache),
                url,
                body,
                ttl_secs,
                max_entries,
                now,
            ),
{
    if !success {
        let mut m = String::from_str("returned ");
        m.append(status_text);
        m.append(": ");
        m.append(body_preview(body.as_str()).as_str());
        return Err(m);
    }
    if !bypass_cache {
        let kept = body.clone();
        api_cache_put(cache, url, kept, ttl_secs, max_entries, now);
    }
    Ok(body)
}

/// How long the answer to a posts request stays good: two minutes for the first
/// page, the configured time for others.
pub fn posts_cache_ttl(page: Option<i32>, configured_secs: u64) -> (r: u64)
    ensures
        r == (if page is None || page == Some(1i32) {
            120
        } else {
            configured_secs
        }),
{
    match page {
        None => 120,
        Some(p) => if p == 1 {
            120
        } else {
            configured_secs
        },
    }
}

// ---------------------------------------------------------------------------
// Retries
// ---------------------------------------------------------------------------

/// What kind of transport error occurred, as the client reports it.
#[derive(Clone, Copy, Debug, PartialEq, Eq, Structural)]
pub struct ErrorFlags {
    pub connect: bool,
    pub body: bool,
    pub timeout: bool,
    pub decode: bool,
    pub request: bool,
    pub redirect: bool,
    pub status: bool,
}

/// The name of an error: the first flag that is set.
pub open spec fn error_name(f: ErrorFlags) -> Seq<char> {
    if f.connect {
        "connect"@
    } else if f.body {
        "body"@
    } else if f.timeout {
        "timeout"@
    } else if f.decode {
        "decode"@
    } else if f.request {
        "request"@
    } else if f.redirect {
        "redirect"@
    } else if f.status {
        "status"@
    } else {
        "other"@
    }
}

pub fn err_kind(f: ErrorFlags) -> (r: &'static str)
    ensures
        r@ == error_name(f),
{
    if f.connect {
        "connect"
    } else if f.body {
        "body"
    } else if f.timeout {
        "timeout"
    } else if f.decode {
        "decode"
    } else if f.request {
        "request"
    } else if f.redirect {
        "redirect"
    } else if f.status {
        "status"
    } else {
        "other"
    }
}

/// How one attempt went.
pub enum AttemptOutcome {
    /// The attempt exceeded its time budget.
    TimedOut,
    /// A response came, with its status.
    Response(u16),
    /// The attempt failed, with the error's flags and text.
    Failed(ErrorFlags, String),
}

/// What to do after an attempt.
pub enum RetryStep {
    /// Wait so many milliseconds and try again.
    Retry(u64),
    /// Hand the response on.
    Accept,
    /// Give up with this error.
    Fail(String),
}

/// The retries of one request.
#[derive(Clone, Copy, Debug, PartialEq, Eq, Structural)]
pub struct RetryState {
    pub attempt: u32,
    pub max_retries: u32,
    pub delay_ms: u64,
    pub budget_secs: u64,
}

/// A status that is worth another attempt.
pub open spec fn is_retryable(status: u16) -> bool {
    status == 429 || 500 <= status < 600
}

/// The outcome is final whatever attempts are left.
pub open spec fn is_final(o: AttemptOutcome) -> bool {
    o matches AttemptOutcome::Response(s) && !is_retryable(s)
}

/// The error of a request whose attempts are spent.
pub open spec fn exhausted_message(o: AttemptOutcome, budget_secs: u64) -> Seq<char> {
    match o {
        AttemptOutcome::TimedOut => "request failed after retries [hard-timeout]: "@ + text::dec(
            budget_secs as int,
        ) + ".00s budget exceeded"@,
        AttemptOutcome::Failed(f, e) => "request failed after retries ["@ + error_name(f) + "]: "@
            + e@,
        AttemptOutcome::Response(_) => Seq::empty(),
    }
}

impl RetryState {
    /// The state before the first attempt: the first delay is 300 milliseconds,
    /// and an attempt has at least five seconds.
    pub fn new(max_retries: u32, attempt_timeout_secs: u64) -> (r: RetryState)
        ensures
            r.attempt == 0,
            r.max_retries == max_retries,
            r.delay_ms == 300,
            r.budget_secs == (if attempt_timeout_secs > 5 {
                attempt_timeout_secs
            } else {
                5
            }),
    {
        RetryState {
            attempt: 0,
            max_retries,
            delay_ms: 300,
            budget_secs: if attempt_timeout_secs > 5 {
                attempt_timeout_secs
            } else {
                5
            },
        }
    }

    /// The state after a retry: one attempt more, twice the delay.
    pub open spec fn retried(self) -> RetryState {
        RetryState {
            attempt: (self.attempt + 1) as u32,
            delay_ms: if self.delay_ms * 2 > u64::MAX {
                u64::MAX
            } else {
                (self.delay_ms * 2) as u64
            },
            ..self
        }
    }

    /// Decides what follows an attempt. A final response is handed on at once.
    /// Anything else is retried while attempts are left; then a response is
    /// handed on and an error reported.
    pub fn send_with_retry(&mut self, outcome: AttemptOutcome) -> (r: RetryStep)
        requires
            old(self).attempt <= old(self).max_retries,
        ensures
            final(self).attempt <= final(self).max_retries,
            if !is_final(outcome) && old(self).attempt < old(self).max_retries {
                &&& r matches RetryStep::Retry(ms) && ms == old(self).delay_ms
                &&& *final(self) == old(self).retried()
            } else {
                &&& *final(self) == *old(self)
                &&& match outcome {
                    AttemptOutcome::Response(_) => r is Accept,
                    _ => r matches RetryStep::Fail(e) && e@ == exhausted_message(
                        outcome,
                        old(self).budget_secs,
                    ),
                }
            },
    {
        let fatal: bool = match &outcome {
            AttemptOutcome::Response(s) => !(*s == 429 || (*s >= 500 && *s < 600)),
            _ => false,
        };
        if !fatal && self.attempt < self.max_retries {
            let wait: u64 = self.delay_ms;
            self.delay_ms = match self.delay_ms.checked_mul(2) {
                Some(x) => x,
                None => u64::MAX,
            };
            self.attempt = self.attempt + 1;
            return RetryStep::Retry(wait);
        }
        match outcome {
            AttemptOutcome::Response(_) => RetryStep::Accept,
            AttemptOutcome::TimedOut => {
                let mut m = String::from_str("request failed after retries [hard-timeout]: ");
                m.append(dec_u64(self.budget_secs).as_str());
                m.append(".00s budget exceeded");
                RetryStep::Fail(m)
            },
            AttemptOutcome::Failed(f, e) => {
                let mut m = String::from_str("request failed after retries [");
                m.append(err_kind(f));
                m.append("]: ");
                m.append(e.as_str());
                RetryStep::Fail(m)
            },
        }
    }
}

/// The state after `n` retries.
pub open spec fn after_retries(s: RetryState, n: nat) -> RetryState
    decreases n,
{
    if n == 0 {
        s
    } else {
        after_retries(s, (n - 1) as nat).retried()
    }
}

/// A request is attempted at most once more than it may be retried, and each
/// delay is twice the one before, as long as it fits.
pub proof fn law_retries_are_bounded(s: RetryState, n: nat)
    requires
        s.attempt == 0,
        s.delay_ms == 300,
        n <= s.max_retries,
    ensures
        after_retries(s, n).attempt == n,
        after_retries(s, n).max_retries == s.max_retries,
        n <= 55 ==> after_retries(s, n).delay_ms == 300 * vstd::arithmetic::power2::pow2(n),
        n > 55 ==> after_retries(s, n).delay_ms == u64::MAX,
    decreases n,
{
    vstd::arithmetic::power2::lemma2_to64();
    vstd::arithmetic::power2::lemma2_to64_rest();
    if n > 0 {
        law_retries_are_bounded(s, (n - 1) as nat);
        vstd::arithmetic::power2::lemma_pow2_unfold(n);
        if n < 55 {
            vstd::arithmetic::power2::lemma_pow2_strictly_increases(n, 55);
        }
        assert(vstd::arithmetic::power2::pow2(55) == 0x80000000000000);
    }
}

/// The names of the response headers that diagnose a request, in order.
pub open spec fn diag_names() -> Seq<Seq<char>> {
    seq![
        "cf-ray"@,
        "cf-cache-status"@,
        "cf-mitigated"@,
        "server"@,
        "x-ratelimit-limit"@,
        "x-ratelimit-remaining"@,
        "x-ratelimit-reset"@,
        "retry-after"@,
        "x-runtime"@,
        "x-request-id"@,
    ]
}

/// The name of a diagnostic header.
pub fn diag_name(i: usize) -> (r: &'static str)
    requires
        i < 10,
    ensures
        r@ == diag_names()[i as int],
{
    if i == 0 {
        "cf-ray"
    } else if i == 1 {
        "cf-cache-status"
    } else if i == 2 {
        "cf-mitigated"
    } else if i == 3 {
        "server"
    } else if i == 4 {
        "x-ratelimit-limit"
    } else if i == 5 {
        "x-ratelimit-remaining"
    } else if i == 6 {
        "x-ratelimit-reset"
    } else if i == 7 {
        "retry-after"
    } else if i == 8 {
        "x-runtime"
    } else {
        "x-request-id"
    }
}

/// One diagnostic header in a log line: nothing for an absent or empty value.
pub open spec fn diag_part(name: Seq<char>, value: Option<String>) -> Seq<char> {
    match value {
        Some(v) => if v@.len() > 0 {
            " "@ + name + "="@ + v@
        } else {
            Seq::empty()
        },
        None => Seq::empty(),
    }
}

pub open spec fn diag_text(values: Seq<Option<String>>, n: int) -> Seq<char>
    decreases n,
{
    if n <= 0 {
        Seq::empty()
    } else {
        diag_text(values, n - 1) + diag_part(diag_names()[n - 1], values[n - 1])
    }
}

/// The diagnostic headers of a response in a log line, given their values in the
/// order of the names.
pub fn diag_headers(values: &Vec<Option<String>>) -> (r: String)
    requires
        values.len() == 10,
    ensures
        r@ == diag_text(values@, 10),
{
    let mut s = String::new();
    let mut i: usize = 0;
    while i < 10
        invariant
            i <= 10,
            values.len() == 10,
            s@ == diag_text(values@, i as int),
        decreases 10 - i,
    {
        let ghost before = s@;
        match &values[i] {
            Some(v) => {
                if !v.as_str().is_empty() {
                    s.append(" ");
                    s.append(diag_name(i));
                    s.append("=");
                    s.append(v.as_str());
                }
            },
            None => {},
        }
        proof {
            assert(s@ =~= before + diag_part(diag_names()[i as int], values@[i as int]));
        }
        i += 1;
    }
    s
}

/// Spaces upstream requests: the time from which the next may go out.
#[derive(Clone, Copy, Debug, PartialEq, Eq, Structural)]
pub struct RateGate {
    pub next: u64,
}

impl RateGate {
    /// How long a request has to wait at `now`.
    pub fn rate_gate_wait(&self, now: u64) -> (r: u64)
        ensures
            r == (if self.next > now {
                self.next - now
            } else {
                0
            }),
    {
        if self.next > now {
            self.next - now
        } else {
            0
        }
    }

    /// Lets a request through at `now`; the next one waits `delay_ms`.
    pub fn pass(&mut self, now: u64, delay_ms: u64)
        requires
            now + delay_ms <= u64::MAX,
        ensures
            final(self).next == now + delay_ms,
    {
        self.next = now + delay_ms;
    }
}

// ---------------------------------------------------------------------------
// Errors of the favourites pages
// ---------------------------------------------------------------------------

#[derive(Debug)]
pub enum FavoritesPageError {
    Request(String),
    Malformed(String),
}

impl FavoritesPageError {
    pub fn is_malformed(&self) -> (r: bool)
        ensures
            r == (self is Malformed),
    {
        match self {
            FavoritesPageError::Malformed(_) => true,
            FavoritesPageError::Request(_) => false,
        }
    }

    /// The message of the error.
    pub fn message(&self) -> (r: &str)
        ensures
            r@ == (match self {
                FavoritesPageError::Request(m) => m@,
                FavoritesPageError::Malformed(m) => m@,
            }),
    {
        match self {
            FavoritesPageError::Request(m) => m.as_str(),
            FavoritesPageError::Malformed(m) => m.as_str(),
        }
    }

    /// The error of a page that could not be fetched.
    pub fn request(page: i32, cause: &str) -> (r: FavoritesPageError)
        ensures
            r matches FavoritesPageError::Request(m) && m@ == "favorites page "@ + text::dec(
                page as int,
            ) + ": "@ + cause@,
    {
        let mut m = String::from_str("favorites page ");
        m.append(dec_i64(page as i64).as_str());
        m.append(": ");
        m.append(cause);
        FavoritesPageError::Request(m)
    }

    /// The error of a page whose body is no list of posts.
    pub fn malformed(page: i32, cause: &str, body: &str) -> (r: FavoritesPageError)
        ensures
            r matches FavoritesPageError::Malformed(m) && m@ == "favorites page "@ + text::dec(
                page as int,
            ) + ": malformed 200 response: "@ + cause@ + "; first bytes: "@ + preview(body@),
    {
        let mut m = String::from_str("favorites page ");
        m.append(dec_i64(page as i64).as_str());
        m.append(": malformed 200 response: ");
        m.append(cause);
        m.append("; first bytes: ");
        m.append(body_preview(body).as_str());
        FavoritesPageError::Malformed(m)
    }
}

// ---------------------------------------------------------------------------
// Request URLs
// ---------------------------------------------------------------------------

/// The bytes that stand for themselves in a query.
pub open spec fn is_unreserved(b: u8) -> bool {
    ||| 48 <= b <= 57
    ||| 65 <= b <= 90
    ||| 97 <= b <= 122
    ||| b == 45
    ||| b == 46
    ||| b == 95
    ||| b == 126
}

/// An upper-case hexadecimal digit.
pub open spec fn hex_digit(d: int) -> char {
    if d < 10 {
        (48 + d) as char
    } else {
        (55 + d) as char
    }
}

/// Bytes with everything but the unreserved ones as `%` and two digits.
pub open spec fn percent_encoded(bytes: Seq<u8>) -> Seq<char>
    decreases bytes.len(),
{
    if bytes.len() == 0 {
        Seq::empty()
    } else {
        let b = bytes.last();
        let rest = percent_encoded(bytes.drop_last());
        if is_unreserved(b) {
            rest.push(b as char)
        } else {
            rest + seq!['%', hex_digit(b as int / 16), hex_digit(b as int % 16)]
        }
    }
}

/// A text as it stands in a query.
pub open spec fn query_text(s: Seq<char>) -> Seq<char> {
    percent_encoded(vstd::utf8::encode_utf8(s))
}

/// Calls `urlencoding::encode`. The result is the UTF-8 form of `s` with every
/// byte but letters, digits, `-`, `.`, `_` and `~` percent-encoded in upper case.
#[verifier::external_body]
fn encode(s: &str) -> (r: String)
    ensures
        r@ == query_text(s@),
{
    urlencoding::encode(s).into_owned()
}

/// A query parameter.
pub struct UrlParam {
    pub key: &'static str,
    pub value: String,
}

/// The keys and values of some parameters.
pub open spec fn pairs(params: Seq<UrlParam>) -> Seq<(Seq<char>, Seq<char>)> {
    params.map_values(|p: UrlParam| (p.key@, p.value@))
}

/// `key=value` for each parameter.
pub open spec fn param_texts(pairs: Seq<(Seq<char>, Seq<char>)>) -> Seq<Seq<char>> {
    pairs.map_values(|p: (Seq<char>, Seq<char>)| p.0 + "="@ + query_text(p.1))
}

/// The URL of a path under a domain, with its query.
pub open spec fn url_of(
    domain: Seq<char>,
    path: Seq<char>,
    pairs: Seq<(Seq<char>, Seq<char>)>,
) -> Seq<char> {
    if pairs.len() == 0 {
        domain + "/"@ + path
    } else {
        domain + "/"@ + path + "?"@ + text::joined(param_texts(pairs), "&"@)
    }
}

pub fn build_url(domain: &str, path: &str, params: &Vec<UrlParam>) -> (r: String)
    ensures
        r@ == url_of(domain@, path@, pairs(params@)),
{
    let mut url = String::from_str(domain);
    url.append("/");
    url.append(path);
    if params.len() == 0 {
        return url;
    }
    let mut parts: Vec<String> = Vec::new();
    let mut i: usize = 0;
    proof {
        assert(text::views(parts@) =~= param_texts(pairs(params@.take(0))));
    }
    while i < params.len()
        invariant
            i <= params.len(),
            text::views(parts@) == param_texts(pairs(params@.take(i as int))),
        decreases params.len() - i,
    {
        let ghost before = parts@;
        let mut part = String::from_str(params[i].key);
        part.append("=");
        part.append(encode(params[i].value.as_str()).as_str());
        parts.push(part);
        proof {
            let p = params@[i as int];
            assert(text::views(parts@) =~= text::views(before).push(
                p.key@ + "="@ + query_text(p.value@),
            ));
            assert(param_texts(pairs(params@.take(i + 1))) =~= param_texts(
                pairs(params@.take(i as int)),
            ).push(p.key@ + "="@ + query_text(p.value@)));
        }
        i += 1;
    }
    proof {
        assert(params@.take(params@.len() as int) =~= params@);
    }
    let qs = join(&parts, "&");
    url.append("?");
    url.append(qs.as_str());
    url
}

fn param(key: &'static str, value: String) -> (r: UrlParam)
    ensures
        r.key == key,
        r.value == value,
{
    UrlParam { key, value }
}

/// The page asked for; the first where none is.
pub open spec fn page_or_first(page: Option<i32>) -> int {
    match page {
        Some(p) => p as int,
        None => 1,
    }
}

/// Post ids in decimal.
pub open spec fn dec_list(ids: Seq<i64>) -> Seq<Seq<char>> {
    ids.map_values(|i: i64| text::dec(i as int))
}

fn append_format(v: &mut Vec<UrlParam>)
    ensures
        pairs(final(v)@) == pairs(old(v)@) + seq![("v2"@, "true"@), ("mode"@, "extended"@)],
{
    let ghost before = v@;
    v.push(param("v2", String::from_str("true")));
    v.push(param("mode", String::from_str("extended")));
    proof {
        assert(pairs(v@) =~= pairs(before) + seq![("v2"@, "true"@), ("mode"@, "extended"@)]);
    }
}

/// The parameters of a page of favourites.
pub open spec fn favorites_pairs(user_id: int, limit: int, page: int) -> Seq<
    (Seq<char>, Seq<char>),
> {
    seq![
        ("user_id"@, text::dec(user_id)),
        ("limit"@, text::dec(limit)),
        ("page"@, text::dec(page)),
    ] + seq![("v2"@, "true"@), ("mode"@, "extended"@)]
}

fn favorites_params(user_id: i32, limit: i32, page: i32) -> (r: Vec<UrlParam>)
    ensures
        pairs(r@) == favorites_pairs(user_id as int, limit as int, page as int),
{
    let mut v: Vec<UrlParam> = Vec::new();
    v.push(param("user_id", dec_i64(user_id as i64)));
    v.push(param("limit", dec_i64(limit as i64)));
    v.push(param("page", dec_i64(page as i64)));
    proof {
        assert(pairs(v@) =~= seq![
            ("user_id"@, text::dec(user_id as int)),
            ("limit"@, text::dec(limit as int)),
            ("page"@, text::dec(page as int)),
        ]);
    }
    append_format(&mut v);
    v
}

/// The parameters of a page of posts under a tag query.
pub open spec fn posts_pairs(limit: int, page: int, tags: Seq<char>) -> Seq<
    (Seq<char>, Seq<char>),
> {
    seq![("limit"@, text::dec(limit)), ("page"@, text::dec(page)), ("tags"@, tags)] + seq![
        ("v2"@, "true"@),
        ("mode"@, "extended"@),
    ]
}

fn posts_params(limit: i32, page: Option<i32>, tags: String) -> (r: Vec<UrlParam>)
    ensures
        pairs(r@) == posts_pairs(limit as int, page_or_first(page), tags@),
{
    let p: i32 = match page {
        Some(p) => p,
        None => 1,
    };
    let mut v: Vec<UrlParam> = Vec::new();
    v.push(param("limit", dec_i64(limit as i64)));
    v.push(param("page", dec_i64(p as i64)));
    v.push(param("tags", tags));
    proof {
        assert(pairs(v@) =~= seq![
            ("limit"@, text::dec(limit as int)),
            ("page"@, text::dec(page_or_first(page))),
            ("tags"@, tags@),
        ]);
    }
    append_format(&mut v);
    v
}

/// The parameters of a request for posts by id.
pub open spec fn posts_by_ids_pairs(limit: int, ids: Seq<i64>) -> Seq<(Seq<char>, Seq<char>)> {
    seq![
        ("limit"@, text::dec(limit)),
        ("tags"@, "id:"@ + text::joined(dec_list(ids), ","@)),
        ("page"@, "1"@),
    ] + seq![("v2"@, "true"@), ("mode"@, "extended"@)]
}

fn posts_by_ids_params(limit: i32, ids: &Vec<i64>) -> (r: Vec<UrlParam>)
    ensures
        pairs(r@) == posts_by_ids_pairs(limit as int, ids@),
{
    let mut list: Vec<String> = Vec::new();
    let mut i: usize = 0;
    let ghost want = dec_list(ids@);
    proof {
        assert(text::views(list@) =~= want.take(0));
    }
    while i < ids.len()
        invariant
            i <= ids.len(),
            want == dec_list(ids@),
            text::views(list@) == want.take(i as int),
        decreases ids.len() - i,
    {
        let ghost before = list@;
        list.push(dec_i64(ids[i]));
        proof {
            assert(text::views(list@) =~= text::views(before).push(
                text::dec(ids@[i as int] as int),
            ));
            assert(want.take(i + 1) =~= want.take(i as int).push(want[i as int]));
        }
        i += 1;
    }
    proof {
        assert(want.take(want.len() as int) =~= want);
    }
    let mut tags = String::from_str("id:");
    tags.append(join(&list, ",").as_str());
    let mut v: Vec<UrlParam> = Vec::new();
    v.push(param("limit", dec_i64(limit as i64)));
    v.push(param("tags", tags));
    v.push(param("page", String::from_str("1")));
    proof {
        assert(pairs(v@) =~= seq![
            ("limit"@, text::dec(limit as int)),
            ("tags"@, "id:"@ + text::joined(want, ","@)),
            ("page"@, "1"@),
        ]);
    }
    append_format(&mut v);
    v
}

// ---------------------------------------------------------------------------
// Tag queries
// ---------------------------------------------------------------------------

/// The normal form of a blacklist: its tags in order, ready to be excluded.
pub open spec fn normal_form(blacklist: Seq<char>) -> Seq<char> {
    text::joined(order::text_sorted(text::text_lines(blacklist)), " -"@)
}

pub fn normalise_blacklist(bl: &str) -> (r: String)
    ensures
        r@ == normal_form(bl@),
{
    let lines = split_text_lines(bl);
    let tags = sorted_texts(lines);
    join(&tags, " -")
}

/// Blacklists that hold the same lines, in whatever order and spacing, have the
/// same normal form.
pub proof fn law_line_order_does_not_matter(a: Seq<char>, b: Seq<char>)
    requires
        text::text_lines(a).to_multiset() == text::text_lines(b).to_multiset(),
    ensures
        normal_form(a) == normal_form(b),
{
    let x = text::text_lines(a);
    let y = text::text_lines(b);
    order::law_text_sorted(x);
    order::law_text_sorted(y);
    order::lemma_text_sorted_unique(order::text_sorted(x), order::text_sorted(y));
}

/// What excludes the tags of a blacklist in a query: `-` and the normal form, or
/// nothing for a blank blacklist.
pub open spec fn exclusion(blacklist: Seq<char>) -> Seq<char> {
    if normal_form(blacklist).len() == 0 {
        Seq::empty()
    } else {
        "-"@ + normal_form(blacklist)
    }
}

/// The part of a query that excludes a blacklist.
pub fn exclusion_query(blacklist: &str) -> (r: String)
    ensures
        r@ == exclusion(blacklist@),
{
    let normalised = normalise_blacklist(blacklist);
    if normalised.as_str().is_empty() {
        return String::new();
    }
    let mut s = String::from_str("-");
    s.append(normalised.as_str());
    s
}

/// A tag query with an exclusion behind it.
pub open spec fn with_exclusion(query: Seq<char>, excluded: Seq<char>) -> Seq<char> {
    if excluded.len() == 0 {
        query
    } else if text::trimmed(query).len() == 0 {
        excluded
    } else {
        query + " "@ + excluded
    }
}

/// A tag query that excludes a blacklist.
pub fn combined_query(tags_query: &str, blacklist: &str) -> (r: String)
    ensures
        r@ == with_exclusion(tags_query@, exclusion(blacklist@)),
{
    let excluded = exclusion_query(blacklist);
    if excluded.as_str().is_empty() {
        return String::from_str(tags_query);
    }
    if trim(tags_query).as_str().is_empty() {
        return excluded;
    }
    let mut s = String::from_str(tags_query);
    s.append(" ");
    s.append(excluded.as_str());
    s
}

// ---------------------------------------------------------------------------
// Requests
// ---------------------------------------------------------------------------

/// A request: its address, whether it goes round the cache, and how long its
/// answer stays good where it says so itself.
#[derive(Debug)]
pub struct FetchRequest {
    pub url: String,
    pub bypass_cache: bool,
    pub own_ttl_secs: u64,
}

/// The request for a page of an account's favourites.
pub fn get_favorites(domain: &str, account_id: i32, posts_limit: i32, page: i32) -> (r: FetchRequest)
    ensures
        r.url@ == url_of(
            domain@,
            "favorites.json"@,
            favorites_pairs(account_id as int, posts_limit as int, page as int),
        ),
        !r.bypass_cache,
        r.own_ttl_secs == 0,
{
    let params = favorites_params(account_id, posts_limit, page);
    let url = build_url(domain, "favorites.json", &params);
    FetchRequest { url, bypass_cache: false, own_ttl_secs: 0 }
}

/// The request for an account's own record.
pub fn get_account(domain: &str, account_id: i32) -> (r: FetchRequest)
    ensures
        r.url@ == domain@ + "/users/"@ + text::dec(account_id as int) + ".json"@,
        !r.bypass_cache,
        r.own_ttl_secs == 0,
{
    get_user_by_id(domain, account_id)
}

/// The request for a user by id.
pub fn get_user_by_id(domain: &str, uid: i32) -> (r: FetchRequest)
    ensures
        r.url@ == domain@ + "/users/"@ + text::dec(uid as int) + ".json"@,
        !r.bypass_cache,
        r.own_ttl_secs == 0,
{
    let mut url = String::from_str(domain);
    url.append("/users/");
    url.append(dec_i64(uid as i64).as_str());
    url.append(".json");
    FetchRequest { url, bypass_cache: false, own_ttl_secs: 0 }
}

/// The request for a user by name.
pub fn get_user_by_name(domain: &str, name: &str) -> (r: FetchRequest)
    ensures
        r.url@ == domain@ + "/users/"@ + query_text(name@) + ".json"@,
        !r.bypass_cache,
        r.own_ttl_secs == 0,
{
    let mut url = String::from_str(domain);
    url.append("/users/");
    url.append(encode(name).as_str());
    url.append(".json");
    FetchRequest { url, bypass_cache: false, own_ttl_secs: 0 }
}

/// The request for a page of users in some order.
pub fn search_users(domain: &str, order_by: &str, page: i32) -> (r: FetchRequest)
    ensures
        r.url@ == url_of(
            domain@,
            "users.json"@,
            seq![
                ("search[order]"@, order_by@),
                ("limit"@, "320"@),
                ("page"@, text::dec(page as int)),
            ],
        ),
        !r.bypass_cache,
        r.own_ttl_secs == 0,
{
    let mut v: Vec<UrlParam> = Vec::new();
    v.push(param("search[order]", String::from_str(order_by)));
    v.push(param("limit", String::from_str("320")));
    v.push(param("page", dec_i64(page as i64)));
    proof {
        assert(pairs(v@) =~= seq![
            ("search[order]"@, order_by@),
            ("limit"@, "320"@),
            ("page"@, text::dec(page as int)),
        ]);
    }
    let url = build_url(domain, "users.json", &v);
    FetchRequest { url, bypass_cache: false, own_ttl_secs: 0 }
}

/// The request for posts under a tag query, without blacklisted ones. It goes
/// round the cache, so that background traffic leaves it alone.
pub fn get_posts_by_tags(
    domain: &str,
    posts_limit: i32,
    blacklist: &str,
    tags_query: &str,
    page: Option<i32>,
) -> (r: FetchRequest)
    ensures
        r.url@ == url_of(
            domain@,
            "posts.json"@,
            posts_pairs(
                posts_limit as int,
                page_or_first(page),
                with_exclusion(tags_query@, exclusion(blacklist@)),
            ),
        ),
        r.bypass_cache,
        r.own_ttl_secs == 0,
{
    let tags = combined_query(tags_query, blacklist);
    let params = posts_params(posts_limit, page, tags);
    let url = build_url(domain, "posts.json", &params);
    FetchRequest { url, bypass_cache: true, own_ttl_secs: 0 }
}

/// The request for posts by id, through the cache; none is made for no ids.
pub fn get_posts_by_ids(domain: &str, posts_limit: i32, ids: &Vec<i64>) -> (r: Option<FetchRequest>)
    ensures
        match r {
            Some(q) => ids@.len() > 0 && q.url@ == url_of(
                domain@,
                "posts.json"@,
                posts_by_ids_pairs(posts_limit as int, ids@),
            ) && !q.bypass_cache && q.own_ttl_secs == 0,
            None => ids@.len() == 0,
        },
{
    if ids.len() == 0 {
        return None;
    }
    let params = posts_by_ids_params(posts_limit, ids);
    let url = build_url(domain, "posts.json", &params);
    Some(FetchRequest { url, bypass_cache: false, own_ttl_secs: 0 })
}

/// The request for a page of posts for an account. The first page stays good for
/// two minutes, others for the configured time.
pub fn get_posts(
    domain: &str,
    posts_limit: i32,
    blacklist: &str,
    page: Option<i32>,
    configured_ttl_secs: u64,
) -> (r: FetchRequest)
    ensures
        r.url@ == url_of(
            domain@,
            "posts.json"@,
            posts_pairs(posts_limit as int, page_or_first(page), exclusion(blacklist@)),
        ),
        !r.bypass_cache,
        r.own_ttl_secs == (if page_or_first(page) == 1 {
            120
        } else {
            configured_ttl_secs
        }),
{
    let tags = exclusion_query(blacklist);
    let params = posts_params(posts_limit, page, tags);
    let url = build_url(domain, "posts.json", &params);
    FetchRequest {
        url,
        bypass_cache: false,
        own_ttl_secs: posts_cache_ttl(page, configured_ttl_secs),
    }
}

/// The request for a page of tag relations, good for a day.
pub fn fetch_tag_relations(domain: &str, endpoint: &str, posts_limit: i32, page: i32) -> (r:
    FetchRequest)
    ensures
        r.url@ == url_of(
            domain@,
            endpoint@,
            seq![("limit"@, text::dec(posts_limit as int)), ("page"@, text::dec(page as int))],
        ),
        !r.bypass_cache,
        r.own_ttl_secs == 86400,
{
    let mut v: Vec<UrlParam> = Vec::new();
    v.push(param("limit", dec_i64(posts_limit as i64)));
    v.push(param("page", dec_i64(page as i64)));
    proof {
        assert(pairs(v@) =~= seq![
            ("limit"@, text::dec(posts_limit as int)),
            ("page"@, text::dec(page as int)),
        ]);
    }
    let url = build_url(domain, endpoint, &v);
    FetchRequest { url, bypass_cache: false, own_ttl_secs: 86400 }
}

/// The requests whose answers are parsed.
#[derive(Clone, Copy, Debug, PartialEq, Eq, Structural)]
pub enum Getter {
    Account,
    UserSearch,
    UserById,
    UserByName,
    Posts,
    PostsByIds,
}

/// What stands before the error of a failed request.
pub open spec fn request_prefix(g: Getter) -> Seq<char> {
    match g {
        Getter::Account => "account request "@,
        Getter::UserSearch => "users search "@,
        Getter::UserById => "user-by-id "@,
        Getter::UserByName => "user-by-name "@,
        Getter::Posts => "posts request "@,
        Getter::PostsByIds => "posts by ids request: "@,
    }
}

/// What stands before the error of an answer that could not be parsed.
pub open spec fn parse_prefix(g: Getter) -> Seq<char> {
    match g {
        Getter::Account => "account parse failed: "@,
        Getter::UserSearch => "users search parse failed: "@,
        Getter::UserById => "user-by-id parse failed: "@,
        Getter::UserByName => "user-by-name parse failed: "@,
        Getter::Posts => "posts parse failed: "@,
        Getter::PostsByIds => "posts parse failed: "@,
    }
}

/// The error of a request that failed.
pub fn request_error(g: Getter, cause: &str) -> (r: String)
    ensures
        r@ == request_prefix(g) + cause@,
{
    let mut m = String::from_str(
        match g {
            Getter::Account => "account request ",
            Getter::UserSearch => "users search ",
            Getter::UserById => "user-by-id ",
            Getter::UserByName => "user-by-name ",
            Getter::Posts => "posts request ",
            Getter::PostsByIds => "posts by ids request: ",
        },
    );
    m.append(cause);
    m
}

/// The error of an answer that could not be parsed.
pub fn parse_error(g: Getter, cause: &str) -> (r: String)
    ensures
        r@ == parse_prefix(g) + cause@,
{
    let mut m = String::from_str(
        match g {
            Getter::Account => "account parse failed: ",
            Getter::UserSearch => "users search parse failed: ",
            Getter::UserById => "user-by-id parse failed: ",
            Getter::UserByName => "user-by-name parse failed: ",
            Getter::Posts => "posts parse failed: ",
            Getter::PostsByIds => "posts parse failed: ",
        },
    );
    m.append(cause);
    m
}

/// The error of a request that never got an answer.
pub fn request_failed(cause: &str) -> (r: String)
    ensures
        r@ == "request failed: "@ + cause@,
{
    let mut s = String::from_str("request failed: ");
    s.append(cause);
    s
}

/// The error of an answer whose body could not be read.
pub fn body_read_failed(cause: &str) -> (r: String)
    ensures
        r@ == "body read failed: "@ + cause@,
{
    let mut s = String::from_str("body read failed: ");
    s.append(cause);
    s
}

/// The error of a page of tag relations that was not got.
pub fn relations_request_error(endpoint: &str, page: i32, cause: &str) -> (r: String)
    ensures
        r@ == endpoint@ + " request page "@ + text::dec(page as int) + ": "@ + cause@,
{
    let mut s = String::from_str(endpoint);
    s.append(" request page ");
    s.append(dec_i64(page as i64).as_str());
    s.append(": ");
    s.append(cause);
    s
}

/// The error of a page of tag relations that could not be read.
pub fn relations_parse_error(endpoint: &str, page: i32, cause: &str) -> (r: String)
    ensures
        r@ == endpoint@ + " parse failed page "@ + text::dec(page as int) + ": "@ + cause@,
{
    let mut s = String::from_str(endpoint);
    s.append(" parse failed page ");
    s.append(dec_i64(page as i64).as_str());
    s.append(": ");
    s.append(cause);
    s
}

/// Accounts whose blacklists hold the same lines ask for posts at the same
/// address, and so share what is cached.
pub proof fn law_same_blacklist_same_address(
    domain: Seq<char>,
    limit: int,
    page: int,
    a: Seq<char>,
    b: Seq<char>,
)
    requires
        text::text_lines(a).to_multiset() == text::text_lines(b).to_multiset(),
    ensures
        url_of(domain, "posts.json"@, posts_pairs(limit, page, exclusion(a))) == url_of(
            domain,
            "posts.json"@,
            posts_pairs(limit, page, exclusion(b)),
        ),
{
    law_line_order_does_not_matter(a, b);
}

/// What becomes of a page of favourites whose body could not be parsed: the
/// error, and the cache forgets the body.
pub fn malformed_favorites(
    cache: &mut ApiCache,
    request: &FetchRequest,
    page: i32,
    cause: &str,
    body: &str,
) -> (r: FavoritesPageError)
    requires
        old(cache).wf(),
    ensures
        final(cache).wf(),
        final(cache).map.find(request.url@) is None,
        forall|u: Seq<char>|
            u != request.url@ ==> (#[trigger] final(cache).map.find(u)) == old(cache).map.find(u),
        final(cache).last_access == old(cache).last_access,
        r matches FavoritesPageError::Malformed(m) && m@ == "favorites page "@ + text::dec(
            page as int,
        ) + ": malformed 200 response: "@ + cause@ + "; first bytes: "@ + preview(body@),
{
    remove_api_cache_entry(cache, request.url.as_str());
    FavoritesPageError::malformed(page, cause, body)
}

// ---------------------------------------------------------------------------
// What requests say
// ---------------------------------------------------------------------------

/// Worth another attempt are the answer that there were too many requests and every
/// server error, and no other status.
pub proof fn law_retryable(status: u16)
    ensures
        is_retryable(status) <==> status == 429 || status / 100 == 5,
{
}

/// An error is named for the first of its kinds, from a lost connection on; one
/// without a kind is named other.
pub proof fn law_error_names(f: ErrorFlags)
    ensures
        f.connect ==> error_name(f) == "connect"@,
        !f.connect && f.body ==> error_name(f) == "body"@,
        !f.connect && !f.body && f.timeout ==> error_name(f) == "timeout"@,
        !f.connect && !f.body && !f.timeout && f.decode ==> error_name(f) == "decode"@,
        !f.connect && !f.body && !f.timeout && !f.decode && f.request ==> error_name(f)
            == "request"@,
        !f.connect && !f.body && !f.timeout && !f.decode && !f.request && f.redirect ==> error_name(
            f,
        ) == "redirect"@,
        !f.connect && !f.body && !f.timeout && !f.decode && !f.request && !f.redirect
            ==> error_name(f) == (if f.status {
            "status"@
        } else {
            "other"@
        }),
{
}

/// A page of posts is asked for with its limit, its page and its tags, each under
/// its own name, and in the extended form.
pub proof fn law_posts_request_says(limit: int, page: int, tags: Seq<char>)
    ensures
        ({
            let p = posts_pairs(limit, page, tags);
            &&& p.len() == 5
            &&& p.contains(("limit"@, text::dec(limit)))
            &&& p.contains(("page"@, text::dec(page)))
            &&& p.contains(("tags"@, tags))
            &&& p.contains(("v2"@, "true"@))
            &&& p.contains(("mode"@, "extended"@))
        }),
{
    let p = posts_pairs(limit, page, tags);
    assert(p[0] == ("limit"@, text::dec(limit)));
    assert(p[1] == ("page"@, text::dec(page)));
    assert(p[2] == ("tags"@, tags));
    assert(p[3] == ("v2"@, "true"@));
    assert(p[4] == ("mode"@, "extended"@));
}

/// A page of favourites is asked for with its user, its limit and its page, each
/// under its own name, and in the extended form.
pub proof fn law_favorites_request_says(user_id: int, limit: int, page: int)
    ensures
        ({
            let p = favorites_pairs(user_id, limit, page);
            &&& p.len() == 5
            &&& p.contains(("user_id"@, text::dec(user_id)))
            &&& p.contains(("limit"@, text::dec(limit)))
            &&& p.contains(("page"@, text::dec(page)))
            &&& p.contains(("v2"@, "true"@))
            &&& p.contains(("mode"@, "extended"@))
        }),
{
    let p = favorites_pairs(user_id, limit, page);
    assert(p[0] == ("user_id"@, text::dec(user_id)));
    assert(p[1] == ("limit"@, text::dec(limit)));
    assert(p[2] == ("page"@, text::dec(page)));
    assert(p[3] == ("v2"@, "true"@));
    assert(p[4] == ("mode"@, "extended"@));
}

/// Posts are asked for by all of their ids, on the first page.
pub proof fn law_posts_by_ids_request_says(limit: int, ids: Seq<i64>)
    ensures
        ({
            let p = posts_by_ids_pairs(limit, ids);
            &&& p.len() == 5
            &&& p.contains(("limit"@, text::dec(limit)))
            &&& p.contains(("page"@, "1"@))
            &&& p.contains(
                (
                    "tags"@,
                    "id:"@ + text::joined(ids.map_values(|i: i64| text::dec(i as int)), ","@),
                ),
            )
            &&& p.contains(("v2"@, "true"@))
            &&& p.contains(("mode"@, "extended"@))
        }),
{
    let p = posts_by_ids_pairs(limit, ids);
    assert(p[0] == ("limit"@, text::dec(limit)));
    assert(dec_list(ids) =~= ids.map_values(|i: i64| text::dec(i as int)));
    assert(p[1] == ("tags"@, "id:"@ + text::joined(dec_list(ids), ","@)));
    assert(p[2] == ("page"@, "1"@));
    assert(p[3] == ("v2"@, "true"@));
    assert(p[4] == ("mode"@, "extended"@));
}

/// Some words, each with a minus sign in front.
pub open spec fn excluded_words(words: Seq<Seq<char>>) -> Seq<Seq<char>> {
    words.map_values(|w: Seq<char>| "-"@ + w)
}

proof fn lemma_excluded_joined(words: Seq<Seq<char>>)
    requires
        words.len() > 0,
    ensures
        "-"@ + text::joined(words, " -"@) == text::joined(excluded_words(words), " "@),
    decreases words.len(),
{
    let out = excluded_words(words);
    if words.len() > 1 {
        lemma_excluded_joined(words.drop_last());
        assert(out.drop_last() =~= excluded_words(words.drop_last()));
        reveal_strlit(" -");
        reveal_strlit(" ");
        reveal_strlit("-");
        let head = text::joined(words.drop_last(), " -"@);
        assert("-"@ + (head + " -"@ + words.last()) =~= ("-"@ + head) + " "@ + ("-"@
            + words.last()));
    }
}

/// A query excludes every line of the blacklist, each with a minus sign of its own,
/// in the order of the alphabet; a blank blacklist excludes nothing.
pub proof fn law_every_line_is_excluded(blacklist: Seq<char>)
    ensures
        ({
            let words = order::text_sorted(text::text_lines(blacklist));
            &&& words.len() > 0 && normal_form(blacklist).len() > 0 ==> exclusion(blacklist)
                == text::joined(excluded_words(words), " "@)
            &&& words.len() == 0 ==> exclusion(blacklist).len() == 0
        }),
{
    let words = order::text_sorted(text::text_lines(blacklist));
    if words.len() > 0 {
        lemma_excluded_joined(words);
    }
}

/// The exclusion stands behind the query, which stays as it is.
pub proof fn law_exclusion_stands_behind(query: Seq<char>, excluded: Seq<char>)
    ensures
        excluded.len() == 0 ==> with_exclusion(query, excluded) == query,
        text::trimmed(query).len() == 0 && excluded.len() > 0 ==> with_exclusion(query, excluded)
            == excluded,
        text::trimmed(query).len() > 0 && excluded.len() > 0 ==> with_exclusion(query, excluded)
            == query + " "@ + excluded,
{
}

/// A preview is the beginning of the first line, no longer than a hundred and sixty
/// characters, and nothing where there is no line.
pub proof fn law_preview(body: Seq<char>)
    ensures
        ({
            let lines = text::text_lines(body);
            &&& lines.len() == 0 ==> preview(body).len() == 0
            &&& lines.len() > 0 ==> preview(body).is_prefix_of(lines[0])
            &&& preview(body).len() <= 160
            &&& lines.len() > 0 && preview(body).len() < 160 ==> preview(body) == lines[0]
        }),
{
    let lines = text::text_lines(body);
    if lines.len() > 0 {
        assert(lines[0].subrange(0, preview(body).len() as int) =~= preview(body));
    }
}

/// A diagnostic header adds its name and value to the line where it has one, and
/// nothing where it has none; the headers come in their order.
pub proof fn law_diag_line(values: Seq<Option<String>>, n: int)
    requires
        0 <= n < 10,
        values.len() == 10,
    ensures
        values[n] is Some && values[n]->0@.len() > 0 ==> diag_text(values, n + 1) == diag_text(
            values,
            n,
        ) + " "@ + diag_names()[n] + "="@ + values[n]->0@,
        values[n] is None || values[n]->0@.len() == 0 ==> diag_text(values, n + 1) == diag_text(
            values,
            n,
        ),
        diag_text(values, 0).len() == 0,
        diag_names().len() == 10,
{
    let head = diag_text(values, n);
    if values[n] is Some && values[n]->0@.len() > 0 {
        let v = values[n]->0@;
        assert(head + (" "@ + diag_names()[n] + "="@ + v) =~= head + " "@ + diag_names()[n] + "="@
            + v);
    } else {
        assert(head + Seq::<char>::empty() =~= head);
    }
}

/// A body whose age has reached its time to live is dropped, and a younger one
/// stays as it is.
pub proof fn law_stale_bodies_go(e: TimedEntry<String, String>, ttl_secs: u64, now: u64)
    requires
        e.at <= now,
        ttl_secs * 1000 <= u64::MAX,
    ensures
        now - e.at >= 1000 * ttl_secs ==> unless_stale(Some(e), ttl_secs, now) is None,
        now - e.at < 1000 * ttl_secs ==> unless_stale(Some(e), ttl_secs, now) == Some(e),
{
}

/// A request without parameters has none in its address; else they stand behind a
/// question mark, each with its name and its encoded value, in order.
pub proof fn law_address(
    domain: Seq<char>,
    path: Seq<char>,
    p: Seq<(Seq<char>, Seq<char>)>,
    key: Seq<char>,
    value: Seq<char>,
)
    ensures
        url_of(domain, path, Seq::empty()) == domain + "/"@ + path,
        url_of(domain, path, seq![(key, value)]) == domain + "/"@ + path + "?"@ + (key + "="@
            + query_text(value)),
        p.len() > 0 ==> url_of(domain, path, p.push((key, value))) == url_of(domain, path, p) + "&"@
            + (key + "="@ + query_text(value)),
{
    let one = seq![(key, value)];
    assert(param_texts(one) =~= seq![key + "="@ + query_text(value)]);
    if p.len() > 0 {
        let q = p.push((key, value));
        assert(param_texts(q).drop_last() =~= param_texts(p));
        let head = domain + "/"@ + path + "?"@;
        let old_text = text::joined(param_texts(p), "&"@);
        let part = key + "="@ + query_text(value);
        assert(head + (old_text + "&"@ + part) =~= (head + old_text) + "&"@ + part);
    }
}

/// A text is encoded byte by byte: two texts behind each other are encoded as they
/// are alone.
pub proof fn law_encoding_goes_byte_by_byte(a: Seq<u8>, b: Seq<u8>)
    ensures
        percent_encoded(a + b) == percent_encoded(a) + percent_encoded(b),
    decreases b.len(),
{
    if b.len() == 0 {
        assert(a + b =~= a);
        assert(percent_encoded(a) + percent_encoded(b) =~= percent_encoded(a));
    } else {
        law_encoding_goes_byte_by_byte(a, b.drop_last());
        assert((a + b).drop_last() =~= a + b.drop_last());
        assert((a + b).last() == b.last());
        assert(percent_encoded(a + b) =~= percent_encoded(a) + percent_encoded(b));
    }
}

/// A letter, a digit and `-`, `.`, `_`, `~` stand for themselves. Any other byte is
/// a percent sign and two digits to the base of sixteen, the higher one first.
pub proof fn law_encoded_byte(b: u8)
    ensures
        ({
            let c = b as char;
            let plain = 'a' <= c <= 'z' || 'A' <= c <= 'Z' || '0' <= c <= '9' || c == '-' || c
                == '.' || c == '_' || c == '~';
            let r = percent_encoded(seq![b]);
            &&& plain ==> r == seq![c]
            &&& !plain ==> r.len() == 3 && r[0] == '%' && exists|h: int, l: int|
                #![trigger hex_digit(h), hex_digit(l)]
                0 <= h < 16 && 0 <= l < 16 && b == 16 * h + l && r[1] == hex_digit(h) && r[2]
                    == hex_digit(l)
        }),
        forall|d: int| 0 <= d < 10 ==> #[trigger] hex_digit(d) as int == '0' as int + d,
        forall|d: int| 10 <= d < 16 ==> #[trigger] hex_digit(d) as int == 'A' as int + d - 10,
{
    let s = seq![b];
    assert(s.drop_last() =~= Seq::<u8>::empty());
    assert(percent_encoded(s.drop_last()) =~= Seq::<char>::empty());
    if is_unreserved(b) {
        assert(percent_encoded(s) =~= seq![b as char]);
    } else {
        let h = b as int / 16;
        let l = b as int % 16;
        assert(percent_encoded(s) =~= seq!['%', hex_digit(h), hex_digit(l)]);
    }
}

/// Of a full cache the oldest bodies go: none that stays is older than one that
/// went, and none that stays is changed.
pub proof fn law_oldest_bodies_go(
    a: TimedMap<String, String>,
    b: TimedMap<String, String>,
    n: int,
    gone: Seq<char>,
    kept: Seq<char>,
)
    requires
        without_oldest(a, b, n),
        0 <= n <= a.count(),
        a.find(gone) is Some,
        b.find(gone) is None,
        b.find(kept) is Some,
    ensures
        a.find(gone)->0.at <= a.find(kept)->0.at,
        b.find(kept) == a.find(kept),
        b.count() + n == a.count(),
{
}

/// The error of a spent request names its kind and its cause.
pub proof fn law_spent_requests(f: ErrorFlags, e: String, budget: u64)
    ensures
        exhausted_message(AttemptOutcome::Failed(f, e), budget) == "request failed after retries ["@
            + error_name(f) + "]: "@ + e@,
        exhausted_message(AttemptOutcome::TimedOut, budget)
            == "request failed after retries [hard-timeout]: "@ + text::dec(budget as int)
            + ".00s budget exceeded"@,
{
}

/// A response is final unless the server is busy or at fault, and nothing else is
/// final.
pub proof fn law_final_outcomes(o: AttemptOutcome)
    ensures
        o is TimedOut || o is Failed ==> !is_final(o),
        o matches AttemptOutcome::Response(s) ==> (is_final(o) <==> s != 429 && (s < 500 || s
            >= 600)),
{
}

/// A page that is asked for is the one that is fetched; without one it is the first.
pub proof fn law_page(p: i32)
    ensures
        page_or_first(Some(p)) == p,
        page_or_first(None) == 1,
{
}

} // verus!
