//! The upstream request budget and the pace that it allows. Times are
//! milliseconds of a clock that does not run backward.

use vstd::prelude::*;

use crate::timed;
use crate::timed::age_at;

verus! {

/// Why a request is made. Live requests come first.
#[derive(Debug, Clone, Copy, PartialEq, Eq, PartialOrd, Ord, Structural)]
pub enum Priority {
    Live,
    Prefetch,
    Backfill,
}

/// The delays that the configuration sets.
#[derive(Debug, Clone, Copy, PartialEq, Eq, Structural)]
pub struct RuntimeConfig {
    pub live_rps_delay_ms: u64,
    pub prefetch_rps_delay_ms: u64,
    pub backfill_rps_delay_ms: u64,
    pub backfill_live_window_ms: u64,
}

impl Priority {
    pub open spec fn base_delay(&self, runtime: RuntimeConfig) -> u64 {
        match self {
            Priority::Live => runtime.live_rps_delay_ms,
            Priority::Prefetch => runtime.prefetch_rps_delay_ms,
            Priority::Backfill => runtime.backfill_rps_delay_ms,
        }
    }

    pub fn base_delay_ms_from(&self, runtime: &RuntimeConfig) -> (r: u64)
        ensures
            r == self.base_delay(*runtime),
    {
        match self {
            Priority::Live => runtime.live_rps_delay_ms,
            Priority::Prefetch => runtime.prefetch_rps_delay_ms,
            Priority::Backfill => runtime.backfill_rps_delay_ms,
        }
    }
}

/// The budget has not been observed.
pub const UNKNOWN_REMAINING: u32 = u32::MAX;

/// What is known of the upstream budget.
#[derive(Debug, Clone, Copy, PartialEq, Eq, Structural)]
pub struct E621LoadMonitor {
    pub last_remaining: u32,
    pub reset_at: u64,
    pub sent_since_update: u32,
    pub last_live_pass: u64,
}

impl E621LoadMonitor {
    pub const UNKNOWN_REMAINING: u32 = u32::MAX;

    /// The state of a monitor that is created at `now`.
    pub open spec fn initial(now: u64) -> E621LoadMonitor {
        E621LoadMonitor {
            last_remaining: UNKNOWN_REMAINING,
            reset_at: 0,
            sent_since_update: 0,
            last_live_pass: now,
        }
    }

    /// The monitor that the process starts with.
    pub fn global(now: u64) -> (r: E621LoadMonitor)
        ensures
            r == E621LoadMonitor::initial(now),
    {
        E621LoadMonitor {
            last_remaining: UNKNOWN_REMAINING,
            reset_at: 0,
            sent_since_update: 0,
            last_live_pass: now,
        }
    }

    /// Takes over the budget that the upstream reported.
    pub fn observe_remaining(&mut self, remaining: u32)
        ensures
            *final(self) == (E621LoadMonitor {
                last_remaining: remaining,
                sent_since_update: 0,
                ..*old(self)
            }),
    {
        self.last_remaining = remaining;
        self.sent_since_update = 0;
    }

    /// Takes over the reset time that the upstream reported.
    pub fn observe_reset(&mut self, reset_ts: u64)
        ensures
            *final(self) == (E621LoadMonitor { reset_at: reset_ts, ..*old(self) }),
    {
        self.reset_at = reset_ts;
    }

    /// The monitor after a request went out at `now`.
    pub open spec fn recorded(self, priority: Priority, now: u64) -> E621LoadMonitor {
        E621LoadMonitor {
            sent_since_update: if self.sent_since_update == u32::MAX {
                0
            } else {
                (self.sent_since_update + 1) as u32
            },
            last_live_pass: if priority == Priority::Live {
                now
            } else {
                self.last_live_pass
            },
            ..self
        }
    }

    /// Notes that a request went out at `now`.
    pub fn record_pass(&mut self, priority: Priority, now: u64)
        ensures
            *final(self) == old(self).recorded(priority, now),
    {
        if priority == Priority::Live {
            self.last_live_pass = now;
        }
        self.sent_since_update = self.sent_since_update.wrapping_add(1);
    }

    /// The requests that are presumably left.
    pub open spec fn estimate(&self) -> u32 {
        if self.last_remaining == UNKNOWN_REMAINING {
            UNKNOWN_REMAINING
        } else if self.sent_since_update <= self.last_remaining {
            (self.last_remaining - self.sent_since_update) as u32
        } else {
            0
        }
    }

    pub fn estimated_remaining(&self) -> (r: u32)
        ensures
            r == self.estimate(),
    {
        if self.last_remaining == UNKNOWN_REMAINING {
            return UNKNOWN_REMAINING;
        }
        if self.sent_since_update <= self.last_remaining {
            self.last_remaining - self.sent_since_update
        } else {
            0
        }
    }

    /// How long ago a live request went out.
    pub fn ms_since_last_live(&self, now: u64) -> (r: u64)
        ensures
            r == timed::age(now, self.last_live_pass),
    {
        age_at(now, self.last_live_pass)
    }
}

/// How much a shrinking budget stretches the delays: not at all above 200, and
/// fivefold below 50.
pub open spec fn multiplier(remaining: u32) -> u64 {
    if remaining == UNKNOWN_REMAINING {
        2
    } else if remaining > 200 {
        1
    } else if remaining > 100 {
        2
    } else if remaining >= 50 {
        3
    } else {
        5
    }
}

pub fn budget_multiplier(remaining: u32) -> (r: u64)
    ensures
        r == multiplier(remaining),
{
    if remaining == UNKNOWN_REMAINING {
        return 2;
    }
    if remaining > 200 {
        1
    } else if remaining > 100 {
        2
    } else if remaining >= 50 {
        3
    } else {
        5
    }
}

/// What a background request waits on top while live requests are recent: the
/// rest of the live window, between fifty milliseconds and two seconds.
pub open spec fn live_window_extra(priority: Priority, since_live: int, window: int) -> int {
    if priority != Priority::Live && since_live < window {
        let rest = window - since_live;
        if rest < 50 {
            50
        } else if rest > 2000 {
            2000
        } else {
            rest
        }
    } else {
        0
    }
}

/// The delay that a request imposes on the next one.
pub open spec fn effective_delay(
    m: E621LoadMonitor,
    runtime: RuntimeConfig,
    priority: Priority,
    now: u64,
) -> int {
    priority.base_delay(runtime) * multiplier(m.estimate()) + live_window_extra(
        priority,
        timed::age(now, m.last_live_pass),
        runtime.backfill_live_window_ms as int,
    )
}

pub fn effective_delay_ms(
    m: &E621LoadMonitor,
    runtime: &RuntimeConfig,
    priority: Priority,
    now: u64,
) -> (r: u64)
    requires
        effective_delay(*m, *runtime, priority, now) <= u64::MAX,
    ensures
        r == effective_delay(*m, *runtime, priority, now),
{
    let extra: u64 = if priority != Priority::Live {
        let since: u64 = m.ms_since_last_live(now);
        let window: u64 = runtime.backfill_live_window_ms;
        if since < window {
            let rest: u64 = window - since;
            if rest < 50 {
                50
            } else if rest > 2000 {
                2000
            } else {
                rest
            }
        } else {
            0
        }
    } else {
        0
    };
    let base: u64 = priority.base_delay_ms_from(runtime);
    let k: u64 = budget_multiplier(m.estimated_remaining());
    base * k + extra
}

/// Spaces requests: the time from which the next may go out.
#[derive(Debug, Clone, Copy, PartialEq, Eq, Structural)]
pub struct AdaptiveGate {
    pub next_available: u64,
}

impl AdaptiveGate {
    /// Open from now on.
    pub fn global(now: u64) -> (r: AdaptiveGate)
        ensures
            r.next_available == now,
    {
        AdaptiveGate { next_available: now }
    }

    /// A request may go out at `now`.
    pub open spec fn open_at(&self, now: u64) -> bool {
        self.next_available <= now
    }

    /// Asks for a request to go out at `now`. Where it is too soon, nothing changes
    /// and the result says how many milliseconds are left to wait. Otherwise the
    /// request passes: the next one waits `delay` longer, and the monitor notes the
    /// request.
    pub fn wait(
        &mut self,
        m: &mut E621LoadMonitor,
        priority: Priority,
        now: u64,
        delay: u64,
    ) -> (r: Option<u64>)
        requires
            now + delay <= u64::MAX,
        ensures
            match r {
                Some(ms) => {
                    &&& !old(self).open_at(now)
                    &&& ms == old(self).next_available - now
                    &&& *final(self) == *old(self)
                    &&& *final(m) == *old(m)
                },
                None => passed(
                    (*old(self), *old(m)),
                    (*final(self), *final(m)),
                    priority,
                    delay as int,
                    now,
                ),
            },
    {
        if self.next_available > now {
            return Some(self.next_available - now);
        }
        self.next_available = now + delay;
        m.record_pass(priority, now);
        None
    }
}

/// A request went out at `at` and holds the next one up for `delay`: the spacing
/// and the monitor before it, and after.
pub open spec fn passed(
    before: (AdaptiveGate, E621LoadMonitor),
    after: (AdaptiveGate, E621LoadMonitor),
    priority: Priority,
    delay: int,
    at: u64,
) -> bool {
    &&& before.0.open_at(at)
    &&& after.0.next_available == at + delay
    &&& after.1 == before.1.recorded(priority, at)
}

/// A fresh `AdaptiveGate` lets its first request through without a wait.
pub proof fn law_fresh_gate_is_open(gate: AdaptiveGate, created: u64, now: u64)
    requires
        gate.next_available == created,
        created <= now,
    ensures
        gate.open_at(now),
{
}

/// Of two requests in a row the second passes no sooner after the first than the
/// first one's delay: its base delay stretched by the budget, and for a background
/// request the rest of the live window on top. Each is recorded once.
pub proof fn law_two_waits_in_a_row(
    start: (AdaptiveGate, E621LoadMonitor),
    middle: (AdaptiveGate, E621LoadMonitor),
    end: (AdaptiveGate, E621LoadMonitor),
    runtime: RuntimeConfig,
    first: Priority,
    second: Priority,
    asked: u64,
    first_at: u64,
    second_delay: int,
    second_at: u64,
)
    requires
        passed(start, middle, first, effective_delay(start.1, runtime, first, asked), first_at),
        passed(middle, end, second, second_delay, second_at),
    ensures
        second_at - first_at >= first.base_delay(runtime) * multiplier(start.1.estimate())
            + live_window_extra(
            first,
            timed::age(asked, start.1.last_live_pass),
            runtime.backfill_live_window_ms as int,
        ),
        end.1 == start.1.recorded(first, first_at).recorded(second, second_at),
        start.1.sent_since_update <= u32::MAX - 2 ==> end.1.sent_since_update
            == start.1.sent_since_update + 2,
        end.1.last_live_pass == (if second == Priority::Live {
            second_at
        } else if first == Priority::Live {
            first_at
        } else {
            start.1.last_live_pass
        }),
{
}

/// A smaller known budget never shortens a delay.
pub proof fn law_smaller_budget_slows_down(a: u32, b: u32)
    requires
        a <= b,
        b != UNKNOWN_REMAINING,
    ensures
        multiplier(a) >= multiplier(b),
{
}

/// After a report of `remaining`, `sent` requests leave `remaining - sent`, down
/// to none.
pub proof fn law_estimate_counts_down(m: E621LoadMonitor, remaining: u32, sent: u32)
    requires
        remaining != UNKNOWN_REMAINING,
        m.last_remaining == remaining,
        m.sent_since_update == sent,
    ensures
        m.estimate() == (if sent <= remaining {
            remaining - sent
        } else {
            0
        }),
{
}

/// Only a live request moves the live window: the extra wait of a background
/// request does not depend on other background requests.
pub proof fn law_live_requests_wait_no_extra(since: int, window: int)
    ensures
        live_window_extra(Priority::Live, since, window) == 0,
        live_window_extra(Priority::Prefetch, since, window) == live_window_extra(
            Priority::Backfill,
            since,
            window,
        ),
        since >= window ==> live_window_extra(Priority::Backfill, since, window) == 0,
{
}

/// The budget stretches delays in steps: not at all above two hundred requests,
/// twice above a hundred, threefold from fifty on and fivefold below; an unknown one
/// twice.
pub proof fn law_budget_steps(remaining: u32)
    ensures
        multiplier(u32::MAX) == 2,
        remaining != u32::MAX ==> {
            &&& multiplier(remaining) == 1 <==> remaining > 200
            &&& multiplier(remaining) == 2 <==> 100 < remaining <= 200
            &&& multiplier(remaining) == 3 <==> 50 <= remaining <= 100
            &&& multiplier(remaining) == 5 <==> remaining < 50
        },
{
}

/// Each kind of request goes by its own configured delay: with budget to spare and
/// no live request lately, exactly by that.
pub proof fn law_each_kind_has_its_delay(
    m: E621LoadMonitor,
    runtime: RuntimeConfig,
    priority: Priority,
    now: u64,
)
    requires
        200 < m.estimate() < u32::MAX,
        now - m.last_live_pass >= runtime.backfill_live_window_ms,
    ensures
        priority == Priority::Live ==> effective_delay(m, runtime, priority, now)
            == runtime.live_rps_delay_ms,
        priority == Priority::Prefetch ==> effective_delay(m, runtime, priority, now)
            == runtime.prefetch_rps_delay_ms,
        priority == Priority::Backfill ==> effective_delay(m, runtime, priority, now)
            == runtime.backfill_rps_delay_ms,
{
    let base = priority.base_delay(runtime);
    let k = multiplier(m.estimate());
    assert(base * k == base) by (nonlinear_arith)
        requires
            k == 1,
    ;
}

/// While live requests are recent a background request waits for the rest of the
/// live window, but no less than fifty milliseconds and no more than two seconds.
pub proof fn law_rest_of_the_live_window(since: int, window: int)
    requires
        0 <= since < window,
    ensures
        ({
            let extra = live_window_extra(Priority::Backfill, since, window);
            &&& 50 <= extra <= 2_000
            &&& 50 <= window - since <= 2_000 ==> extra == window - since
            &&& window - since < 50 ==> extra == 50
            &&& window - since > 2_000 ==> extra == 2_000
        }),
{
}

/// A request counts once against the budget, and only a live one moves the live
/// window.
pub proof fn law_each_request_counts_once(m: E621LoadMonitor, priority: Priority, now: u64)
    requires
        m.sent_since_update < u32::MAX,
    ensures
        m.recorded(priority, now).sent_since_update == m.sent_since_update + 1,
        m.recorded(priority, now).last_remaining == m.last_remaining,
        m.recorded(priority, now).reset_at == m.reset_at,
        m.recorded(priority, now).last_live_pass == (if priority == Priority::Live {
            now
        } else {
            m.last_live_pass
        }),
        m.last_remaining != UNKNOWN_REMAINING && m.estimate() > 0 ==> m.recorded(
            priority,
            now,
        ).estimate() == m.estimate() - 1,
{
}

} // verus!
