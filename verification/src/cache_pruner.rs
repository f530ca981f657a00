//! The schedule of the cache pruner and the report of a tick.

use vstd::prelude::*;

use crate::text;
use crate::text::{dec_u64, dec_usize};

verus! {

/// The shortest pause between two ticks, in seconds.
pub const MIN_INTERVAL_SECS: u64 = 30;

/// The shortest pause between two catalog cleanups, in seconds.
pub const MIN_CLEANUP_SECS: u64 = 60;

#[derive(Clone, Copy, Debug, PartialEq, Eq, Structural)]
pub struct PrunerConfig {
    pub cache_validate_interval_secs: u64,
    pub orphan_retention_secs: i64,
    pub cache_idle_eviction_secs: u64,
    pub cleanup_interval_secs: u64,
    pub catalog_retention_days: i64,
}

/// One piece of a tick.
#[derive(Clone, Copy, Debug, PartialEq, Eq, Structural)]
pub enum PrunerAction {
    Sleep(u64),
    PruneApiCache,
    PruneFinishedJobs,
    PruneRateBuckets,
    PruneOrphanCandidates(i64),
    PruneRevokedTokens,
    EvictApiCache(u64),
    EvictIdf(u64),
    EvictRelations(u64),
    Checkpoint,
    PruneCatalog(i64),
    CleanupAccounts,
}

pub open spec fn at_least(x: int, low: int) -> int {
    if x > low {
        x
    } else {
        low
    }
}

/// What a tick does, in order, up to the catalog cleanup.
pub open spec fn tick_plan(c: PrunerConfig) -> Seq<PrunerAction> {
    let head = seq![
        PrunerAction::Sleep(at_least(c.cache_validate_interval_secs as int, 30) as u64),
        PrunerAction::PruneApiCache,
        PrunerAction::PruneFinishedJobs,
        PrunerAction::PruneRateBuckets,
    ];
    let orphans = if c.orphan_retention_secs > 0 {
        seq![PrunerAction::PruneOrphanCandidates(c.orphan_retention_secs)]
    } else {
        Seq::empty()
    };
    head + orphans + seq![
        PrunerAction::PruneRevokedTokens,
        PrunerAction::EvictApiCache(c.cache_idle_eviction_secs),
        PrunerAction::EvictIdf(c.cache_idle_eviction_secs),
        PrunerAction::EvictRelations(c.cache_idle_eviction_secs),
        PrunerAction::Checkpoint,
    ]
}

/// The next tick; none where the pruner is switched off.
pub fn plan_tick(c: &PrunerConfig) -> (r: Option<Vec<PrunerAction>>)
    ensures
        match r {
            Some(v) => c.cache_validate_interval_secs > 0 && v@ == tick_plan(*c),
            None => c.cache_validate_interval_secs == 0,
        },
{
    let raw: u64 = c.cache_validate_interval_secs;
    if raw == 0 {
        return None;
    }
    let mut v: Vec<PrunerAction> = Vec::new();
    v.push(
        PrunerAction::Sleep(
            if raw > MIN_INTERVAL_SECS {
                raw
            } else {
                MIN_INTERVAL_SECS
            },
        ),
    );
    v.push(PrunerAction::PruneApiCache);
    v.push(PrunerAction::PruneFinishedJobs);
    v.push(PrunerAction::PruneRateBuckets);
    if c.orphan_retention_secs > 0 {
        v.push(PrunerAction::PruneOrphanCandidates(c.orphan_retention_secs));
    }
    v.push(PrunerAction::PruneRevokedTokens);
    v.push(PrunerAction::EvictApiCache(c.cache_idle_eviction_secs));
    v.push(PrunerAction::EvictIdf(c.cache_idle_eviction_secs));
    v.push(PrunerAction::EvictRelations(c.cache_idle_eviction_secs));
    v.push(PrunerAction::Checkpoint);
    proof {
        assert(v@ =~= tick_plan(*c));
    }
    Some(v)
}

/// The catalog cleanup at the end of a tick: due once its interval has passed
/// since the last one.
pub open spec fn cleanup_plan(c: PrunerConfig, since_last_secs: u64) -> Seq<PrunerAction> {
    if since_last_secs >= at_least(c.cleanup_interval_secs as int, 60) {
        seq![
            PrunerAction::PruneCatalog(at_least(c.catalog_retention_days as int, 1) as i64),
            PrunerAction::CleanupAccounts,
        ]
    } else {
        Seq::empty()
    }
}

pub fn plan_cleanup(c: &PrunerConfig, since_last_secs: u64) -> (r: Vec<PrunerAction>)
    ensures
        r@ == cleanup_plan(*c, since_last_secs),
{
    let interval: u64 = if c.cleanup_interval_secs > MIN_CLEANUP_SECS {
        c.cleanup_interval_secs
    } else {
        MIN_CLEANUP_SECS
    };
    let mut v: Vec<PrunerAction> = Vec::new();
    if since_last_secs >= interval {
        let days: i64 = if c.catalog_retention_days > 1 {
            c.catalog_retention_days
        } else {
            1
        };
        v.push(PrunerAction::PruneCatalog(days));
        v.push(PrunerAction::CleanupAccounts);
    }
    proof {
        assert(v@ =~= cleanup_plan(*c, since_last_secs));
    }
    v
}

/// Whether the revoked tokens in memory have to be read anew.
pub fn revoked_reload_due(pruned: (usize, usize)) -> (r: bool)
    ensures
        r == (pruned.0 != pruned.1),
{
    pruned.0 != pruned.1
}

/// The entries before and after each part of a tick.
#[derive(Clone, Copy, Debug)]
pub struct TickCounts {
    pub api: (usize, usize),
    pub api_idle: (usize, usize),
    pub jobs: (usize, usize),
    pub ratelimit: (usize, usize),
    pub candidates: (usize, usize),
    pub revoked: (usize, usize),
}

impl TickCounts {
    /// No part grew.
    pub open spec fn wf(&self) -> bool {
        &&& self.api.1 <= self.api.0
        &&& self.api_idle.1 <= self.api_idle.0
        &&& self.jobs.1 <= self.jobs.0
        &&& self.ratelimit.1 <= self.ratelimit.0
        &&& self.candidates.1 <= self.candidates.0
        &&& self.revoked.1 <= self.revoked.0
    }

    /// How many entries were dropped.
    pub open spec fn dropped(&self) -> int {
        (self.api.0 - self.api.1) + (self.api_idle.0 - self.api_idle.1) + (self.jobs.0
            - self.jobs.1) + (self.ratelimit.0 - self.ratelimit.1) + (self.candidates.0
            - self.candidates.1) + (self.revoked.0 - self.revoked.1)
    }

    pub fn total_dropped(&self) -> (r: usize)
        requires
            self.wf(),
            self.dropped() <= usize::MAX,
        ensures
            r == self.dropped(),
    {
        (self.api.0 - self.api.1) + (self.api_idle.0 - self.api_idle.1) + (self.jobs.0
            - self.jobs.1) + (self.ratelimit.0 - self.ratelimit.1) + (self.candidates.0
            - self.candidates.1) + (self.revoked.0 - self.revoked.1)
    }
}

/// `before->after`.
pub open spec fn diff_text(d: (usize, usize)) -> Seq<char> {
    text::dec(d.0 as int) + "->"@ + text::dec(d.1 as int)
}

fn append_diff(s: &mut String, d: (usize, usize))
    ensures
        final(s)@ == old(s)@ + diff_text(d),
{
    s.append(dec_usize(d.0).as_str());
    s.append("->");
    s.append(dec_usize(d.1).as_str());
    proof {
        assert(s@ =~= old(s)@ + diff_text(d));
    }
}

/// The report of a tick that dropped something.
pub open spec fn dropped_line(t: TickCounts) -> Seq<char> {
    "[cache-pruner] dropped "@ + text::dec(t.dropped()) + " entries (api-ttl "@ + diff_text(t.api)
        + ", api-idle "@ + diff_text(t.api_idle) + ", jobs "@ + diff_text(t.jobs) + ", ratelimit "@
        + diff_text(t.ratelimit) + ", candidates "@ + diff_text(t.candidates) + ", revoked "@
        + diff_text(t.revoked) + ")"@
}

/// The report of a tick that dropped nothing.
pub open spec fn clean_line(t: TickCounts) -> Seq<char> {
    "[cache-pruner] tick clean (api-ttl="@ + text::dec(t.api.1 as int) + ", api-idle="@
        + text::dec(t.api_idle.1 as int) + ", jobs="@ + text::dec(t.jobs.1 as int)
        + ", ratelimit="@ + text::dec(t.ratelimit.1 as int) + ", candidates="@ + text::dec(
        t.candidates.1 as int,
    ) + ", revoked="@ + text::dec(t.revoked.1 as int) + ")"@
}

/// The report of a tick, and whether anything was dropped.
pub fn tick_report(t: &TickCounts) -> (r: (bool, String))
    requires
        t.wf(),
        t.dropped() <= usize::MAX,
    ensures
        r.0 == (t.dropped() > 0),
        r.1@ == (if t.dropped() > 0 {
            dropped_line(*t)
        } else {
            clean_line(*t)
        }),
{
    let total: usize = t.total_dropped();
    if total > 0 {
        let mut s = String::from_str("[cache-pruner] dropped ");
        s.append(dec_usize(total).as_str());
        s.append(" entries (api-ttl ");
        append_diff(&mut s, t.api);
        s.append(", api-idle ");
        append_diff(&mut s, t.api_idle);
        s.append(", jobs ");
        append_diff(&mut s, t.jobs);
        s.append(", ratelimit ");
        append_diff(&mut s, t.ratelimit);
        s.append(", candidates ");
        append_diff(&mut s, t.candidates);
        s.append(", revoked ");
        append_diff(&mut s, t.revoked);
        s.append(")");
        (true, s)
    } else {
        let mut s = String::from_str("[cache-pruner] tick clean (api-ttl=");
        s.append(dec_usize(t.api.1).as_str());
        s.append(", api-idle=");
        s.append(dec_usize(t.api_idle.1).as_str());
        s.append(", jobs=");
        s.append(dec_usize(t.jobs.1).as_str());
        s.append(", ratelimit=");
        s.append(dec_usize(t.ratelimit.1).as_str());
        s.append(", candidates=");
        s.append(dec_usize(t.candidates.1).as_str());
        s.append(", revoked=");
        s.append(dec_usize(t.revoked.1).as_str());
        s.append(")");
        (false, s)
    }
}

/// The report of an eviction for idleness; none where nothing was dropped.
pub fn api_idle_line(idle_secs: u64, dropped: usize) -> (r: Option<String>)
    ensures
        match r {
            Some(s) => dropped > 0 && s@ == "[cache-pruner] idle-evict API cache after "@
                + text::dec(idle_secs as int) + "s: dropped "@ + text::dec(dropped as int)
                + " entries"@,
            None => dropped == 0,
        },
{
    if dropped == 0 {
        return None;
    }
    let mut s = String::from_str("[cache-pruner] idle-evict API cache after ");
    s.append(dec_u64(idle_secs).as_str());
    s.append("s: dropped ");
    s.append(dec_usize(dropped).as_str());
    s.append(" entries");
    Some(s)
}

/// Orphaned candidates are pruned only where a retention is set, and the pause
/// between ticks is never shorter than thirty seconds.
pub proof fn law_tick_plan(c: PrunerConfig)
    ensures
        tick_plan(c)[0] matches PrunerAction::Sleep(secs) && secs >= 30,
        c.orphan_retention_secs <= 0 ==> forall|i: int|
            0 <= i < tick_plan(c).len() ==> !((#[trigger] tick_plan(
                c,
            )[i]) is PruneOrphanCandidates),
{
}

/// When a piece of a tick comes.
pub open spec fn action_rank(a: PrunerAction) -> int {
    match a {
        PrunerAction::Sleep(_) => 0,
        PrunerAction::PruneApiCache => 1,
        PrunerAction::PruneFinishedJobs => 2,
        PrunerAction::PruneRateBuckets => 3,
        PrunerAction::PruneOrphanCandidates(_) => 4,
        PrunerAction::PruneRevokedTokens => 5,
        PrunerAction::EvictApiCache(_) => 6,
        PrunerAction::EvictIdf(_) => 7,
        PrunerAction::EvictRelations(_) => 8,
        PrunerAction::Checkpoint => 9,
        PrunerAction::PruneCatalog(_) => 10,
        PrunerAction::CleanupAccounts => 11,
    }
}

/// A tick does every piece once and in order, with the configured numbers; orphaned
/// candidates are pruned exactly where a retention is set.
pub proof fn law_tick_does_every_piece(c: PrunerConfig)
    ensures
        ({
            let p = tick_plan(c);
            let idle = c.cache_idle_eviction_secs;
            &&& forall|i: int, j: int|
                0 <= i < j < p.len() ==> action_rank(#[trigger] p[i]) < action_rank(
                    #[trigger] p[j],
                )
            &&& p.len() == (if c.orphan_retention_secs > 0 {
                10int
            } else {
                9int
            })
            &&& c.cache_validate_interval_secs >= 30 ==> p[0] == PrunerAction::Sleep(
                c.cache_validate_interval_secs,
            )
            &&& c.cache_validate_interval_secs < 30 ==> p[0] == PrunerAction::Sleep(30)
            &&& p.contains(PrunerAction::PruneApiCache)
            &&& p.contains(PrunerAction::PruneFinishedJobs)
            &&& p.contains(PrunerAction::PruneRateBuckets)
            &&& p.contains(PrunerAction::PruneRevokedTokens)
            &&& p.contains(PrunerAction::EvictApiCache(idle))
            &&& p.contains(PrunerAction::EvictIdf(idle))
            &&& p.contains(PrunerAction::EvictRelations(idle))
            &&& p.contains(PrunerAction::Checkpoint)
            &&& c.orphan_retention_secs > 0 ==> p.contains(
                PrunerAction::PruneOrphanCandidates(c.orphan_retention_secs),
            )
        }),
{
    let p = tick_plan(c);
    let idle = c.cache_idle_eviction_secs;
    let k = if c.orphan_retention_secs > 0 {
        5int
    } else {
        4int
    };
    assert(p[1] == PrunerAction::PruneApiCache);
    assert(p[2] == PrunerAction::PruneFinishedJobs);
    assert(p[3] == PrunerAction::PruneRateBuckets);
    assert(p[k] == PrunerAction::PruneRevokedTokens);
    assert(p[k + 1] == PrunerAction::EvictApiCache(idle));
    assert(p[k + 2] == PrunerAction::EvictIdf(idle));
    assert(p[k + 3] == PrunerAction::EvictRelations(idle));
    assert(p[k + 4] == PrunerAction::Checkpoint);
    if c.orphan_retention_secs > 0 {
        assert(p[4] == PrunerAction::PruneOrphanCandidates(c.orphan_retention_secs));
    }
}

/// The catalog is cleaned up once its interval has passed, which is at least a
/// minute; it keeps posts for the configured days, at least one.
pub proof fn law_cleanup(c: PrunerConfig, since: u64)
    ensures
        ({
            let p = cleanup_plan(c, since);
            let due = since >= 60 && since >= c.cleanup_interval_secs;
            &&& !due ==> p.len() == 0
            &&& due ==> p.len() == 2 && p[1] == PrunerAction::CleanupAccounts
            &&& due && c.catalog_retention_days >= 1 ==> p[0] == PrunerAction::PruneCatalog(
                c.catalog_retention_days,
            )
            &&& due && c.catalog_retention_days < 1 ==> p[0] == PrunerAction::PruneCatalog(1)
        }),
{
}

/// What was dropped is what is missing afterwards, over all parts of a tick.
pub proof fn law_dropped(t: TickCounts)
    requires
        t.wf(),
    ensures
        t.dropped() >= 0,
        t.dropped() + t.api.1 + t.api_idle.1 + t.jobs.1 + t.ratelimit.1 + t.candidates.1
            + t.revoked.1 == t.api.0 + t.api_idle.0 + t.jobs.0 + t.ratelimit.0 + t.candidates.0
            + t.revoked.0,
{
}

/// The report of a tick names every part with its counts before and after.
pub proof fn law_dropped_line(t: TickCounts)
    ensures
        dropped_line(t) == "[cache-pruner] dropped "@ + text::dec(t.dropped()) + " entries ("@
            + text::joined(
            seq![
                "api-ttl "@ + (text::dec(t.api.0 as int) + "->"@ + text::dec(t.api.1 as int)),
                "api-idle "@ + (text::dec(t.api_idle.0 as int) + "->"@ + text::dec(
                    t.api_idle.1 as int,
                )),
                "jobs "@ + (text::dec(t.jobs.0 as int) + "->"@ + text::dec(t.jobs.1 as int)),
                "ratelimit "@ + (text::dec(t.ratelimit.0 as int) + "->"@ + text::dec(
                    t.ratelimit.1 as int,
                )),
                "candidates "@ + (text::dec(t.candidates.0 as int) + "->"@ + text::dec(
                    t.candidates.1 as int,
                )),
                "revoked "@ + (text::dec(t.revoked.0 as int) + "->"@ + text::dec(
                    t.revoked.1 as int,
                )),
            ],
            ", "@,
        ) + ")"@,
{
    let p = seq![
        "api-ttl "@ + diff_text(t.api),
        "api-idle "@ + diff_text(t.api_idle),
        "jobs "@ + diff_text(t.jobs),
        "ratelimit "@ + diff_text(t.ratelimit),
        "candidates "@ + diff_text(t.candidates),
        "revoked "@ + diff_text(t.revoked),
    ];
    assert(p.take(1) =~= seq![p[0]]);
    assert(p.take(6) =~= p);
    assert(" entries (api-ttl "@ == " entries ("@ + "api-ttl "@) by {
        reveal_strlit(" entries (");
        reveal_strlit("api-ttl ");
        reveal_strlit(" entries (api-ttl ");
    }
    assert(", api-idle "@ == ", "@ + "api-idle "@) by {
        reveal_strlit(", ");
        reveal_strlit("api-idle ");
        reveal_strlit(", api-idle ");
    }
    assert(", jobs "@ == ", "@ + "jobs "@) by {
        reveal_strlit(", ");
        reveal_strlit("jobs ");
        reveal_strlit(", jobs ");
    }
    assert(", ratelimit "@ == ", "@ + "ratelimit "@) by {
        reveal_strlit(", ");
        reveal_strlit("ratelimit ");
        reveal_strlit(", ratelimit ");
    }
    assert(", candidates "@ == ", "@ + "candidates "@) by {
        reveal_strlit(", ");
        reveal_strlit("candidates ");
        reveal_strlit(", candidates ");
    }
    assert(", revoked "@ == ", "@ + "revoked "@) by {
        reveal_strlit(", ");
        reveal_strlit("revoked ");
        reveal_strlit(", revoked ");
    }
    let start = "[cache-pruner] dropped "@ + text::dec(t.dropped());
    let head = start + " entries ("@;
    assert(start + " entries (api-ttl "@ + diff_text(t.api) =~= head + p[0]);
    text::lemma_joined_take(p, ", "@, 1);
    text::lemma_joined_part(head, text::joined(p.take(1), ", "@), ", "@, "api-idle "@, ", api-idle "@, diff_text(t.api_idle));
    text::lemma_joined_take(p, ", "@, 2);
    text::lemma_joined_part(head, text::joined(p.take(2), ", "@), ", "@, "jobs "@, ", jobs "@, diff_text(t.jobs));
    text::lemma_joined_take(p, ", "@, 3);
    text::lemma_joined_part(head, text::joined(p.take(3), ", "@), ", "@, "ratelimit "@, ", ratelimit "@, diff_text(t.ratelimit));
    text::lemma_joined_take(p, ", "@, 4);
    text::lemma_joined_part(head, text::joined(p.take(4), ", "@), ", "@, "candidates "@, ", candidates "@, diff_text(t.candidates));
    text::lemma_joined_take(p, ", "@, 5);
    text::lemma_joined_part(head, text::joined(p.take(5), ", "@), ", "@, "revoked "@, ", revoked "@, diff_text(t.revoked));
}

} // verus!
