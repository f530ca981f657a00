//! The registry of account imports: one job per account.

use vstd::prelude::*;

use crate::clock;
use crate::clock::{after, millis_between};
use crate::models::Stamp;

verus! {

/// A finished step of a job. The duration travels as the bit pattern of its
/// floating-point value.
#[derive(Debug)]
pub struct JobPhaseRecord {
    pub name: String,
    pub elapsed_ms_bits: u64,
}

#[derive(Debug, Clone, Copy, PartialEq, Eq, Structural)]
pub enum ProcessJobPhase {
    Running,
    Done,
    Failed,
}

#[derive(Debug)]
pub struct ProcessJobState {
    pub account_id: i32,
    pub phase: ProcessJobPhase,
    pub pages_total: i32,
    pub pages_done: i32,
    pub error: Option<String>,
    pub started_at: Stamp,
    pub finished_at: Option<Stamp>,
    pub phases: Vec<JobPhaseRecord>,
    pub elapsed_ms: i64,
}

/// What became of an attempt to start a job: the job that started, or the one
/// that is running.
#[derive(Debug)]
pub enum BeginResult {
    Started(ProcessJobState),
    AlreadyRunning(ProcessJobState),
}

/// The jobs, at most one for each account.
pub struct JobRegistry {
    pub jobs: Vec<ProcessJobState>,
}

/// No account occurs twice.
pub open spec fn one_per_account(s: Seq<ProcessJobState>) -> bool {
    forall|i: int, j: int|
        0 <= i < j < s.len() ==> (#[trigger] s[i]).account_id != (#[trigger] s[j]).account_id
}

pub open spec fn has_job(s: Seq<ProcessJobState>, account_id: i32) -> bool {
    exists|i: int| 0 <= i < s.len() && (#[trigger] s[i]).account_id == account_id
}

/// The job of an account.
pub open spec fn job_of(s: Seq<ProcessJobState>, account_id: i32) -> Option<ProcessJobState> {
    if has_job(s, account_id) {
        Some(s[choose|i: int| 0 <= i < s.len() && (#[trigger] s[i]).account_id == account_id])
    } else {
        None
    }
}

proof fn lemma_job_at(s: Seq<ProcessJobState>, i: int)
    requires
        one_per_account(s),
        0 <= i < s.len(),
    ensures
        job_of(s, s[i].account_id) == Some(s[i]),
{
    assert(s[i].account_id == s[i].account_id);
    let j = choose|j: int| 0 <= j < s.len() && (#[trigger] s[j]).account_id == s[i].account_id;
    if j < i {
        assert(s[j].account_id != s[i].account_id);
    }
    if i < j {
        assert(s[i].account_id != s[j].account_id);
    }
}

proof fn lemma_job_witness(s: Seq<ProcessJobState>, account_id: i32) -> (i: int)
    requires
        has_job(s, account_id),
    ensures
        0 <= i < s.len(),
        s[i].account_id == account_id,
        job_of(s, account_id) == Some(s[i]),
{
    choose|i: int| 0 <= i < s.len() && (#[trigger] s[i]).account_id == account_id
}

/// Changing one job in place changes that account's job and no other.
proof fn lemma_job_update(a: Seq<ProcessJobState>, b: Seq<ProcessJobState>, i: int)
    requires
        one_per_account(a),
        0 <= i < a.len(),
        b.len() == a.len(),
        b[i].account_id == a[i].account_id,
        forall|k: int| 0 <= k < a.len() && k != i ==> #[trigger] b[k] == a[k],
    ensures
        one_per_account(b),
        job_of(b, a[i].account_id) == Some(b[i]),
        forall|id: i32| id != a[i].account_id ==> #[trigger] job_of(b, id) == job_of(a, id),
{
    assert forall|x: int, y: int| 0 <= x < y < b.len() implies (#[trigger] b[x]).account_id != (
    #[trigger] b[y]).account_id by {
        assert(b[x].account_id == a[x].account_id);
        assert(b[y].account_id == a[y].account_id);
    }
    lemma_job_at(b, i);
    assert forall|id: i32| id != a[i].account_id implies #[trigger] job_of(b, id) == job_of(
        a,
        id,
    ) by {
        if has_job(a, id) {
            let k = lemma_job_witness(a, id);
            assert(b[k] == a[k]);
            lemma_job_at(b, k);
        } else if has_job(b, id) {
            let k = lemma_job_witness(b, id);
            assert(a[k].account_id == id);
        }
    }
}

proof fn lemma_job_push(s: Seq<ProcessJobState>, e: ProcessJobState)
    requires
        one_per_account(s),
        !has_job(s, e.account_id),
    ensures
        one_per_account(s.push(e)),
        job_of(s.push(e), e.account_id) == Some(e),
        forall|id: i32| id != e.account_id ==> #[trigger] job_of(s.push(e), id) == job_of(s, id),
{
    let t = s.push(e);
    assert forall|a: int, b: int| 0 <= a < b < t.len() implies (#[trigger] t[a]).account_id != (
    #[trigger] t[b]).account_id by {
        assert(t[a] == s[a]);
        assert(s[a].account_id == t[a].account_id);
        if b < s.len() {
            assert(t[b] == s[b]);
        }
    }
    assert(t[s.len() as int] == e);
    lemma_job_at(t, s.len() as int);
    assert forall|id: i32| id != e.account_id implies #[trigger] job_of(t, id) == job_of(s, id) by {
        if has_job(s, id) {
            let j = lemma_job_witness(s, id);
            assert(t[j] == s[j]);
            lemma_job_at(t, j);
        } else if has_job(t, id) {
            let k = lemma_job_witness(t, id);
            assert(s[k].account_id == id);
        }
    }
}

proof fn lemma_job_remove(s: Seq<ProcessJobState>, i: int)
    requires
        one_per_account(s),
        0 <= i < s.len(),
    ensures
        one_per_account(s.remove(i)),
        job_of(s.remove(i), s[i].account_id) is None,
        forall|id: i32| id != s[i].account_id ==> #[trigger] job_of(s.remove(i), id) == job_of(
            s,
            id,
        ),
{
    let t = s.remove(i);
    assert forall|a: int, b: int| 0 <= a < b < t.len() implies (#[trigger] t[a]).account_id != (
    #[trigger] t[b]).account_id by {
        assert(t[a] == s[if a < i { a } else { a + 1 }]);
        assert(t[b] == s[if b < i { b } else { b + 1 }]);
    }
    assert forall|id: i32| id != s[i].account_id implies #[trigger] job_of(t, id) == job_of(
        s,
        id,
    ) by {
        if has_job(s, id) {
            let j = lemma_job_witness(s, id);
            let k = if j < i {
                j
            } else {
                j - 1
            };
            assert(t[k] == s[j]);
            lemma_job_at(t, k);
        } else if has_job(t, id) {
            let k = lemma_job_witness(t, id);
            assert(s[if k < i { k } else { k + 1 }].account_id == id);
        }
    }
    if has_job(t, s[i].account_id) {
        let k = lemma_job_witness(t, s[i].account_id);
        assert(s[if k < i { k } else { k + 1 }].account_id == s[i].account_id);
    }
}

/// A job that has just started.
pub open spec fn is_fresh(j: ProcessJobState, account_id: i32, now: Stamp) -> bool {
    &&& j.account_id == account_id
    &&& j.phase == ProcessJobPhase::Running
    &&& j.pages_total == 0
    &&& j.pages_done == 0
    &&& j.error is None
    &&& j.started_at == now
    &&& j.finished_at is None
    &&& j.phases@.len() == 0
    &&& j.elapsed_ms == 0
}

/// Whether a prune keeps a job: a running one until it times out, a finished one
/// until its retention is over, one without a finish time for good.
pub open spec fn survives(j: ProcessJobState, cutoff: Stamp, running_cutoff: Stamp) -> bool {
    if j.phase == ProcessJobPhase::Running {
        clock::is_after(j.started_at, running_cutoff)
    } else {
        match j.finished_at {
            None => true,
            Some(f) => clock::is_after(f, cutoff),
        }
    }
}

/// `now` moved back by a number of seconds.
pub open spec fn back(now: Stamp, secs: int) -> Stamp {
    Stamp { secs: (now.secs - secs) as i64, nanos: now.nanos }
}

/// The larger of two settings.
pub open spec fn at_least(x: i64, floor: i64) -> i64 {
    if x > floor {
        x
    } else {
        floor
    }
}

impl JobRegistry {
    pub open spec fn wf(&self) -> bool {
        one_per_account(self.jobs@)
    }

    pub open spec fn job(&self, account_id: i32) -> Option<ProcessJobState> {
        job_of(self.jobs@, account_id)
    }

    pub fn new() -> (r: JobRegistry)
        ensures
            r.wf(),
            forall|id: i32| (#[trigger] r.job(id)) is None,
    {
        JobRegistry { jobs: Vec::new() }
    }

    fn position(&self, account_id: i32) -> (r: Option<usize>)
        requires
            self.wf(),
        ensures
            match r {
                Some(i) => {
                    &&& i < self.jobs@.len()
                    &&& self.jobs@[i as int].account_id == account_id
                    &&& self.job(account_id) == Some(self.jobs@[i as int])
                },
                None => !has_job(self.jobs@, account_id),
            },
    {
        let mut i: usize = 0;
        while i < self.jobs.len()
            invariant
                self.wf(),
                i <= self.jobs.len(),
                forall|k: int| 0 <= k < i ==> (#[trigger] self.jobs@[k]).account_id != account_id,
            decreases self.jobs.len() - i,
        {
            if self.jobs[i].account_id == account_id {
                proof {
                    lemma_job_at(self.jobs@, i as int);
                }
                return Some(i);
            }
            i += 1;
        }
        None
    }
}

/// The job of an account.
pub fn get_state(r: &JobRegistry, account_id: i32) -> (s: Option<&ProcessJobState>)
    requires
        r.wf(),
    ensures
        match s {
            Some(j) => r.job(account_id) == Some(*j),
            None => r.job(account_id) is None,
        },
{
    match r.position(account_id) {
        Some(i) => Some(&r.jobs[i]),
        None => None,
    }
}

/// Whether any job is running.
pub fn any_running(r: &JobRegistry) -> (b: bool)
    requires
        r.wf(),
    ensures
        b == exists|id: i32|
            (#[trigger] r.job(id)) is Some && r.job(id)->0.phase == ProcessJobPhase::Running,
{
    let mut i: usize = 0;
    while i < r.jobs.len()
        invariant
            r.wf(),
            i <= r.jobs.len(),
            forall|k: int|
                0 <= k < i ==> (#[trigger] r.jobs@[k]).phase != ProcessJobPhase::Running,
        decreases r.jobs.len() - i,
    {
        if r.jobs[i].phase == ProcessJobPhase::Running {
            proof {
                lemma_job_at(r.jobs@, i as int);
                assert(r.job(r.jobs@[i as int].account_id) is Some);
            }
            return true;
        }
        i += 1;
    }
    proof {
        assert forall|id: i32| (#[trigger] r.job(id)) is Some implies r.job(id)->0.phase
            != ProcessJobPhase::Running by {
            let k = lemma_job_witness(r.jobs@, id);
            assert(r.jobs@[k].phase != ProcessJobPhase::Running);
        }
    }
    false
}

/// Both errors are absent or read alike.
pub open spec fn same_error(a: Option<String>, b: Option<String>) -> bool {
    match (a, b) {
        (Some(x), Some(y)) => x@ == y@,
        (None, None) => true,
        _ => false,
    }
}

/// The steps of two jobs read alike.
pub open spec fn same_phases(a: Seq<JobPhaseRecord>, b: Seq<JobPhaseRecord>) -> bool {
    &&& a.len() == b.len()
    &&& forall|i: int|
        0 <= i < a.len() ==> (#[trigger] a[i]).name@ == b[i].name@ && a[i].elapsed_ms_bits
            == b[i].elapsed_ms_bits
}

/// `b` is a copy of `a`.
pub open spec fn same_job(a: ProcessJobState, b: ProcessJobState) -> bool {
    &&& b.account_id == a.account_id
    &&& b.phase == a.phase
    &&& b.pages_total == a.pages_total
    &&& b.pages_done == a.pages_done
    &&& same_error(a.error, b.error)
    &&& b.started_at == a.started_at
    &&& b.finished_at == a.finished_at
    &&& same_phases(a.phases@, b.phases@)
    &&& b.elapsed_ms == a.elapsed_ms
}

fn copy_job(s: &ProcessJobState) -> (r: ProcessJobState)
    ensures
        same_job(*s, r),
{
    let mut phases: Vec<JobPhaseRecord> = Vec::new();
    let mut i: usize = 0;
    while i < s.phases.len()
        invariant
            i <= s.phases.len(),
            phases@.len() == i,
            forall|k: int|
                0 <= k < i ==> (#[trigger] s.phases@[k]).name@ == phases@[k].name@
                    && s.phases@[k].elapsed_ms_bits == phases@[k].elapsed_ms_bits,
        decreases s.phases.len() - i,
    {
        phases.push(
            JobPhaseRecord {
                name: s.phases[i].name.clone(),
                elapsed_ms_bits: s.phases[i].elapsed_ms_bits,
            },
        );
        i += 1;
    }
    let error: Option<String> = match &s.error {
        Some(e) => Some(e.clone()),
        None => None,
    };
    ProcessJobState {
        account_id: s.account_id,
        phase: s.phase,
        pages_total: s.pages_total,
        pages_done: s.pages_done,
        error,
        started_at: s.started_at,
        finished_at: s.finished_at,
        phases,
        elapsed_ms: s.elapsed_ms,
    }
}

fn fresh_job(account_id: i32, now: Stamp) -> (r: ProcessJobState)
    ensures
        is_fresh(r, account_id, now),
{
    ProcessJobState {
        account_id,
        phase: ProcessJobPhase::Running,
        pages_total: 0,
        pages_done: 0,
        error: None,
        started_at: now,
        finished_at: None,
        phases: Vec::new(),
        elapsed_ms: 0,
    }
}

/// Whether a job is running for an account.
pub open spec fn is_running(r: JobRegistry, account_id: i32) -> bool {
    r.job(account_id) matches Some(j) && j.phase == ProcessJobPhase::Running
}

/// Starts a job for an account, unless one is running for it. A finished job
/// gives way to the new one.
pub fn try_begin(r: &mut JobRegistry, account_id: i32, now: Stamp) -> (b: BeginResult)
    requires
        old(r).wf(),
    ensures
        final(r).wf(),
        match b {
            BeginResult::AlreadyRunning(j) => {
                &&& is_running(*old(r), account_id)
                &&& same_job(old(r).job(account_id)->0, j)
                &&& *final(r) == *old(r)
            },
            BeginResult::Started(j) => {
                &&& !is_running(*old(r), account_id)
                &&& is_fresh(j, account_id, now)
                &&& final(r).job(account_id) is Some
                &&& is_fresh(final(r).job(account_id)->0, account_id, now)
            },
        },
        forall|id: i32| id != account_id ==> (#[trigger] final(r).job(id)) == old(r).job(id),
{
    let fresh = fresh_job(account_id, now);
    let ghost before = r.jobs@;
    match r.position(account_id) {
        Some(i) => {
            if r.jobs[i].phase == ProcessJobPhase::Running {
                return BeginResult::AlreadyRunning(copy_job(&r.jobs[i]));
            }
            r.jobs.set(i, fresh);
            proof {
                lemma_job_update(before, r.jobs@, i as int);
            }
        },
        None => {
            proof {
                lemma_job_push(before, fresh);
            }
            r.jobs.push(fresh);
        },
    }
    BeginResult::Started(fresh_job(account_id, now))
}

/// `b` is `a` but for its page counts.
pub open spec fn same_but_pages(a: ProcessJobState, b: ProcessJobState) -> bool {
    &&& b.account_id == a.account_id
    &&& b.phase == a.phase
    &&& b.error == a.error
    &&& b.started_at == a.started_at
    &&& b.finished_at == a.finished_at
    &&& b.phases == a.phases
    &&& b.elapsed_ms == a.elapsed_ms
}

/// Sets how many pages the job of an account has. Without a job nothing happens.
pub fn set_pages_total(r: &mut JobRegistry, account_id: i32, total: i32)
    requires
        old(r).wf(),
    ensures
        final(r).wf(),
        forall|id: i32| id != account_id ==> (#[trigger] final(r).job(id)) == old(r).job(id),
        match (old(r).job(account_id), final(r).job(account_id)) {
            (Some(a), Some(b)) => same_but_pages(a, b) && b.pages_total == total && b.pages_done
                == a.pages_done,
            (None, None) => true,
            _ => false,
        },
{
    let ghost before = r.jobs@;
    match r.position(account_id) {
        Some(i) => {
            r.jobs[i].pages_total = total;
            proof {
                lemma_job_update(before, r.jobs@, i as int);
            }
        },
        None => {},
    }
}

/// Counts a finished page of an account's job. Without a job nothing happens.
pub fn record_page_done(r: &mut JobRegistry, account_id: i32)
    requires
        old(r).wf(),
        old(r).job(account_id) is Some ==> old(r).job(account_id)->0.pages_done < i32::MAX,
    ensures
        final(r).wf(),
        forall|id: i32| id != account_id ==> (#[trigger] final(r).job(id)) == old(r).job(id),
        match (old(r).job(account_id), final(r).job(account_id)) {
            (Some(a), Some(b)) => same_but_pages(a, b) && b.pages_total == a.pages_total
                && b.pages_done == a.pages_done + 1,
            (None, None) => true,
            _ => false,
        },
{
    let ghost before = r.jobs@;
    match r.position(account_id) {
        Some(i) => {
            let n: i32 = r.jobs[i].pages_done;
            r.jobs[i].pages_done = n + 1;
            proof {
                lemma_job_update(before, r.jobs@, i as int);
            }
        },
        None => {},
    }
}

/// Drops the jobs whose time is over. The result counts the jobs before and
/// after. A negative retention counts as none, and a running job has at least a
/// minute.
pub fn prune_finished_jobs(
    r: &mut JobRegistry,
    now: Stamp,
    retain_secs: i64,
    running_timeout_secs: i64,
) -> (c: (usize, usize))
    requires
        old(r).wf(),
        now.secs - at_least(retain_secs, 0) >= i64::MIN,
        now.secs - at_least(running_timeout_secs, 60) >= i64::MIN,
    ensures
        final(r).wf(),
        c.0 == old(r).jobs@.len(),
        c.1 == final(r).jobs@.len(),
        c.1 <= c.0,
        forall|id: i32|
            (#[trigger] final(r).job(id)) == (match old(r).job(id) {
                Some(j) => if survives(
                    j,
                    back(now, at_least(retain_secs, 0) as int),
                    back(now, at_least(running_timeout_secs, 60) as int),
                ) {
                    Some(j)
                } else {
                    None
                },
                None => None,
            }),
{
    let keep: i64 = if retain_secs > 0 {
        retain_secs
    } else {
        0
    };
    let timeout: i64 = if running_timeout_secs > 60 {
        running_timeout_secs
    } else {
        60
    };
    let cutoff = Stamp { secs: now.secs - keep, nanos: now.nanos };
    let running_cutoff = Stamp { secs: now.secs - timeout, nanos: now.nanos };
    let count: usize = r.jobs.len();
    let ghost before = *r;
    let mut i: usize = 0;
    while i < r.jobs.len()
        invariant
            r.wf(),
            before.wf(),
            before == *old(r),
            i <= r.jobs.len(),
            r.jobs@.len() <= before.jobs@.len(),
            forall|m: int| 0 <= m < i ==> survives(#[trigger] r.jobs@[m], cutoff, running_cutoff),
            forall|id: i32|
                (#[trigger] r.job(id)) == before.job(id) || (r.job(id) is None && before.job(
                    id,
                ) is Some && !survives(before.job(id)->0, cutoff, running_cutoff)),
        decreases r.jobs.len() - i,
    {
        let keeps: bool = if r.jobs[i].phase == ProcessJobPhase::Running {
            after(r.jobs[i].started_at, running_cutoff)
        } else {
            match r.jobs[i].finished_at {
                None => true,
                Some(f) => after(f, cutoff),
            }
        };
        if keeps {
            i += 1;
        } else {
            let ghost cur = *r;
            proof {
                lemma_job_at(r.jobs@, i as int);
                lemma_job_remove(r.jobs@, i as int);
            }
            let _gone = r.jobs.remove(i);
            proof {
                assert forall|id: i32|
                    (#[trigger] r.job(id)) == before.job(id) || (r.job(id) is None && before.job(
                        id,
                    ) is Some && !survives(before.job(id)->0, cutoff, running_cutoff)) by {
                    assert(cur.job(id) == before.job(id) || cur.job(id) is None);
                }
            }
        }
    }
    proof {
        assert forall|id: i32|
            (#[trigger] r.job(id)) == (match before.job(id) {
                Some(j) => if survives(j, cutoff, running_cutoff) {
                    Some(j)
                } else {
                    None
                },
                None => None,
            }) by {
            if has_job(r.jobs@, id) {
                let m = lemma_job_witness(r.jobs@, id);
                assert(survives(r.jobs@[m], cutoff, running_cutoff));
            }
        }
    }
    (count, r.jobs.len())
}

/// `b` is `a` with one more finished step and the time since its start.
pub open spec fn with_phase(
    a: ProcessJobState,
    b: ProcessJobState,
    record: JobPhaseRecord,
    since_start: Option<i64>,
) -> bool {
    &&& b.account_id == a.account_id
    &&& b.phase == a.phase
    &&& b.pages_total == a.pages_total
    &&& b.pages_done == a.pages_done
    &&& b.error == a.error
    &&& b.started_at == a.started_at
    &&& b.finished_at == a.finished_at
    &&& b.phases@ == a.phases@.push(record)
    &&& b.elapsed_ms == (match since_start {
        Some(ms) => ms,
        None => a.elapsed_ms,
    })
}

/// Notes a finished step of a running job, given the milliseconds since its
/// start. Without a running job nothing happens.
pub fn note_phase(
    r: &mut JobRegistry,
    account_id: i32,
    record: JobPhaseRecord,
    since_start: Option<i64>,
)
    requires
        old(r).wf(),
    ensures
        final(r).wf(),
        forall|id: i32| id != account_id ==> (#[trigger] final(r).job(id)) == old(r).job(id),
        match old(r).job(account_id) {
            Some(a) => if a.phase == ProcessJobPhase::Running {
                final(r).job(account_id) is Some && with_phase(
                    a,
                    final(r).job(account_id)->0,
                    record,
                    since_start,
                )
            } else {
                final(r).job(account_id) == Some(a)
            },
            None => final(r).job(account_id) is None,
        },
{
    let ghost before = r.jobs@;
    match r.position(account_id) {
        Some(i) => {
            if r.jobs[i].phase == ProcessJobPhase::Running {
                r.jobs[i].phases.push(record);
                match since_start {
                    Some(ms) => {
                        r.jobs[i].elapsed_ms = ms;
                    },
                    None => {},
                }
                proof {
                    lemma_job_update(before, r.jobs@, i as int);
                }
            }
        },
        None => {},
    }
}

/// Notes a finished step of a running job.
pub fn record_phase(
    r: &mut JobRegistry,
    account_id: i32,
    name: String,
    elapsed_ms_bits: u64,
    now: Stamp,
)
    requires
        old(r).wf(),
    ensures
        final(r).wf(),
        forall|id: i32| id != account_id ==> (#[trigger] final(r).job(id)) == old(r).job(id),
        match old(r).job(account_id) {
            Some(a) => if a.phase == ProcessJobPhase::Running {
                final(r).job(account_id) is Some && with_phase(
                    a,
                    final(r).job(account_id)->0,
                    JobPhaseRecord { name, elapsed_ms_bits },
                    clock::millis_apart(
                        now.secs,
                        now.nanos,
                        a.started_at.secs,
                        a.started_at.nanos,
                    ),
                )
            } else {
                final(r).job(account_id) == Some(a)
            },
            None => final(r).job(account_id) is None,
        },
{
    let since: Option<i64> = match r.position(account_id) {
        Some(i) => millis_between(now, r.jobs[i].started_at),
        None => None,
    };
    note_phase(r, account_id, JobPhaseRecord { name, elapsed_ms_bits }, since);
}

/// Ends the job of an account. Without a job nothing happens.
pub fn finish(r: &mut JobRegistry, account_id: i32, result: Result<(), String>, now: Stamp)
    requires
        old(r).wf(),
    ensures
        final(r).wf(),
        forall|id: i32| id != account_id ==> (#[trigger] final(r).job(id)) == old(r).job(id),
        match (old(r).job(account_id), final(r).job(account_id)) {
            (Some(a), Some(b)) => {
                &&& b.account_id == a.account_id
                &&& b.pages_total == a.pages_total
                &&& b.pages_done == a.pages_done
                &&& b.started_at == a.started_at
                &&& b.phases == a.phases
                &&& b.elapsed_ms == a.elapsed_ms
                &&& b.finished_at == Some(now)
                &&& match result {
                    Ok(_) => b.phase == ProcessJobPhase::Done && b.error is None,
                    Err(e) => b.phase == ProcessJobPhase::Failed && b.error == Some(e),
                }
            },
            (None, None) => true,
            _ => false,
        },
{
    let ghost before = r.jobs@;
    match r.position(account_id) {
        Some(i) => {
            match result {
                Ok(_) => {
                    r.jobs[i].phase = ProcessJobPhase::Done;
                    r.jobs[i].error = None;
                },
                Err(e) => {
                    r.jobs[i].phase = ProcessJobPhase::Failed;
                    r.jobs[i].error = Some(e);
                },
            }
            r.jobs[i].finished_at = Some(now);
            proof {
                lemma_job_update(before, r.jobs@, i as int);
            }
        },
        None => {},
    }
}

/// A running job is kept for as long as it may run, and a finished one for as long
/// as it is retained, counted from its start and from its end; one without an end
/// stays.
pub proof fn law_jobs_are_kept_for_their_time(
    j: ProcessJobState,
    now: Stamp,
    retain_secs: int,
    running_secs: int,
)
    requires
        clock::is_plain(now.secs, now.nanos),
        0 <= retain_secs <= 1_000_000_000_000,
        0 <= running_secs <= 1_000_000_000_000,
        j.started_at.nanos < 1_000_000_000,
        j.finished_at is Some ==> j.finished_at->0.nanos < 1_000_000_000,
    ensures
        ({
            let kept = survives(j, back(now, retain_secs), back(now, running_secs));
            let started = (j.started_at.secs, j.started_at.nanos);
            let at = (now.secs, now.nanos);
            &&& j.phase == ProcessJobPhase::Running ==> (kept <==> clock::nanos_apart(at, started)
                < running_secs * 1_000_000_000)
            &&& j.phase != ProcessJobPhase::Running && j.finished_at is None ==> kept
            &&& j.phase != ProcessJobPhase::Running && j.finished_at is Some ==> (kept
                <==> clock::nanos_apart(
                at,
                (j.finished_at->0.secs, j.finished_at->0.nanos),
            ) < retain_secs * 1_000_000_000)
        }),
{
    clock::law_after(j.started_at, back(now, running_secs));
    if j.finished_at is Some {
        clock::law_after(j.finished_at->0, back(now, retain_secs));
    }
}

/// The larger of a setting and its floor.
pub proof fn law_floors(x: i64, floor: i64)
    ensures
        at_least(x, floor) >= floor,
        at_least(x, floor) >= x,
        at_least(x, floor) == x || at_least(x, floor) == floor,
{
}

/// A finished step stands behind those before it, and nothing else of the job
/// changes but its time.
pub proof fn law_steps_are_kept(
    a: ProcessJobState,
    b: ProcessJobState,
    record: JobPhaseRecord,
    since_start: Option<i64>,
)
    requires
        with_phase(a, b, record, since_start),
    ensures
        b.phases@.len() == a.phases@.len() + 1,
        b.phases@.last() == record,
        forall|i: int| 0 <= i < a.phases@.len() ==> b.phases@[i] == a.phases@[i],
        b.account_id == a.account_id && b.pages_total == a.pages_total && b.pages_done
            == a.pages_done,
        since_start is Some ==> b.elapsed_ms == since_start->0,
        since_start is None ==> b.elapsed_ms == a.elapsed_ms,
{
}

} // verus!
