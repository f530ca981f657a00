//! The integer side of the ranking metrics: hit counts, first hits, progress
//! cadence, pool size and the resampling stream.

use vstd::prelude::*;

use crate::calibrate::cache::RankedPost;

verus! {

/// How many of the first `k` ranked posts are positives.
pub open spec fn hits(ranked: Seq<RankedPost>, k: int) -> int
    decreases k,
{
    if k <= 0 || ranked.len() == 0 {
        0
    } else if k > ranked.len() {
        hits(ranked, ranked.len() as int)
    } else {
        hits(ranked, k - 1) + if ranked[k - 1].is_positive {
            1int
        } else {
            0int
        }
    }
}

/// How many of the first `k` ranked posts are positives.
pub fn hits_at_k(ranked: &Vec<RankedPost>, k: usize) -> (r: usize)
    ensures
        r == hits(ranked@, k as int),
        r <= ranked.len(),
        r <= k,
{
    let end: usize = if k < ranked.len() {
        k
    } else {
        ranked.len()
    };
    let mut i: usize = 0;
    let mut n: usize = 0;
    while i < end
        invariant
            i <= end <= ranked.len(),
            n == hits(ranked@, i as int),
            n <= i,
        decreases end - i,
    {
        if ranked[i].is_positive {
            n += 1;
        }
        i += 1;
    }
    n
}

/// The position of the first positive, if there is one.
pub fn first_hit(ranked: &Vec<RankedPost>) -> (r: Option<usize>)
    ensures
        match r {
            Some(i) => {
                &&& i < ranked.len()
                &&& ranked@[i as int].is_positive
                &&& forall|k: int| 0 <= k < i ==> !(#[trigger] ranked@[k]).is_positive
            },
            None => forall|k: int| 0 <= k < ranked.len() ==> !(#[trigger] ranked@[k]).is_positive,
        },
{
    let mut i: usize = 0;
    while i < ranked.len()
        invariant
            i <= ranked.len(),
            forall|k: int| 0 <= k < i ==> !(#[trigger] ranked@[k]).is_positive,
        decreases ranked.len() - i,
    {
        if ranked[i].is_positive {
            return Some(i);
        }
        i += 1;
    }
    None
}

/// Size of the scoring pool: half the cores by default, never more than the
/// cores, at least one.
pub fn pool_threads(cores: usize, configured: usize) -> (r: usize)
    ensures
        r >= 1,
        configured == 0 ==> r == (if cores / 2 > 1 {
            cores / 2
        } else {
            1
        }),
        configured > 0 && cores > 0 ==> r == (if configured < cores {
            configured
        } else {
            cores
        }),
        configured > 0 && cores == 0 ==> r == 1,
{
    let n: usize = if configured == 0 {
        cores / 2
    } else if configured < cores {
        configured
    } else {
        cores
    };
    if n > 1 {
        n
    } else {
        1
    }
}

/// How many items pass between two progress lines.
pub fn report_every(total: usize, parts: usize, floor: usize) -> (r: usize)
    requires
        parts > 0,
    ensures
        r == (if total / parts > floor {
            total / parts
        } else {
            floor
        }),
{
    let n: usize = total / parts;
    if n > floor {
        n
    } else {
        floor
    }
}

/// Whether a progress line is due after `done` of `total` items.
pub fn progress_due(done: usize, total: usize, every: usize) -> (r: bool)
    requires
        every > 0,
    ensures
        r == (done % every == 0 || done == total),
{
    done % every == 0 || done == total
}

/// The start of the resampling stream.
pub const RESAMPLE_SEED: u64 = 0x9E37_79B9_7F4A_7C15;

/// The state after `s` in the resampling stream.
pub open spec fn lcg(s: u64) -> u64 {
    s.wrapping_mul(6364136223846793005u64).wrapping_add(1442695040888963407u64)
}

/// The stream state `n` draws after `s`.
pub open spec fn lcg_after(s: u64, n: nat) -> u64
    decreases n,
{
    if n == 0 {
        s
    } else {
        lcg(lcg_after(s, (n - 1) as nat))
    }
}

/// One bootstrap resample of `n` values: `n` positions drawn with replacement,
/// and the state from which the next resample goes on.
pub fn resample_positions(state: u64, n: usize) -> (r: (Vec<usize>, u64))
    requires
        n > 0,
    ensures
        r.0@.len() == n,
        forall|i: int|
            0 <= i < n ==> #[trigger] r.0@[i] == (lcg_after(state, (i + 1) as nat) >> 33) % (
            n as u64),
        forall|i: int| 0 <= i < n ==> (#[trigger] r.0@[i]) < n,
        r.1 == lcg_after(state, n as nat),
{
    let mut out: Vec<usize> = Vec::new();
    let mut s: u64 = state;
    let mut i: usize = 0;
    while i < n
        invariant
            n > 0,
            i <= n,
            out@.len() == i,
            s == lcg_after(state, i as nat),
            forall|k: int|
                0 <= k < i ==> #[trigger] out@[k] == (lcg_after(state, (k + 1) as nat) >> 33) % (
                n as u64),
            forall|k: int| 0 <= k < i ==> (#[trigger] out@[k]) < n,
        decreases n - i,
    {
        s = s.wrapping_mul(6364136223846793005u64).wrapping_add(1442695040888963407u64);
        let idx: u64 = (s >> 33) % (n as u64);
        out.push(idx as usize);
        i += 1;
    }
    (out, s)
}

/// The hits among the first posts are as many as there are positives among them.
pub proof fn law_hits_are_positives(ranked: Seq<RankedPost>, k: int)
    requires
        0 <= k <= ranked.len(),
    ensures
        hits(ranked, k) == ranked.take(k).filter(|p: RankedPost| p.is_positive).len(),
        forall|j: int| j >= ranked.len() ==> #[trigger] hits(ranked, j) == hits(
            ranked,
            ranked.len() as int,
        ),
    decreases k,
{
    reveal(Seq::filter);
    if k > 0 {
        law_hits_are_positives(ranked, k - 1);
        assert(ranked.take(k).drop_last() =~= ranked.take(k - 1));
        assert(ranked.take(k).last() == ranked[k - 1]);
    }
}

/// A resample goes on where the one before it ended: drawing twice is drawing once
/// for as long.
pub proof fn law_resamples_go_on(state: u64, n: nat, m: nat)
    ensures
        lcg_after(lcg_after(state, n), m) == lcg_after(state, n + m),
        lcg_after(state, 0) == state,
    decreases m,
{
    if m > 0 {
        law_resamples_go_on(state, n, (m - 1) as nat);
    }
}

} // verus!
