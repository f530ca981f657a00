//! Train/test splits and negative sampling. Every draw comes from a seeded
//! xorshift stream, so a run is a function of its inputs.

use std::collections::HashSet;

use vstd::prelude::*;

use crate::calibrate::options::SplitStrategy;
use crate::order::{sort_ints, sorted_ids};
use crate::order;
use crate::tally;

verus! {

/// Seed of the negative samplers.
pub const NEG_SAMPLE_SEED: u64 = 0xE621_CA118;

/// Seed of the random hold-out.
pub const SPLIT_SEED: u64 = 0xE621_5917;

/// Multiplier that spreads account ids over the seed space.
pub const ACCOUNT_SPREAD: u64 = 0x9E37_79B9_7F4A_7C15;

/// Half width of the age window around a held-out post: thirty days.
pub const WINDOW_SECS: i64 = 2_592_000;

// ---------------------------------------------------------------------------
// The random stream
// ---------------------------------------------------------------------------

/// The state after `r` in the xorshift stream.
pub open spec fn xorshift(r: u64) -> u64 {
    let a = r ^ (r << 13);
    let b = a ^ (a >> 7);
    b ^ (b << 17)
}

/// Steps the stream.
pub fn next_random(r: u64) -> (n: u64)
    ensures
        n == xorshift(r),
{
    let a: u64 = r ^ (r << 13);
    let b: u64 = a ^ (a >> 7);
    b ^ (b << 17)
}

/// The position that state `r` selects among `n`.
pub open spec fn slot(r: u64, n: int) -> int {
    (r as usize) as int % n
}

fn slot_of(r: u64, n: usize) -> (i: usize)
    requires
        n > 0,
    ensures
        i == slot(r, n as int),
        i < n,
{
    #[verifier::truncate]
    let wide: usize = r as usize;
    wide % n
}

/// The seed of an account's own stream.
pub open spec fn account_seed(seed: u64, account_id: i32) -> u64 {
    seed ^ (account_id as u64).wrapping_mul(ACCOUNT_SPREAD)
}

pub fn seed_for_account(seed: u64, account_id: i32) -> (r: u64)
    ensures
        r == account_seed(seed, account_id),
{
    #[verifier::truncate]
    let wide: u64 = account_id as u64;
    seed ^ wide.wrapping_mul(ACCOUNT_SPREAD)
}

/// How many draws a pass may make: `factor` per wanted id, at least `floor`.
pub open spec fn try_budget(target: int, factor: int, floor: int) -> int {
    let m = if target * factor > usize::MAX {
        usize::MAX as int
    } else {
        target * factor
    };
    if m > floor {
        m
    } else {
        floor
    }
}

fn tries_for(target: usize, factor: usize, floor: usize) -> (r: usize)
    ensures
        r == try_budget(target as int, factor as int, floor as int),
{
    let m: usize = match target.checked_mul(factor) {
        Some(x) => x,
        None => usize::MAX,
    };
    if m > floor {
        m
    } else {
        floor
    }
}

/// What a sampling pass leaves behind: the ids taken so far (excluded ones
/// among them), the ids sampled, and the state of the stream.
pub struct Draw {
    pub taken: Set<i64>,
    pub out: Seq<i64>,
    pub rng: u64,
}

impl Draw {
    /// Takes `id` unless it is taken already.
    pub open spec fn offer(self, id: i64, rng: u64) -> Draw {
        if self.taken.contains(id) {
            Draw { taken: self.taken, out: self.out, rng }
        } else {
            Draw { taken: self.taken.insert(id), out: self.out.push(id), rng }
        }
    }
}

/// One uniform draw from the catalog.
pub open spec fn uniform_step(ids: Seq<i64>, d: Draw) -> Draw {
    let r = xorshift(d.rng);
    d.offer(ids[slot(r, ids.len() as int)], r)
}

/// Uniform draws until `target` ids are sampled or `tries` draws are spent.
pub open spec fn uniform_pass(ids: Seq<i64>, d: Draw, target: int, tries: nat) -> Draw
    decreases tries,
{
    if d.out.len() < target && tries > 0 {
        uniform_pass(ids, uniform_step(ids, d), target, (tries - 1) as nat)
    } else {
        d
    }
}

/// What holds of a sampling pass that starts at `a` and ends at `b`: it only
/// adds, what it adds was not taken, comes from `ids`, and occurs once.
pub open spec fn extends_draw(a: Draw, b: Draw, ids: Seq<i64>) -> bool {
    &&& a.out.len() <= b.out.len()
    &&& b.out.take(a.out.len() as int) == a.out
    &&& forall|x: i64| a.taken.contains(x) ==> b.taken.contains(x)
    &&& forall|i: int|
        a.out.len() <= i < b.out.len() ==> ids.contains(#[trigger] b.out[i]) && !a.taken.contains(
            b.out[i],
        ) && b.taken.contains(b.out[i])
    &&& forall|i: int, j: int|
        a.out.len() <= i < j < b.out.len() ==> #[trigger] b.out[i] != #[trigger] b.out[j]
    &&& forall|x: i64|
        b.taken.contains(x) && !a.taken.contains(x) ==> b.out.skip(a.out.len() as int).contains(x)
}

proof fn lemma_extends_refl(a: Draw, ids: Seq<i64>)
    ensures
        extends_draw(a, a, ids),
{
    assert(a.out.take(a.out.len() as int) =~= a.out);
}

proof fn lemma_extends_offer(d: Draw, id: i64, rng: u64, ids: Seq<i64>)
    requires
        ids.contains(id),
    ensures
        extends_draw(d, d.offer(id, rng), ids),
{
    let e = d.offer(id, rng);
    assert(e.out.take(d.out.len() as int) =~= d.out);
    if !d.taken.contains(id) {
        assert(e.out.skip(d.out.len() as int)[0] == id);
    }
}

proof fn lemma_extends_trans(a: Draw, b: Draw, c: Draw, ids: Seq<i64>)
    requires
        extends_draw(a, b, ids),
        extends_draw(b, c, ids),
    ensures
        extends_draw(a, c, ids),
{
    assert(c.out.take(a.out.len() as int) =~= a.out) by {
        assert(c.out.take(b.out.len() as int).take(a.out.len() as int) =~= c.out.take(
            a.out.len() as int,
        ));
    }
    assert forall|i: int| 0 <= i < b.out.len() implies b.out[i] == c.out[i] by {
        assert(c.out.take(b.out.len() as int)[i] == c.out[i]);
    }
    assert forall|i: int| a.out.len() <= i < c.out.len() implies ids.contains(#[trigger] c.out[i])
        && !a.taken.contains(c.out[i]) && c.taken.contains(c.out[i]) by {
        if i < b.out.len() {
            assert(b.out[i] == c.out[i]);
        }
    }
    assert forall|i: int, j: int| a.out.len() <= i < j < c.out.len() implies #[trigger] c.out[i]
        != #[trigger] c.out[j] by {
        if i < b.out.len() {
            assert(b.out[i] == c.out[i]);
            if j < b.out.len() {
                assert(b.out[j] == c.out[j]);
            }
        }
    }
    assert forall|x: i64| c.taken.contains(x) && !a.taken.contains(x) implies c.out.skip(
        a.out.len() as int,
    ).contains(x) by {
        if b.taken.contains(x) {
            let s = b.out.skip(a.out.len() as int);
            let i = choose|i: int| 0 <= i < s.len() && s[i] == x;
            assert(c.out.skip(a.out.len() as int)[i] == x);
        } else {
            let s = c.out.skip(b.out.len() as int);
            let i = choose|i: int| 0 <= i < s.len() && s[i] == x;
            assert(c.out.skip(a.out.len() as int)[i + b.out.len() - a.out.len()] == x);
        }
    }
}

/// A uniform pass keeps to the catalog, skips what is taken and stops at its target.
pub proof fn lemma_uniform_pass(ids: Seq<i64>, d: Draw, target: int, tries: nat)
    requires
        ids.len() > 0,
    ensures
        extends_draw(d, uniform_pass(ids, d, target, tries), ids),
        uniform_pass(ids, d, target, tries).out.len() <= target || uniform_pass(
            ids,
            d,
            target,
            tries,
        ).out.len() == d.out.len(),
    decreases tries,
{
    lemma_extends_refl(d, ids);
    if d.out.len() < target && tries > 0 {
        let r = xorshift(d.rng);
        let e = uniform_step(ids, d);
        lemma_extends_offer(d, ids[slot(r, ids.len() as int)], r, ids);
        lemma_uniform_pass(ids, e, target, (tries - 1) as nat);
        lemma_extends_trans(d, e, uniform_pass(ids, e, target, (tries - 1) as nat), ids);
    }
}

/// Runs a uniform pass on `scratch`, `out` and `rng`.
fn run_uniform(
    ids: &Vec<i64>,
    scratch: &mut HashSet<i64>,
    out: &mut Vec<i64>,
    rng: u64,
    target: usize,
    max_tries: usize,
) -> (end: u64)
    requires
        ids.len() > 0,
    ensures
        ({
            let d = Draw { taken: old(scratch)@, out: old(out)@, rng };
            let e = uniform_pass(ids@, d, target as int, max_tries as nat);
            final(scratch)@ == e.taken && final(out)@ == e.out && end == e.rng
        }),
{
    broadcast use vstd::std_specs::hash::group_hash_axioms;

    let ghost d = Draw { taken: scratch@, out: out@, rng };
    let ghost goal = uniform_pass(ids@, d, target as int, max_tries as nat);
    let mut state: u64 = rng;
    let mut tries: usize = 0;
    while out.len() < target && tries < max_tries
        invariant
            ids.len() > 0,
            tries <= max_tries,
            goal == uniform_pass(
                ids@,
                (Draw { taken: scratch@, out: out@, rng: state }),
                target as int,
                (max_tries - tries) as nat,
            ),
        decreases max_tries - tries,
    {
        broadcast use vstd::std_specs::hash::group_hash_axioms;

        let ghost cur = Draw { taken: scratch@, out: out@, rng: state };
        state = next_random(state);
        let idx: usize = slot_of(state, ids.len());
        let id: i64 = ids[idx];
        if scratch.insert(id) {
            out.push(id);
        }
        proof {
            let nxt = Draw { taken: scratch@, out: out@, rng: state };
            assert(nxt.taken =~= uniform_step(ids@, cur).taken);
            assert(nxt == uniform_step(ids@, cur));
        }
        tries += 1;
    }
    state
}

/// Puts every id of `v` into `set`.
fn add_all(set: &mut HashSet<i64>, v: &Vec<i64>)
    ensures
        final(set)@ == old(set)@.union(v@.to_set()),
{
    broadcast use vstd::std_specs::hash::group_hash_axioms;

    let mut i: usize = 0;
    let ghost start = set@;
    proof {
        assert(start.union(v@.take(0).to_set()) =~= start);
    }
    while i < v.len()
        invariant
            i <= v.len(),
            set@ == start.union(v@.take(i as int).to_set()),
        decreases v.len() - i,
    {
        broadcast use vstd::std_specs::hash::group_hash_axioms;

        set.insert(v[i]);
        proof {
            let t = v@.take(i + 1);
            assert(t =~= v@.take(i as int).push(v@[i as int]));
            assert(t.to_set() =~= v@.take(i as int).to_set().insert(v@[i as int])) by {
                assert forall|x: i64| #[trigger] t.to_set().contains(x) <==> v@.take(
                    i as int,
                ).to_set().insert(v@[i as int]).contains(x) by {
                    if v@.take(i as int).contains(x) {
                        let k = choose|k: int| 0 <= k < i && v@.take(i as int)[k] == x;
                        assert(t[k] == x);
                    }
                    assert(t[i as int] == v@[i as int]);
                }
            }
            assert(set@ =~= start.union(t.to_set()));
        }
        i += 1;
    }
    proof {
        assert(v@.take(v@.len() as int) =~= v@);
    }
}

/// The empty pass over the excluded ids.
pub open spec fn fresh_draw(excluded: Seq<i64>, seed: u64) -> Draw {
    Draw { taken: excluded.to_set(), out: Seq::empty(), rng: seed }
}

/// The outcome of `sample_negatives_uniform`.
pub open spec fn uniform_sample(catalog: Seq<i64>, excluded: Seq<i64>, target: int) -> Draw {
    let d = fresh_draw(excluded, NEG_SAMPLE_SEED);
    if catalog.len() == 0 {
        d
    } else {
        uniform_pass(catalog, d, target, try_budget(target, 10, 100) as nat)
    }
}

/// Uniform random sampling without replacement. `scratch` tracks what is
/// excluded or chosen.
pub fn sample_negatives_uniform(
    catalog: &Vec<i64>,
    excluded: &Vec<i64>,
    target: usize,
    scratch: &mut HashSet<i64>,
) -> (out: Vec<i64>)
    ensures
        out@ == uniform_sample(catalog@, excluded@, target as int).out,
        final(scratch)@ == uniform_sample(catalog@, excluded@, target as int).taken,
        is_clean_sample(out@, catalog@, excluded@, target as int),
{
    scratch.clear();
    add_all(scratch, excluded);
    proof {
        assert(scratch@ =~= excluded@.to_set());
        lemma_uniform_sample(catalog@, excluded@, target as int);
    }
    let mut out: Vec<i64> = Vec::new();
    if catalog.len() == 0 {
        return out;
    }
    let max_tries: usize = tries_for(target, 10, 100);
    let _end: u64 = run_uniform(catalog, scratch, &mut out, NEG_SAMPLE_SEED, target, max_tries);
    out
}

/// `out` holds at most `target` distinct ids of the catalog, none excluded.
pub open spec fn is_clean_sample(
    out: Seq<i64>,
    catalog: Seq<i64>,
    excluded: Seq<i64>,
    target: int,
) -> bool {
    &&& out.len() <= target
    &&& out.no_duplicates()
    &&& forall|i: int|
        0 <= i < out.len() ==> catalog.contains(#[trigger] out[i]) && !excluded.contains(out[i])
}

proof fn lemma_clean_from_extends(a: Draw, b: Draw, ids: Seq<i64>, excluded: Seq<i64>)
    requires
        a.taken == excluded.to_set(),
        a.out.len() == 0,
        extends_draw(a, b, ids),
    ensures
        b.out.no_duplicates(),
        forall|i: int|
            0 <= i < b.out.len() ==> ids.contains(#[trigger] b.out[i]) && !excluded.contains(
                b.out[i],
            ),
{
    assert forall|i: int| 0 <= i < b.out.len() implies ids.contains(#[trigger] b.out[i])
        && !excluded.contains(b.out[i]) by {
        assert(!a.taken.contains(b.out[i]));
        assert(excluded.contains(b.out[i]) ==> excluded.to_set().contains(b.out[i]));
    }
}

proof fn lemma_uniform_sample(catalog: Seq<i64>, excluded: Seq<i64>, target: int)
    requires
        target >= 0,
    ensures
        is_clean_sample(
            uniform_sample(catalog, excluded, target).out,
            catalog,
            excluded,
            target,
        ),
{
    let d = fresh_draw(excluded, NEG_SAMPLE_SEED);
    if catalog.len() > 0 {
        let tries = try_budget(target, 10, 100) as nat;
        lemma_uniform_pass(catalog, d, target, tries);
        lemma_clean_from_extends(d, uniform_pass(catalog, d, target, tries), catalog, excluded);
    }
}

/// The outcome of `sample_hard_pool`.
pub open spec fn hard_pool(
    catalog: Seq<i64>,
    pool_size: int,
    account_id: i32,
    taken: Set<i64>,
) -> Draw {
    let d = Draw { taken, out: Seq::empty(), rng: account_seed(NEG_SAMPLE_SEED, account_id) };
    if catalog.len() == 0 || pool_size == 0 {
        d
    } else {
        uniform_pass(catalog, d, pool_size, try_budget(pool_size, 10, 100) as nat)
    }
}

/// A pool of candidates for hard-negative mining: up to `pool_size` distinct
/// ids that `scratch` does not hold yet. They are added to `scratch`.
pub fn sample_hard_pool(
    catalog: &Vec<i64>,
    pool_size: usize,
    account_id: i32,
    scratch: &mut HashSet<i64>,
) -> (out: Vec<i64>)
    ensures
        out@ == hard_pool(catalog@, pool_size as int, account_id, old(scratch)@).out,
        final(scratch)@ == hard_pool(catalog@, pool_size as int, account_id, old(scratch)@).taken,
        out@.len() <= pool_size,
        out@.no_duplicates(),
        forall|i: int|
            0 <= i < out@.len() ==> catalog@.contains(#[trigger] out@[i]) && !old(
                scratch,
            )@.contains(out@[i]) && final(scratch)@.contains(out@[i]),
{
    let mut out: Vec<i64> = Vec::new();
    if catalog.len() == 0 || pool_size == 0 {
        return out;
    }
    let rng: u64 = seed_for_account(NEG_SAMPLE_SEED, account_id);
    let max_tries: usize = tries_for(pool_size, 10, 100);
    proof {
        let d = Draw { taken: scratch@, out: out@, rng };
        assert(d.out =~= Seq::<i64>::empty());
        lemma_uniform_pass(catalog@, d, pool_size as int, max_tries as nat);
    }
    let _end: u64 = run_uniform(catalog, scratch, &mut out, rng, pool_size, max_tries);
    out
}

// ---------------------------------------------------------------------------
// Matched negatives
// ---------------------------------------------------------------------------

/// Catalog metadata: parallel columns over the post ids, and the positions
/// ordered by favourite count and by age.
pub struct CatalogIndex {
    pub ids: Vec<i64>,
    pub fav_counts: Vec<i64>,
    pub created_at_epoch: Vec<i64>,
    pub by_fav: Vec<u32>,
    pub by_age: Vec<u32>,
}

/// `order` lists positions of `keys` in ascending key order.
pub open spec fn index_sorted(keys: Seq<i64>, order: Seq<u32>) -> bool {
    &&& forall|i: int| 0 <= i < order.len() ==> (#[trigger] order[i]) < keys.len()
    &&& forall|i: int, j: int|
        0 <= i <= j < order.len() ==> keys[#[trigger] order[i] as int] <= keys[#[trigger] order[j] as int]
}

impl CatalogIndex {
    pub open spec fn wf(&self) -> bool {
        &&& self.fav_counts@.len() == self.ids@.len()
        &&& self.created_at_epoch@.len() == self.ids@.len()
        &&& index_sorted(self.fav_counts@, self.by_fav@)
        &&& index_sorted(self.created_at_epoch@, self.by_age@)
    }
}

/// `p` parts the index: keys below `bound` before it, the others from it on.
pub open spec fn is_cut(keys: Seq<i64>, order: Seq<u32>, bound: int, p: int) -> bool {
    &&& 0 <= p <= order.len()
    &&& forall|q: int| 0 <= q < p ==> keys[#[trigger] order[q] as int] < bound
    &&& forall|q: int| p <= q < order.len() ==> keys[#[trigger] order[q] as int] >= bound
}

/// The position at which keys reach `bound`.
pub open spec fn cut(keys: Seq<i64>, order: Seq<u32>, bound: int) -> int {
    choose|p: int| is_cut(keys, order, bound, p)
}

/// The position at which keys reach `bound`, or pass it if `inclusive`.
fn partition(keys: &Vec<i64>, order: &Vec<u32>, bound: i64, inclusive: bool) -> (r: usize)
    requires
        index_sorted(keys@, order@),
    ensures
        r == cut(keys@, order@, bound + (if inclusive { 1int } else { 0int })),
        r <= order.len(),
{
    let ghost limit = bound + (if inclusive { 1int } else { 0int });
    let mut lo: usize = 0;
    let mut hi: usize = order.len();
    while lo < hi
        invariant
            index_sorted(keys@, order@),
            lo <= hi <= order.len(),
            limit == bound + (if inclusive { 1int } else { 0int }),
            forall|q: int| 0 <= q < lo ==> keys@[#[trigger] order@[q] as int] < limit,
            forall|q: int| hi <= q < order.len() ==> keys@[#[trigger] order@[q] as int] >= limit,
        decreases hi - lo,
    {
        let mid: usize = lo + (hi - lo) / 2;
        let key: i64 = keys[order[mid] as usize];
        let below: bool = if inclusive {
            key <= bound
        } else {
            key < bound
        };
        if below {
            lo = mid + 1;
        } else {
            hi = mid;
        }
    }
    proof {
        assert(is_cut(keys@, order@, limit, lo as int));
        let p = cut(keys@, order@, limit);
        assert(is_cut(keys@, order@, limit, p));
        if p < lo {
            assert(keys@[order@[p] as int] < limit);
        }
        if lo < p {
            assert(keys@[order@[lo as int] as int] >= limit);
        }
    }
    lo
}

/// One draw inside the window of a held-out post chosen at random.
pub open spec fn matched_step(
    ids: Seq<i64>,
    keys: Seq<i64>,
    order: Seq<u32>,
    windows: Seq<(i64, i64)>,
    d: Draw,
) -> Draw {
    let r = xorshift(d.rng);
    let w = windows[slot(r, windows.len() as int)];
    let lo = cut(keys, order, w.0 as int);
    let hi = cut(keys, order, w.1 + 1);
    if hi > lo {
        let r2 = xorshift(r);
        d.offer(ids[order[lo + slot(r2, hi - lo)] as int], r2)
    } else {
        Draw { taken: d.taken, out: d.out, rng: r }
    }
}

/// Matched draws until `target` ids are sampled or `tries` draws are spent.
pub open spec fn matched_pass(
    ids: Seq<i64>,
    keys: Seq<i64>,
    order: Seq<u32>,
    windows: Seq<(i64, i64)>,
    d: Draw,
    target: int,
    tries: nat,
) -> Draw
    decreases tries,
{
    if d.out.len() < target && tries > 0 {
        matched_pass(
            ids,
            keys,
            order,
            windows,
            matched_step(ids, keys, order, windows, d),
            target,
            (tries - 1) as nat,
        )
    } else {
        d
    }
}

proof fn lemma_slot_range(r: u64, n: int)
    requires
        n > 0,
    ensures
        0 <= slot(r, n) < n,
{
}

proof fn lemma_cut_exists(keys: Seq<i64>, order: Seq<u32>, bound: int, n: int)
    requires
        index_sorted(keys, order),
        0 <= n <= order.len(),
        forall|q: int| n <= q < order.len() ==> keys[#[trigger] order[q] as int] >= bound,
    ensures
        is_cut(keys, order, bound, cut(keys, order, bound)),
    decreases n,
{
    if n == 0 {
        assert(is_cut(keys, order, bound, 0));
    } else if keys[order[n - 1] as int] < bound {
        assert(is_cut(keys, order, bound, n));
    } else {
        lemma_cut_exists(keys, order, bound, n - 1);
    }
}

/// A matched pass keeps to the catalog, skips what is taken and stops at its target.
pub proof fn lemma_matched_pass(
    ids: Seq<i64>,
    keys: Seq<i64>,
    order: Seq<u32>,
    windows: Seq<(i64, i64)>,
    d: Draw,
    target: int,
    tries: nat,
)
    requires
        keys.len() == ids.len(),
        index_sorted(keys, order),
        windows.len() > 0,
    ensures
        extends_draw(d, matched_pass(ids, keys, order, windows, d, target, tries), ids),
        matched_pass(ids, keys, order, windows, d, target, tries).out.len() <= target
            || matched_pass(ids, keys, order, windows, d, target, tries).out.len() == d.out.len(),
    decreases tries,
{
    lemma_extends_refl(d, ids);
    if d.out.len() < target && tries > 0 {
        let r = xorshift(d.rng);
        let w = windows[slot(r, windows.len() as int)];
        let lo = cut(keys, order, w.0 as int);
        let hi = cut(keys, order, w.1 + 1);
        let e = matched_step(ids, keys, order, windows, d);
        lemma_cut_exists(keys, order, w.0 as int, order.len() as int);
        lemma_cut_exists(keys, order, w.1 + 1, order.len() as int);
        if hi > lo {
            let r2 = xorshift(r);
            lemma_slot_range(r2, hi - lo);
            let id = ids[order[lo + slot(r2, hi - lo)] as int];
            lemma_extends_offer(d, id, r2, ids);
        } else {
            assert(e.out.take(d.out.len() as int) =~= d.out);
        }
        assert(extends_draw(d, e, ids));
        lemma_matched_pass(ids, keys, order, windows, e, target, (tries - 1) as nat);
        lemma_extends_trans(
            d,
            e,
            matched_pass(ids, keys, order, windows, e, target, (tries - 1) as nat),
            ids,
        );
    }
}

/// Runs a matched pass on `scratch`, `out` and `rng`.
fn run_matched(
    ids: &Vec<i64>,
    keys: &Vec<i64>,
    order: &Vec<u32>,
    windows: &Vec<(i64, i64)>,
    scratch: &mut HashSet<i64>,
    out: &mut Vec<i64>,
    rng: u64,
    target: usize,
    max_tries: usize,
) -> (end: u64)
    requires
        keys.len() == ids.len(),
        index_sorted(keys@, order@),
        windows.len() > 0,
    ensures
        ({
            let d = Draw { taken: old(scratch)@, out: old(out)@, rng };
            let e = matched_pass(
                ids@,
                keys@,
                order@,
                windows@,
                d,
                target as int,
                max_tries as nat,
            );
            final(scratch)@ == e.taken && final(out)@ == e.out && end == e.rng
        }),
{
    let ghost d = Draw { taken: scratch@, out: out@, rng };
    let ghost goal = matched_pass(
        ids@,
        keys@,
        order@,
        windows@,
        d,
        target as int,
        max_tries as nat,
    );
    let mut state: u64 = rng;
    let mut tries: usize = 0;
    while out.len() < target && tries < max_tries
        invariant
            keys.len() == ids.len(),
            index_sorted(keys@, order@),
            windows.len() > 0,
            tries <= max_tries,
            goal == matched_pass(
                ids@,
                keys@,
                order@,
                windows@,
                (Draw { taken: scratch@, out: out@, rng: state }),
                target as int,
                (max_tries - tries) as nat,
            ),
        decreases max_tries - tries,
    {
        broadcast use vstd::std_specs::hash::group_hash_axioms;

        let ghost cur = Draw { taken: scratch@, out: out@, rng: state };
        state = next_random(state);
        let w: (i64, i64) = windows[slot_of(state, windows.len())];
        let lo: usize = partition(keys, order, w.0, false);
        let hi: usize = partition(keys, order, w.1, true);
        if hi > lo {
            state = next_random(state);
            let pick: usize = order[lo + slot_of(state, hi - lo)] as usize;
            let id: i64 = ids[pick];
            if scratch.insert(id) {
                out.push(id);
            }
        }
        proof {
            let nxt = Draw { taken: scratch@, out: out@, rng: state };
            let step = matched_step(ids@, keys@, order@, windows@, cur);
            assert(nxt.taken =~= step.taken);
            assert(nxt == step);
        }
        tries += 1;
    }
    state
}

/// The age windows around the creation times of the held-out posts.
pub open spec fn age_windows(epochs: Seq<i64>) -> Seq<(i64, i64)> {
    epochs.map_values(|e: i64| ((e - WINDOW_SECS) as i64, (e + WINDOW_SECS) as i64))
}

/// The share of the target that the two matched shares leave over.
pub open spec fn remaining_share(target: int, uniform: int, popular: int) -> int {
    if target > uniform + popular {
        target - (uniform + popular)
    } else {
        0
    }
}

/// The outcome of `sample_negatives_mixed`.
pub open spec fn mixed_sample(
    c: CatalogIndex,
    excluded: Seq<i64>,
    fav_windows: Seq<(i64, i64)>,
    epochs: Seq<i64>,
    target: int,
    target_uniform: int,
    target_pop: int,
    account_id: i32,
) -> Draw {
    let ids = c.ids@;
    let d0 = fresh_draw(excluded, account_seed(NEG_SAMPLE_SEED, account_id));
    if ids.len() == 0 || epochs.len() == 0 {
        d0
    } else {
        let d1 = uniform_pass(ids, d0, target_uniform, try_budget(target_uniform, 5, 100) as nat);
        let d2 = if c.by_fav@.len() > 0 {
            matched_pass(
                ids,
                c.fav_counts@,
                c.by_fav@,
                fav_windows,
                d1,
                d1.out.len() + target_pop,
                try_budget(target_pop, 5, 100) as nat,
            )
        } else {
            d1
        };
        let target_time = remaining_share(target, target_uniform, target_pop);
        let d3 = if c.by_age@.len() > 0 {
            matched_pass(
                ids,
                c.created_at_epoch@,
                c.by_age@,
                age_windows(epochs),
                d2,
                d2.out.len() + target_time,
                try_budget(target_time, 5, 100) as nat,
            )
        } else {
            d2
        };
        if d3.out.len() < target {
            uniform_pass(ids, d3, target, try_budget(target - d3.out.len(), 5, 50) as nat)
        } else {
            d3
        }
    }
}

/// Mixed hard negatives: a uniform share, a share whose favourite count lies in
/// the window of a held-out post, a share created around the same time, and a
/// uniform top-up where the matched shares came up short. `target_uniform` and
/// `target_pop` are the rounded shares of `target`; `fav_windows` and `epochs`
/// describe the held-out posts.
pub fn sample_negatives_mixed(
    catalog: &CatalogIndex,
    excluded: &Vec<i64>,
    fav_windows: &Vec<(i64, i64)>,
    epochs: &Vec<i64>,
    target: usize,
    target_uniform: usize,
    target_pop: usize,
    account_id: i32,
    scratch: &mut HashSet<i64>,
) -> (out: Vec<i64>)
    requires
        catalog.wf(),
        fav_windows.len() == epochs.len(),
        forall|i: int|
            0 <= i < epochs.len() ==> i64::MIN + WINDOW_SECS <= #[trigger] epochs@[i] <= i64::MAX
                - WINDOW_SECS,
        target_uniform + target_pop <= usize::MAX,
    ensures
        ({
            let e = mixed_sample(
                *catalog,
                excluded@,
                fav_windows@,
                epochs@,
                target as int,
                target_uniform as int,
                target_pop as int,
                account_id,
            );
            out@ == e.out && final(scratch)@ == e.taken
        }),
        is_clean_sample(
            out@,
            catalog.ids@,
            excluded@,
            if target >= target_uniform + target_pop {
                target as int
            } else {
                target_uniform + target_pop
            },
        ),
{
    scratch.clear();
    add_all(scratch, excluded);
    proof {
        assert(scratch@ =~= excluded@.to_set());
    }
    let mut out: Vec<i64> = Vec::new();
    if catalog.ids.len() == 0 || epochs.len() == 0 {
        return out;
    }
    let mut windows: Vec<(i64, i64)> = Vec::new();
    let mut i: usize = 0;
    while i < epochs.len()
        invariant
            i <= epochs.len(),
            forall|k: int|
                0 <= k < epochs.len() ==> i64::MIN + WINDOW_SECS <= #[trigger] epochs@[k]
                    <= i64::MAX - WINDOW_SECS,
            windows@ == age_windows(epochs@.take(i as int)),
        decreases epochs.len() - i,
    {
        let e: i64 = epochs[i];
        windows.push((e - WINDOW_SECS, e + WINDOW_SECS));
        proof {
            assert(age_windows(epochs@.take(i + 1)) =~= age_windows(epochs@.take(i as int)).push(
                ((e - WINDOW_SECS) as i64, (e + WINDOW_SECS) as i64),
            ));
        }
        i += 1;
    }
    proof {
        assert(epochs@.take(epochs@.len() as int) =~= epochs@);
    }
    let rng0: u64 = seed_for_account(NEG_SAMPLE_SEED, account_id);
    let ghost ids = catalog.ids@;
    let ghost d0 = fresh_draw(excluded@, rng0);

    let tries_uniform: usize = tries_for(target_uniform, 5, 100);
    let rng1: u64 = run_uniform(
        &catalog.ids,
        scratch,
        &mut out,
        rng0,
        target_uniform,
        tries_uniform,
    );
    let ghost d1 = Draw { taken: scratch@, out: out@, rng: rng1 };
    proof {
        lemma_uniform_pass(ids, d0, target_uniform as int, tries_uniform as nat);
        assert(d1 == uniform_pass(ids, d0, target_uniform as int, tries_uniform as nat));
    }

    let mut rng2: u64 = rng1;
    if catalog.by_fav.len() > 0 {
        let goal: usize = out.len() + target_pop;
        let tries_pop: usize = tries_for(target_pop, 5, 100);
        proof {
            lemma_matched_pass(
                ids,
                catalog.fav_counts@,
                catalog.by_fav@,
                fav_windows@,
                d1,
                goal as int,
                tries_pop as nat,
            );
        }
        rng2 = run_matched(
            &catalog.ids,
            &catalog.fav_counts,
            &catalog.by_fav,
            fav_windows,
            scratch,
            &mut out,
            rng1,
            goal,
            tries_pop,
        );
    } else {
        proof {
            lemma_extends_refl(d1, ids);
        }
    }
    let ghost d2 = Draw { taken: scratch@, out: out@, rng: rng2 };
    proof {
        lemma_extends_trans(d0, d1, d2, ids);
    }

    let taken_shares: usize = target_uniform + target_pop;
    let target_time: usize = if target > taken_shares {
        target - taken_shares
    } else {
        0
    };
    let mut rng3: u64 = rng2;
    if catalog.by_age.len() > 0 {
        let goal: usize = out.len() + target_time;
        let tries_time: usize = tries_for(target_time, 5, 100);
        proof {
            lemma_matched_pass(
                ids,
                catalog.created_at_epoch@,
                catalog.by_age@,
                windows@,
                d2,
                goal as int,
                tries_time as nat,
            );
        }
        rng3 = run_matched(
            &catalog.ids,
            &catalog.created_at_epoch,
            &catalog.by_age,
            &windows,
            scratch,
            &mut out,
            rng2,
            goal,
            tries_time,
        );
    } else {
        proof {
            lemma_extends_refl(d2, ids);
        }
    }
    let ghost d3 = Draw { taken: scratch@, out: out@, rng: rng3 };
    proof {
        lemma_extends_trans(d0, d2, d3, ids);
    }

    if out.len() < target {
        let tries_more: usize = tries_for(target - out.len(), 5, 50);
        proof {
            lemma_uniform_pass(ids, d3, target as int, tries_more as nat);
        }
        let rng4: u64 = run_uniform(&catalog.ids, scratch, &mut out, rng3, target, tries_more);
        proof {
            lemma_extends_trans(d0, d3, (Draw { taken: scratch@, out: out@, rng: rng4 }), ids);
        }
    }
    proof {
        let end = mixed_sample(
            *catalog,
            excluded@,
            fav_windows@,
            epochs@,
            target as int,
            target_uniform as int,
            target_pop as int,
            account_id,
        );
        assert(end.out == out@ && end.taken == scratch@);
        assert(extends_draw(d0, end, ids));
        lemma_clean_from_extends(d0, end, ids, excluded@);
    }
    out
}

// ---------------------------------------------------------------------------
// Train/test splits
// ---------------------------------------------------------------------------

/// How many of `n` favourites are held out: the rounded share, but at least one
/// and not all, as far as `n` allows.
pub open spec fn held_out(n: int, rounded: int) -> int {
    let room = if n > 0 {
        n - 1
    } else {
        0
    };
    let capped = if rounded < room {
        rounded
    } else {
        room
    };
    let least = if n < 1 {
        n
    } else {
        1
    };
    if capped > least {
        capped
    } else {
        least
    }
}

/// Where the held-out tail begins in a sorted list of `n`.
pub open spec fn split_point(n: int, rounded: int) -> int {
    let p = n - held_out(n, rounded);
    if p > 1 {
        p
    } else {
        1
    }
}

fn held_out_count(n: usize, rounded: usize) -> (r: usize)
    ensures
        r == held_out(n as int, rounded as int),
        r <= n,
{
    let room: usize = if n > 0 {
        n - 1
    } else {
        0
    };
    let capped: usize = if rounded < room {
        rounded
    } else {
        room
    };
    let least: usize = if n < 1 {
        n
    } else {
        1
    };
    if capped > least {
        capped
    } else {
        least
    }
}

/// A Fisher-Yates shuffle of `idx` from position `i` down, on the stream of `rng`.
pub open spec fn shuffled(idx: Seq<usize>, rng: u64, i: int) -> Seq<usize>
    decreases i,
{
    if i <= 0 {
        idx
    } else {
        let r = xorshift(rng);
        let j = slot(r, i + 1);
        shuffled(idx.update(i, idx[j]).update(j, idx[i]), r, i - 1)
    }
}

/// The positions that the random split of `n` favourites holds out.
pub open spec fn random_test_positions(account_id: i32, n: int, n_test: int) -> Seq<usize> {
    shuffled(order::positions(0, n), account_seed(SPLIT_SEED, account_id), n - 1).take(n_test)
}

/// The values of `s` whose position is in `chosen` (or, for `want` false, is not).
pub open spec fn keep_where(s: Seq<i64>, chosen: Seq<usize>, want: bool) -> Seq<i64>
    decreases s.len(),
{
    if s.len() == 0 {
        s
    } else {
        let rest = keep_where(s.drop_last(), chosen, want);
        if chosen.contains((s.len() - 1) as usize) == want {
            rest.push(s.last())
        } else {
            rest
        }
    }
}

proof fn lemma_keep_where_parts(s: Seq<i64>, chosen: Seq<usize>)
    ensures
        keep_where(s, chosen, true).to_multiset().add(
            keep_where(s, chosen, false).to_multiset(),
        ) == s.to_multiset(),
    decreases s.len(),
{
    broadcast use {vstd::seq_lib::group_to_multiset_ensures, vstd::multiset::group_multiset_axioms};

    let a = keep_where(s, chosen, true);
    let b = keep_where(s, chosen, false);
    if s.len() == 0 {
        assert(a.to_multiset().add(b.to_multiset()) =~= s.to_multiset());
    } else {
        lemma_keep_where_parts(s.drop_last(), chosen);
        assert(s =~= s.drop_last().push(s.last()));
        assert(a.to_multiset().add(b.to_multiset()) =~= s.to_multiset());
    }
}

/// The two halves that `split_train_test` makes of a sorted list.
pub open spec fn split_halves(
    sorted: Seq<i64>,
    account_id: i32,
    rounded: int,
    strategy: SplitStrategy,
) -> (Seq<i64>, Seq<i64>) {
    let n = sorted.len() as int;
    match strategy {
        SplitStrategy::Random => {
            let chosen = random_test_positions(account_id, n, held_out(n, rounded));
            (keep_where(sorted, chosen, false), keep_where(sorted, chosen, true))
        },
        _ => {
            let p = split_point(n, rounded);
            (sorted.take(p), sorted.skip(p))
        },
    }
}

fn range_indices(n: usize) -> (v: Vec<usize>)
    ensures
        v@ == order::positions(0, n as int),
{
    let mut v: Vec<usize> = Vec::new();
    let mut i: usize = 0;
    while i < n
        invariant
            i <= n,
            v@ == order::positions(0, i as int),
        decreases n - i,
    {
        v.push(i);
        proof {
            assert(order::positions(0, i + 1) =~= order::positions(0, i as int).push(i));
        }
        i += 1;
    }
    v
}

fn copy_range(v: &Vec<i64>, lo: usize, hi: usize) -> (r: Vec<i64>)
    requires
        lo <= hi <= v.len(),
    ensures
        r@ == v@.subrange(lo as int, hi as int),
{
    let mut r: Vec<i64> = Vec::new();
    let mut i: usize = lo;
    while i < hi
        invariant
            lo <= i <= hi <= v.len(),
            r@ == v@.subrange(lo as int, i as int),
        decreases hi - i,
    {
        r.push(v[i]);
        proof {
            assert(v@.subrange(lo as int, i + 1) =~= v@.subrange(lo as int, i as int).push(
                v@[i as int],
            ));
        }
        i += 1;
    }
    r
}

/// Which of `n` positions the random split holds out.
fn random_test_flags(account_id: i32, n: usize, n_test: usize) -> (flags: Vec<bool>)
    requires
        n_test <= n,
    ensures
        flags@.len() == n,
        forall|i: int|
            0 <= i < n ==> #[trigger] flags@[i] == random_test_positions(
                account_id,
                n as int,
                n_test as int,
            ).contains(i as usize),
{
    let mut indices = range_indices(n);
    let mut rng: u64 = seed_for_account(SPLIT_SEED, account_id);
    let ghost goal = shuffled(order::positions(0, n as int), rng, n - 1);
    if n > 1 {
        let mut i: usize = n - 1;
        while i >= 1
            invariant
                i < n,
                indices.len() == n,
                forall|k: int| 0 <= k < n ==> (#[trigger] indices@[k]) < n,
                goal == shuffled(indices@, rng, i as int),
            decreases i,
        {
            rng = next_random(rng);
            let j: usize = slot_of(rng, i + 1);
            let a: usize = indices[i];
            let b: usize = indices[j];
            indices.set(i, b);
            indices.set(j, a);
            i -= 1;
        }
    }
    proof {
        assert(indices@ =~= goal);
    }
    let mut flags: Vec<bool> = Vec::new();
    let mut i: usize = 0;
    while i < n
        invariant
            i <= n,
            flags@.len() == i,
            forall|k: int| 0 <= k < i ==> !#[trigger] flags@[k],
        decreases n - i,
    {
        flags.push(false);
        i += 1;
    }
    let mut t: usize = 0;
    while t < n_test
        invariant
            t <= n_test <= n,
            indices@ == goal,
            indices.len() == n,
            flags@.len() == n,
            forall|k: int| 0 <= k < n ==> (#[trigger] indices@[k]) < n,
            forall|k: int|
                0 <= k < n ==> #[trigger] flags@[k] == goal.take(t as int).contains(k as usize),
        decreases n_test - t,
    {
        let p: usize = indices[t];
        flags.set(p, true);
        proof {
            let before = goal.take(t as int);
            let after = goal.take(t + 1);
            assert(after =~= before.push(p));
            assert forall|k: int| 0 <= k < n implies #[trigger] flags@[k] == after.contains(
                k as usize,
            ) by {
                if k == p {
                    assert(after[t as int] == p);
                } else {
                    if before.contains(k as usize) {
                        let q = choose|q: int| 0 <= q < t && before[q] == k as usize;
                        assert(after[q] == k as usize);
                    }
                    if after.contains(k as usize) {
                        let q = choose|q: int| 0 <= q < t + 1 && after[q] == k as usize;
                        assert(before[q] == k as usize);
                    }
                }
            }
        }
        t += 1;
    }
    flags
}

/// Divides an account's favourites into train and test ids. `rounded_test` is
/// the rounded share of the favourites that is to be held out.
pub fn split_train_test(
    account_id: i32,
    ids: &Vec<i64>,
    rounded_test: usize,
    strategy: SplitStrategy,
) -> (r: (Vec<i64>, Vec<i64>))
    requires
        strategy != SplitStrategy::TimeCausal,
        strategy == SplitStrategy::PostId ==> ids.len() > 0,
    ensures
        (r.0@, r.1@) == split_halves(
            order::sorted_copy(ids@),
            account_id,
            rounded_test as int,
            strategy,
        ),
        r.0@.to_multiset().add(r.1@.to_multiset()) == ids@.to_multiset(),
{
    let sorted = sorted_ids(ids);
    let n: usize = sorted.len();
    let n_test: usize = held_out_count(n, rounded_test);
    let mut train: Vec<i64> = Vec::new();
    let mut test: Vec<i64> = Vec::new();
    if strategy == SplitStrategy::Random {
        let flags = random_test_flags(account_id, n, n_test);
        let ghost chosen = random_test_positions(account_id, n as int, n_test as int);
        let mut i: usize = 0;
        proof {
            assert(sorted@.take(0) =~= Seq::<i64>::empty());
        }
        while i < n
            invariant
                i <= n,
                n == sorted.len(),
                flags@.len() == n,
                forall|k: int| 0 <= k < n ==> #[trigger] flags@[k] == chosen.contains(k as usize),
                train@ == keep_where(sorted@.take(i as int), chosen, false),
                test@ == keep_where(sorted@.take(i as int), chosen, true),
            decreases n - i,
        {
            proof {
                let s = sorted@.take(i + 1);
                assert(s.drop_last() =~= sorted@.take(i as int));
                assert(s.last() == sorted@[i as int]);
                assert((s.len() - 1) as usize == i);
                assert(flags@[i as int] == chosen.contains(i));
            }
            if flags[i] {
                test.push(sorted[i]);
            } else {
                train.push(sorted[i]);
            }
            i += 1;
        }
        proof {
            assert(sorted@.take(n as int) =~= sorted@);
            lemma_keep_where_parts(sorted@, chosen);
        }
    } else {
        let rest: usize = n - n_test;
        let p: usize = if rest > 1 {
            rest
        } else {
            1
        };
        train = copy_range(&sorted, 0, p);
        test = copy_range(&sorted, p, n);
        proof {
            assert(train@ =~= sorted@.take(p as int));
            assert(test@ =~= sorted@.skip(p as int));
            assert(sorted@ =~= train@ + test@);
            vstd::seq_lib::lemma_multiset_commutative(train@, test@);
        }
    }
    proof {
        assert(train@.to_multiset().add(test@.to_multiset()) =~= ids@.to_multiset());
    }
    (train, test)
}

/// The keys of a time-causal split: creation time, then id.
pub open spec fn time_keys(favs: Seq<(i64, i64)>) -> Seq<(i64, i64, i64)> {
    favs.map_values(|f: (i64, i64)| (f.1, f.0, 0i64))
}

/// The ids of `(id, time)` pairs.
pub open spec fn fav_ids(favs: Seq<(i64, i64)>) -> Seq<i64> {
    favs.map_values(|f: (i64, i64)| f.0)
}

/// The ids of a time-causal split: the older ones and the newest.
pub open spec fn time_halves(favs: Seq<(i64, i64)>, rounded: int) -> (Seq<i64>, Seq<i64>) {
    let p = split_point(favs.len() as int, rounded);
    let ids = order::arranged(fav_ids(favs), order::int_order(time_keys(favs)));
    (ids.take(p), ids.skip(p))
}

/// Time-causal split of `(post id, creation time)` pairs: the newest are held out.
pub fn split_train_test_time(favs: &Vec<(i64, i64)>, rounded_test: usize) -> (r: (
    Vec<i64>,
    Vec<i64>,
))
    requires
        favs.len() > 0,
    ensures
        (r.0@, r.1@) == time_halves(favs@, rounded_test as int),
        r.0@.to_multiset().add(r.1@.to_multiset()) == fav_ids(favs@).to_multiset(),
{
    let mut keys: Vec<(i64, i64, i64)> = Vec::new();
    let mut i: usize = 0;
    while i < favs.len()
        invariant
            i <= favs.len(),
            keys@ == time_keys(favs@.take(i as int)),
        decreases favs.len() - i,
    {
        keys.push((favs[i].1, favs[i].0, 0));
        proof {
            assert(time_keys(favs@.take(i + 1)) =~= time_keys(favs@.take(i as int)).push(
                (favs@[i as int].1, favs@[i as int].0, 0i64),
            ));
        }
        i += 1;
    }
    proof {
        assert(favs@.take(favs@.len() as int) =~= favs@);
    }
    let order = sort_ints(keys);
    let mut sorted: Vec<i64> = Vec::new();
    let mut j: usize = 0;
    while j < order.len()
        invariant
            j <= order.len(),
            order.len() == favs.len(),
            forall|a: int| 0 <= a < order.len() ==> (#[trigger] order@[a]) < favs.len(),
            sorted@ == order::arranged(fav_ids(favs@), order@.take(j as int)),
        decreases order.len() - j,
    {
        sorted.push(favs[order[j]].0);
        proof {
            assert(order::arranged(fav_ids(favs@), order@.take(j + 1)) =~= order::arranged(
                fav_ids(favs@),
                order@.take(j as int),
            ).push(favs@[order@[j as int] as int].0));
        }
        j += 1;
    }
    proof {
        assert(order@.take(order@.len() as int) =~= order@);
        order::lemma_arranged_multiset(fav_ids(favs@), order@);
    }
    let n: usize = sorted.len();
    let n_test: usize = held_out_count(n, rounded_test);
    let rest: usize = n - n_test;
    let p: usize = if rest > 1 {
        rest
    } else {
        1
    };
    let train = copy_range(&sorted, 0, p);
    let test = copy_range(&sorted, p, n);
    proof {
        assert(train@ =~= sorted@.take(p as int));
        assert(test@ =~= sorted@.skip(p as int));
        assert(sorted@ =~= train@ + test@);
        vstd::seq_lib::lemma_multiset_commutative(train@, test@);
    }
    (train, test)
}

// ---------------------------------------------------------------------------
// What a split holds out
// ---------------------------------------------------------------------------

/// Step `k` of a Fisher-Yates run over `n` positions: it draws the next number of
/// the stream and swaps the last position still open with one at or before it.
pub open spec fn is_shuffle_step(
    states: Seq<Seq<usize>>,
    rngs: Seq<u64>,
    n: int,
    k: int,
) -> bool {
    let open = n - 1 - k;
    let drawn = (rngs[k + 1] as usize) as int % (open + 1);
    &&& rngs[k + 1] == xorshift(rngs[k])
    &&& states[k + 1].len() == states[k].len()
    &&& states[k + 1][open] == states[k][drawn]
    &&& states[k + 1][drawn] == states[k][open]
    &&& forall|p: int|
        0 <= p < states[k].len() && p != open && p != drawn ==> #[trigger] states[k + 1][p]
            == states[k][p]
}

/// A Fisher-Yates run over `n` positions, step by step: `states` are the orders
/// it goes through and `rngs` the states of its stream.
pub open spec fn is_shuffle_run(
    states: Seq<Seq<usize>>,
    rngs: Seq<u64>,
    n: int,
    seed: u64,
) -> bool {
    &&& states.len() == n && rngs.len() == n
    &&& rngs[0] == seed
    &&& states[0].len() == n
    &&& forall|p: int| 0 <= p < n ==> #[trigger] states[0][p] == p
    &&& forall|k: int| 0 <= k < n - 1 ==> #[trigger] is_shuffle_step(states, rngs, n, k)
}

/// The values of `sorted` at the positions that `held` lists.
pub open spec fn values_in(sorted: Seq<i64>, held: Seq<usize>) -> Seq<i64> {
    order::arranged(
        sorted,
        order::positions(0, sorted.len() as int).filter(|p: usize| held.contains(p)),
    )
}

/// The values of `sorted` at the positions that `held` does not list.
pub open spec fn values_outside(sorted: Seq<i64>, held: Seq<usize>) -> Seq<i64> {
    order::arranged(
        sorted,
        order::positions(0, sorted.len() as int).filter(|p: usize| !held.contains(p)),
    )
}

/// The orders and stream states of a shuffle from position `i` down.
proof fn lemma_shuffle_run(idx: Seq<usize>, rng: u64, i: int) -> (r: (Seq<Seq<usize>>, Seq<u64>))
    requires
        0 <= i < idx.len() <= usize::MAX,
    ensures
        r.0.len() == i + 1 && r.1.len() == i + 1,
        r.0[0] == idx && r.1[0] == rng,
        r.0[i] == shuffled(idx, rng, i),
        forall|k: int| 0 <= k < i ==> #[trigger] is_shuffle_step(r.0, r.1, i + 1, k),
    decreases i,
{
    if i == 0 {
        (seq![idx], seq![rng])
    } else {
        let r = xorshift(rng);
        let j = slot(r, i + 1);
        lemma_slot_range(r, i + 1);
        let next = idx.update(i, idx[j]).update(j, idx[i]);
        let (states, rngs) = lemma_shuffle_run(next, r, i - 1);
        let s = seq![idx] + states;
        let t = seq![rng] + rngs;
        assert forall|k: int| 0 <= k < i implies #[trigger] is_shuffle_step(s, t, i + 1, k) by {
            if k == 0 {
                assert(s[0] == idx && s[1] == next);
                assert(t[0] == rng && t[1] == r);
            } else {
                assert(is_shuffle_step(states, rngs, i, k - 1));
                assert(s[k] == states[k - 1] && t[k] == rngs[k - 1]);
                assert(s[k + 1] == states[k] && t[k + 1] == rngs[k]);
            }
        }
        assert(s[i] == states[i - 1]);
        (s, t)
    }
}

/// The shuffle of the random split is a Fisher-Yates run on the account's own
/// stream, and a rearrangement of the positions.
pub proof fn law_shuffle_is_fisher_yates(account_id: i32, n: int)
    requires
        0 < n <= usize::MAX,
    ensures
        exists|states: Seq<Seq<usize>>, rngs: Seq<u64>| #[trigger]
            is_shuffle_run(states, rngs, n, account_seed(SPLIT_SEED, account_id))
                && random_test_positions(account_id, n, n) == states[n - 1],
        random_test_positions(account_id, n, n).to_multiset() == order::positions(
            0,
            n,
        ).to_multiset(),
        forall|m: int|
            0 <= m <= n ==> #[trigger] random_test_positions(account_id, n, m)
                == random_test_positions(account_id, n, n).take(m),
{
    let idx = order::positions(0, n);
    let seed = account_seed(SPLIT_SEED, account_id);
    let (states, rngs) = lemma_shuffle_run(idx, seed, n - 1);
    assert(is_shuffle_run(states, rngs, n, seed));
    let all = shuffled(idx, seed, n - 1);
    lemma_shuffled_keeps(idx, seed, n - 1);
    assert(all.take(n) =~= all);
    assert forall|m: int| 0 <= m <= n implies #[trigger] random_test_positions(account_id, n, m)
        == random_test_positions(account_id, n, n).take(m) by {
        assert(all.take(n).take(m) =~= all.take(m));
    }
}

proof fn lemma_shuffled_keeps(idx: Seq<usize>, rng: u64, i: int)
    requires
        i < idx.len(),
    ensures
        shuffled(idx, rng, i).to_multiset() == idx.to_multiset(),
        shuffled(idx, rng, i).len() == idx.len(),
    decreases i,
{
    broadcast use vstd::seq_lib::group_to_multiset_ensures;

    if i > 0 {
        let r = xorshift(rng);
        let j = slot(r, i + 1);
        lemma_slot_range(r, i + 1);
        let next = idx.update(i, idx[j]).update(j, idx[i]);
        lemma_shuffled_keeps(next, r, i - 1);
        lemma_swap_keeps(idx, i, j);
    }
}

proof fn lemma_swap_keeps(s: Seq<usize>, i: int, j: int)
    requires
        0 <= j <= i < s.len(),
    ensures
        s.update(i, s[j]).update(j, s[i]).to_multiset() == s.to_multiset(),
{
    broadcast use {
        vstd::seq_lib::group_to_multiset_ensures,
        vstd::multiset::group_multiset_axioms,
    };

    let a = s.update(i, s[j]);
    vstd::seq_lib::to_multiset_update(s, i, s[j]);
    vstd::seq_lib::to_multiset_update(a, j, s[i]);
    assert(a.update(j, s[i]).to_multiset() =~= s.to_multiset());
}

proof fn lemma_keep_where_is_filter(s: Seq<i64>, chosen: Seq<usize>, want: bool, n: int)
    requires
        0 <= n <= s.len() <= usize::MAX,
    ensures
        keep_where(s.take(n), chosen, want) == order::arranged(
            s,
            order::positions(0, n).filter(|p: usize| chosen.contains(p) == want),
        ),
    decreases n,
{
    reveal(Seq::filter);
    let pred = |p: usize| chosen.contains(p) == want;
    let all = order::positions(0, n);
    if n == 0 {
        assert(order::arranged(s, all.filter(pred)) =~= Seq::<i64>::empty());
        assert(s.take(0) =~= Seq::<i64>::empty());
    } else {
        lemma_keep_where_is_filter(s, chosen, want, n - 1);
        assert(s.take(n).drop_last() =~= s.take(n - 1));
        assert(all.drop_last() =~= order::positions(0, n - 1));
        assert(all.last() == (n - 1) as usize);
        let rest = order::positions(0, n - 1).filter(pred);
        if pred(all.last()) {
            assert(order::arranged(s, rest.push(all.last())) =~= order::arranged(s, rest).push(
                s[n - 1],
            ));
        }
    }
}

/// The random split holds out what stands at the first positions of the shuffle,
/// as many as are to be held out, and trains on the others. Both halves keep the
/// order of the ids.
pub proof fn law_random_split(sorted: Seq<i64>, account_id: i32, rounded: int)
    requires
        0 <= rounded,
        sorted.len() <= usize::MAX,
    ensures
        ({
            let n = sorted.len() as int;
            let held = random_test_positions(account_id, n, n).take(held_out(n, rounded));
            let (train, test) = split_halves(sorted, account_id, rounded, SplitStrategy::Random);
            test == values_in(sorted, held) && train == values_outside(sorted, held)
        }),
{
    let n = sorted.len() as int;
    let m = held_out(n, rounded);
    let chosen = random_test_positions(account_id, n, m);
    assert(sorted.take(n) =~= sorted);
    if n > 0 {
        law_shuffle_is_fisher_yates(account_id, n);
    } else {
        assert(random_test_positions(account_id, n, n).take(m) =~= chosen);
    }
    lemma_keep_where_is_filter(sorted, chosen, true, n);
    lemma_keep_where_is_filter(sorted, chosen, false, n);
    let inside = |p: usize| chosen.contains(p);
    let outside = |p: usize| !chosen.contains(p);
    assert(inside =~= |p: usize| chosen.contains(p) == true);
    assert(outside =~= |p: usize| chosen.contains(p) == false);
}

/// The split by post id holds out the newest ids: none of them is below one that
/// is trained on. The rounded share is held out where it leaves something on
/// both sides.
pub proof fn law_post_id_split(sorted: Seq<i64>, account_id: i32, rounded: int)
    requires
        order::ascending(sorted),
        sorted.len() > 0,
        0 <= rounded,
    ensures
        ({
            let (train, test) = split_halves(sorted, account_id, rounded, SplitStrategy::PostId);
            &&& train + test == sorted
            &&& train.len() > 0
            &&& 1 <= rounded < sorted.len() ==> test.len() == rounded
            &&& rounded >= sorted.len() > 1 ==> test.len() == sorted.len() - 1
            &&& rounded == 0 && sorted.len() > 1 ==> test.len() == 1
            &&& forall|i: int, j: int|
                0 <= i < train.len() && 0 <= j < test.len() ==> #[trigger] train[i]
                    <= #[trigger] test[j]
        }),
{
    let p = split_point(sorted.len() as int, rounded);
    assert(sorted.take(p) + sorted.skip(p) =~= sorted);
}

/// How many favourites the random split holds out.
pub proof fn law_random_split_size(sorted: Seq<i64>, account_id: i32, rounded: int)
    requires
        0 < sorted.len() <= usize::MAX,
        0 <= rounded,
    ensures
        ({
            let (train, test) = split_halves(sorted, account_id, rounded, SplitStrategy::Random);
            &&& train.len() + test.len() == sorted.len()
            &&& 1 <= rounded < sorted.len() ==> test.len() == rounded
            &&& rounded >= sorted.len() > 1 ==> test.len() == sorted.len() - 1
            &&& rounded == 0 || sorted.len() == 1 ==> test.len() == 1
        }),
{
    let n = sorted.len() as int;
    let m = held_out(n, rounded);
    let chosen = random_test_positions(account_id, n, m);
    let all = order::positions(0, n);
    law_shuffle_is_fisher_yates(account_id, n);
    let whole = random_test_positions(account_id, n, n);
    lemma_shuffled_keeps(all, account_seed(SPLIT_SEED, account_id), n - 1);
    assert(whole.len() == n);
    assert(0 <= m <= n);
    assert(chosen == whole.take(m));
    lemma_same_multiset_distinct(whole, all);
    assert forall|k: int| 0 <= k < chosen.len() implies (#[trigger] chosen[k]) < n by {
        broadcast use vstd::seq_lib::group_to_multiset_ensures;

        assert(chosen[k] == whole[k]);
        assert(whole.to_multiset().count(whole[k]) > 0);
        assert(all.contains(whole[k]));
    }
    lemma_keep_where_len(sorted, chosen, n);
    lemma_filter_all(chosen, |p: usize| p < n);
    assert(sorted.take(n) =~= sorted);
    lemma_keep_where_parts(sorted, chosen);
    broadcast use vstd::seq_lib::group_to_multiset_ensures;

    let train = keep_where(sorted, chosen, false);
    let test = keep_where(sorted, chosen, true);
    assert(test.to_multiset().add(train.to_multiset()).len() == sorted.to_multiset().len());
}

/// A single favourite is held out at random, and nothing is trained on.
pub proof fn law_one_position(sorted: Seq<i64>, account_id: i32, rounded: int)
    requires
        sorted.len() == 1,
        0 <= rounded,
    ensures
        split_halves(sorted, account_id, rounded, SplitStrategy::Random) == (
            Seq::<i64>::empty(),
            sorted,
        ),
{
    let halves = split_halves(sorted, account_id, rounded, SplitStrategy::Random);
    law_random_split_size(sorted, account_id, rounded);
    let chosen = random_test_positions(account_id, 1, held_out(1, rounded));
    assert(sorted.drop_last() =~= Seq::<i64>::empty());
    assert(keep_where(sorted.drop_last(), chosen, true) =~= Seq::<i64>::empty());
    assert(halves.1 =~= sorted);
    assert(halves.0 =~= Seq::<i64>::empty());
}

proof fn lemma_same_multiset_distinct(a: Seq<usize>, b: Seq<usize>)
    requires
        a.to_multiset() == b.to_multiset(),
        b.no_duplicates(),
    ensures
        a.no_duplicates(),
{
    broadcast use vstd::seq_lib::group_to_multiset_ensures;

    b.lemma_multiset_has_no_duplicates();
    assert forall|x: usize| #[trigger] a.to_multiset().contains(x) implies a.to_multiset().count(x)
        == 1 by {
        assert(b.to_multiset().contains(x));
    }
    a.lemma_multiset_has_no_duplicates_conv();
}

/// As many values are kept as distinct positions are chosen.
proof fn lemma_keep_where_len(s: Seq<i64>, chosen: Seq<usize>, n: int)
    requires
        0 <= n <= s.len() <= usize::MAX,
        chosen.no_duplicates(),
    ensures
        keep_where(s.take(n), chosen, true).len() == chosen.filter(|p: usize| p < n).len(),
    decreases n,
{
    let below = |p: usize| p < n;
    let lower = |p: usize| p < n - 1;
    if n == 0 {
        assert(s.take(0) =~= Seq::<i64>::empty());
        lemma_filter_none(chosen, below);
    } else {
        lemma_keep_where_len(s, chosen, n - 1);
        assert(s.take(n).drop_last() =~= s.take(n - 1));
        lemma_filter_step(chosen, n);
    }
}

proof fn lemma_filter_none(s: Seq<usize>, pred: spec_fn(usize) -> bool)
    requires
        forall|i: int| 0 <= i < s.len() ==> !pred(#[trigger] s[i]),
    ensures
        s.filter(pred).len() == 0,
    decreases s.len(),
{
    reveal(Seq::filter);
    if s.len() > 0 {
        assert(forall|i: int| 0 <= i < s.drop_last().len() ==> s.drop_last()[i] == s[i]);
        lemma_filter_none(s.drop_last(), pred);
    }
}

proof fn lemma_filter_all(s: Seq<usize>, pred: spec_fn(usize) -> bool)
    requires
        forall|i: int| 0 <= i < s.len() ==> pred(#[trigger] s[i]),
    ensures
        s.filter(pred) == s,
    decreases s.len(),
{
    reveal(Seq::filter);
    if s.len() > 0 {
        assert(forall|i: int| 0 <= i < s.drop_last().len() ==> s.drop_last()[i] == s[i]);
        lemma_filter_all(s.drop_last(), pred);
        assert(s.drop_last().push(s.last()) =~= s);
    }
}

proof fn lemma_filter_step(s: Seq<usize>, n: int)
    requires
        0 < n <= usize::MAX,
        s.no_duplicates(),
    ensures
        s.filter(|p: usize| p < n).len() == s.filter(|p: usize| p < n - 1).len() + (if s.contains(
            (n - 1) as usize,
        ) {
            1int
        } else {
            0int
        }),
    decreases s.len(),
{
    reveal(Seq::filter);
    if s.len() > 0 {
        let t = s.drop_last();
        lemma_filter_step(t, n);
        let x = (n - 1) as usize;
        if t.contains(x) {
            let k = choose|k: int| 0 <= k < t.len() && t[k] == x;
            assert(s[k] == x);
            assert(s[s.len() - 1] != x);
        }
        if s.contains(x) && s.last() != x {
            let k = choose|k: int| 0 <= k < s.len() && s[k] == x;
            assert(t[k] == x);
        }
        if s.last() == x {
            assert(s[s.len() - 1] == x);
        }
    }
}

/// The time-causal split holds out the newest favourites: with the favourites in
/// order of their times, and of their ids where the times are equal, the first
/// ones are trained on and the others are held out.
pub proof fn law_time_split(favs: Seq<(i64, i64)>, rounded: int)
    requires
        0 < favs.len() <= usize::MAX,
        0 <= rounded,
    ensures
        exists|sorted: Seq<(i64, i64)>| #[trigger]
            is_by_time(sorted, favs) && ({
                let (train, test) = time_halves(favs, rounded);
                &&& train + test == fav_ids(sorted)
                &&& train.len() > 0
                &&& 1 <= rounded < favs.len() ==> test.len() == rounded
                &&& rounded >= favs.len() > 1 ==> test.len() == favs.len() - 1
                &&& rounded == 0 && favs.len() > 1 ==> test.len() == 1
            }),
{
    let keys = time_keys(favs);
    order::law_every_list_has_an_order(keys);
    let o = order::int_order(keys);
    let sorted = order::arranged(favs, o);
    order::lemma_arranged_multiset(favs, o);
    assert forall|i: int, j: int| 0 <= i <= j < sorted.len() implies (#[trigger] sorted[i]).1 < (
    #[trigger] sorted[j]).1 || (sorted[i].1 == sorted[j].1 && sorted[i].0 <= sorted[j].0) by {
        if i < j {
            assert(order::int_before(keys, o[i] as int, o[j] as int));
        }
    }
    assert(is_by_time(sorted, favs));
    let p = split_point(favs.len() as int, rounded);
    let ids = order::arranged(fav_ids(favs), o);
    assert(ids =~= fav_ids(sorted));
    assert(ids.take(p) + ids.skip(p) =~= ids);
}

/// `sorted` holds the favourites by time, and by id where the times are equal.
pub open spec fn is_by_time(sorted: Seq<(i64, i64)>, favs: Seq<(i64, i64)>) -> bool {
    &&& sorted.to_multiset() == favs.to_multiset()
    &&& forall|i: int, j: int|
        0 <= i <= j < sorted.len() ==> (#[trigger] sorted[i]).1 < (#[trigger] sorted[j]).1 || (
        sorted[i].1 == sorted[j].1 && sorted[i].0 <= sorted[j].0)
}

// ---------------------------------------------------------------------------
// What a sample holds
// ---------------------------------------------------------------------------

/// The state of a stream `k` draws after `rng`.
pub open spec fn stream(rng: u64, k: nat) -> u64
    decreases k,
{
    if k == 0 {
        rng
    } else {
        xorshift(stream(rng, (k - 1) as nat))
    }
}

/// What `n` draws after `rng` point at in the catalog.
pub open spec fn picks(ids: Seq<i64>, rng: u64, n: nat) -> Seq<i64> {
    Seq::new(
        n,
        |k: int| ids[(stream(rng, (k + 1) as nat) as usize) as int % (ids.len() as int)],
    )
}

/// The first `n` values of a list, or all of it.
pub open spec fn cut_to(s: Seq<i64>, n: int) -> Seq<i64> {
    if n < s.len() {
        s.take(n)
    } else {
        s
    }
}

/// What `n` draws find that is not taken, each post where it is found first.
pub open spec fn found(ids: Seq<i64>, rng: u64, n: nat, taken: Set<i64>) -> Seq<i64> {
    tally::firsts(picks(ids, rng, n)).filter(|x: i64| !taken.contains(x))
}

proof fn lemma_pass_snoc(ids: Seq<i64>, d: Draw, target: int, n: nat)
    ensures
        uniform_pass(ids, d, target, n + 1) == ({
            let e = uniform_pass(ids, d, target, n);
            if e.out.len() < target {
                uniform_step(ids, e)
            } else {
                e
            }
        }),
    decreases n,
{
    reveal_with_fuel(uniform_pass, 2);
    if n > 0 && d.out.len() < target {
        lemma_pass_snoc(ids, uniform_step(ids, d), target, (n - 1) as nat);
    }
}

proof fn lemma_found_step(ids: Seq<i64>, rng: u64, n: nat, taken: Set<i64>)
    requires
        ids.len() > 0,
    ensures
        ({
            let x = picks(ids, rng, n + 1)[n as int];
            found(ids, rng, n + 1, taken) == (if taken.contains(x) || picks(ids, rng, n).contains(
                x,
            ) {
                found(ids, rng, n, taken)
            } else {
                found(ids, rng, n, taken).push(x)
            })
        }),
{
    reveal(Seq::filter);
    let now = picks(ids, rng, n);
    let x = picks(ids, rng, n + 1)[n as int];
    assert(picks(ids, rng, n + 1) =~= now.push(x));
    tally::lemma_firsts_push(now, x);
    let f = tally::firsts(now);
    assert(f.push(x).drop_last() =~= f);
}

proof fn lemma_found_members(ids: Seq<i64>, rng: u64, n: nat, taken: Set<i64>, x: i64)
    ensures
        found(ids, rng, n, taken).contains(x) <==> picks(ids, rng, n).contains(x)
            && !taken.contains(x),
{
    let now = picks(ids, rng, n);
    let f = tally::firsts(now);
    tally::lemma_firsts(now);
    let keep = |y: i64| !taken.contains(y);
    tally::lemma_times_filter(f, keep, x);
    tally::lemma_times_bounds(f, x);
    tally::lemma_times_bounds(f.filter(keep), x);
    assert(f.contains(x) <==> now.contains(x));
}

proof fn lemma_pass_finds(ids: Seq<i64>, d: Draw, target: int, n: nat)
    requires
        ids.len() > 0,
        target >= 0,
        d.out.len() == 0,
    ensures
        ({
            let e = uniform_pass(ids, d, target, n);
            let f = found(ids, d.rng, n, d.taken);
            &&& e.out == cut_to(f, target)
            &&& f.len() < target ==> e.rng == stream(d.rng, n) && forall|x: i64| #[trigger]
                e.taken.contains(x) <==> d.taken.contains(x) || picks(ids, d.rng, n).contains(x)
        }),
    decreases n,
{
    if n == 0 {
        reveal(Seq::filter);
        assert(picks(ids, d.rng, 0) =~= Seq::<i64>::empty());
        assert(found(ids, d.rng, 0, d.taken) =~= Seq::<i64>::empty());
        assert(d.out =~= Seq::<i64>::empty());
    } else {
        let m = (n - 1) as nat;
        lemma_pass_finds(ids, d, target, m);
        lemma_pass_snoc(ids, d, target, m);
        lemma_found_step(ids, d.rng, m, d.taken);
        let e = uniform_pass(ids, d, target, m);
        let f = found(ids, d.rng, m, d.taken);
        let g = found(ids, d.rng, n, d.taken);
        let now = picks(ids, d.rng, m);
        let x = picks(ids, d.rng, n)[m as int];
        assert(picks(ids, d.rng, n) =~= now.push(x));
        if f.len() < target {
            assert(e.out == f);
            assert(stream(d.rng, n) == xorshift(e.rng));
            assert(x == ids[slot(xorshift(e.rng), ids.len() as int)]);
            let h = uniform_step(ids, e);
            assert forall|y: i64| #[trigger] h.taken.contains(y) <==> d.taken.contains(y)
                || now.push(x).contains(y) by {
                if now.contains(y) {
                    let k = choose|k: int| 0 <= k < now.len() && now[k] == y;
                    assert(now.push(x)[k] == y);
                }
                if now.push(x).contains(y) && y != x {
                    let k = choose|k: int| 0 <= k < now.push(x).len() && now.push(x)[k] == y;
                    assert(now[k] == y);
                }
                assert(now.push(x)[m as int] == x);
                assert(e.taken.contains(y) <==> d.taken.contains(y) || now.contains(y));
            }
            assert(e.taken.contains(x) <==> d.taken.contains(x) || now.contains(x));
            assert(cut_to(g, target) =~= g);
        } else {
            assert(cut_to(g, target) =~= cut_to(f, target)) by {
                if g != f {
                    assert(f.push(x).take(target) =~= f.take(target));
                    if target == f.len() {
                        assert(f.take(target) =~= f);
                    }
                }
            }
        }
    }
}

/// Uniform negatives are what the stream of the sampler points at in the catalog,
/// in that order, each post once and without the excluded ones, up to the target.
/// Ten draws are made for each wanted post, but at least a hundred.
pub proof fn law_uniform_sample_follows_the_stream(
    catalog: Seq<i64>,
    excluded: Seq<i64>,
    target: int,
)
    requires
        catalog.len() > 0,
        0 <= target,
        10 * target <= usize::MAX,
    ensures
        uniform_sample(catalog, excluded, target).out == cut_to(
            found(
                catalog,
                NEG_SAMPLE_SEED,
                (if 10 * target > 100 {
                    10 * target
                } else {
                    100
                }) as nat,
                excluded.to_set(),
            ),
            target,
        ),
{
    let d = fresh_draw(excluded, NEG_SAMPLE_SEED);
    lemma_pass_finds(catalog, d, target, try_budget(target, 10, 100) as nat);
}

/// The pool of an account is what its own stream points at in the catalog, in that
/// order, each post once and without what is taken, up to the size of the pool.
pub proof fn law_hard_pool_follows_the_stream(
    catalog: Seq<i64>,
    pool_size: int,
    account_id: i32,
    taken: Set<i64>,
)
    requires
        catalog.len() > 0,
        0 < pool_size,
        10 * pool_size <= usize::MAX,
    ensures
        hard_pool(catalog, pool_size, account_id, taken).out == cut_to(
            found(
                catalog,
                account_seed(NEG_SAMPLE_SEED, account_id),
                (if 10 * pool_size > 100 {
                    10 * pool_size
                } else {
                    100
                }) as nat,
                taken,
            ),
            pool_size,
        ),
{
    let d = Draw { taken, out: Seq::empty(), rng: account_seed(NEG_SAMPLE_SEED, account_id) };
    lemma_pass_finds(catalog, d, pool_size, try_budget(pool_size, 10, 100) as nat);
}

/// A post of the catalog whose key lies in one of the windows, ends included.
pub open spec fn is_matched(
    ids: Seq<i64>,
    keys: Seq<i64>,
    windows: Seq<(i64, i64)>,
    id: i64,
) -> bool {
    exists|q: int, w: int|
        0 <= q < ids.len() && 0 <= w < windows.len() && #[trigger] ids[q] == id && (
        #[trigger] windows[w]).0 <= keys[q] <= windows[w].1
}

/// What a matched pass adds lies in a window of a held-out post.
pub proof fn law_matched_posts_match(
    ids: Seq<i64>,
    keys: Seq<i64>,
    order: Seq<u32>,
    windows: Seq<(i64, i64)>,
    d: Draw,
    target: int,
    tries: nat,
)
    requires
        keys.len() == ids.len(),
        index_sorted(keys, order),
        windows.len() > 0,
    ensures
        ({
            let e = matched_pass(ids, keys, order, windows, d, target, tries);
            forall|i: int|
                d.out.len() <= i < e.out.len() ==> is_matched(
                    ids,
                    keys,
                    windows,
                    #[trigger] e.out[i],
                )
        }),
    decreases tries,
{
    let e = matched_pass(ids, keys, order, windows, d, target, tries);
    if d.out.len() < target && tries > 0 {
        let r = xorshift(d.rng);
        lemma_slot_range(r, windows.len() as int);
        let at = slot(r, windows.len() as int);
        let w = windows[at];
        let lo = cut(keys, order, w.0 as int);
        let hi = cut(keys, order, w.1 + 1);
        let f = matched_step(ids, keys, order, windows, d);
        lemma_cut_exists(keys, order, w.0 as int, order.len() as int);
        lemma_cut_exists(keys, order, w.1 + 1, order.len() as int);
        lemma_matched_pass(ids, keys, order, windows, f, target, (tries - 1) as nat);
        law_matched_posts_match(ids, keys, order, windows, f, target, (tries - 1) as nat);
        if hi > lo {
            let r2 = xorshift(r);
            lemma_slot_range(r2, hi - lo);
            let p = lo + slot(r2, hi - lo);
            let q = order[p] as int;
            assert(keys[order[p] as int] >= w.0);
            assert(keys[order[p] as int] < w.1 + 1);
            assert(ids[q] == ids[order[p] as int] && windows[at] == w);
            assert(is_matched(ids, keys, windows, ids[q]));
        }
        assert forall|i: int| d.out.len() <= i < e.out.len() implies is_matched(
            ids,
            keys,
            windows,
            #[trigger] e.out[i],
        ) by {
            if i < f.out.len() {
                assert(e.out.take(f.out.len() as int)[i] == e.out[i]);
                assert(e.out[i] == f.out[i]);
            }
        }
    }
}

/// A post of the catalog was created within thirty days of a held-out post.
pub open spec fn is_contemporary(c: CatalogIndex, epochs: Seq<i64>, id: i64) -> bool {
    exists|q: int, k: int|
        0 <= q < c.ids@.len() && 0 <= k < epochs.len() && #[trigger] c.ids@[q] == id && (
        #[trigger] epochs[k]) - 30 * 24 * 60 * 60 <= c.created_at_epoch@[q] <= epochs[k] + 30 * 24
            * 60 * 60
}

/// Mixed negatives are a uniform share, posts whose favourite count lies in the
/// window of a held-out post, posts created within thirty days of one, and a top-up
/// to the target, in this order and none of them larger than its share.
pub proof fn law_mixed_shares(
    c: CatalogIndex,
    excluded: Seq<i64>,
    fav_windows: Seq<(i64, i64)>,
    epochs: Seq<i64>,
    target: int,
    target_uniform: int,
    target_pop: int,
    account_id: i32,
) -> (r: (int, int, int))
    requires
        c.wf(),
        fav_windows.len() == epochs.len(),
        0 <= target_uniform,
        0 <= target_pop,
        forall|i: int|
            0 <= i < epochs.len() ==> i64::MIN + WINDOW_SECS <= #[trigger] epochs[i] <= i64::MAX
                - WINDOW_SECS,
    ensures
        ({
            let out = mixed_sample(
                c,
                excluded,
                fav_windows,
                epochs,
                target,
                target_uniform,
                target_pop,
                account_id,
            ).out;
            let time_share = if target > target_uniform + target_pop {
                target - target_uniform - target_pop
            } else {
                0
            };
            &&& 0 <= r.0 <= r.1 <= r.2 <= out.len()
            &&& r.0 <= target_uniform
            &&& r.1 - r.0 <= target_pop
            &&& r.2 - r.1 <= time_share
            &&& r.2 < out.len() ==> out.len() <= target
            &&& forall|i: int|
                r.0 <= i < r.1 ==> is_matched(
                    c.ids@,
                    c.fav_counts@,
                    fav_windows,
                    #[trigger] out[i],
                )
            &&& forall|i: int| r.1 <= i < r.2 ==> is_contemporary(c, epochs, #[trigger] out[i])
        }),
{
    let ids = c.ids@;
    let d0 = fresh_draw(excluded, account_seed(NEG_SAMPLE_SEED, account_id));
    if ids.len() == 0 || epochs.len() == 0 {
        (0, 0, 0)
    } else {
        let t1 = try_budget(target_uniform, 5, 100) as nat;
        let d1 = uniform_pass(ids, d0, target_uniform, t1);
        lemma_uniform_pass(ids, d0, target_uniform, t1);
        let t2 = try_budget(target_pop, 5, 100) as nat;
        let d2 = if c.by_fav@.len() > 0 {
            matched_pass(
                ids,
                c.fav_counts@,
                c.by_fav@,
                fav_windows,
                d1,
                d1.out.len() + target_pop,
                t2,
            )
        } else {
            d1
        };
        if c.by_fav@.len() > 0 {
            let goal = d1.out.len() + target_pop;
            lemma_matched_pass(ids, c.fav_counts@, c.by_fav@, fav_windows, d1, goal, t2);
            law_matched_posts_match(ids, c.fav_counts@, c.by_fav@, fav_windows, d1, goal, t2);
        } else {
            lemma_extends_refl(d1, ids);
        }
        let share = remaining_share(target, target_uniform, target_pop);
        let t3 = try_budget(share, 5, 100) as nat;
        let aged = age_windows(epochs);
        let d3 = if c.by_age@.len() > 0 {
            matched_pass(
                ids,
                c.created_at_epoch@,
                c.by_age@,
                aged,
                d2,
                d2.out.len() + share,
                t3,
            )
        } else {
            d2
        };
        if c.by_age@.len() > 0 {
            let goal = d2.out.len() + share;
            lemma_matched_pass(ids, c.created_at_epoch@, c.by_age@, aged, d2, goal, t3);
            law_matched_posts_match(ids, c.created_at_epoch@, c.by_age@, aged, d2, goal, t3);
        } else {
            lemma_extends_refl(d2, ids);
        }
        let t4 = try_budget(target - d3.out.len(), 5, 50) as nat;
        let e = mixed_sample(
            c,
            excluded,
            fav_windows,
            epochs,
            target,
            target_uniform,
            target_pop,
            account_id,
        );
        lemma_extends_refl(d3, ids);
        if d3.out.len() < target {
            lemma_uniform_pass(ids, d3, target, t4);
        }
        let a = d1.out.len() as int;
        let b = d2.out.len() as int;
        let n = d3.out.len() as int;
        assert forall|i: int| 0 <= i < n implies #[trigger] e.out[i] == d3.out[i] by {
            assert(e.out.take(n)[i] == e.out[i]);
        }
        assert forall|i: int| a <= i < b implies is_matched(
            ids,
            c.fav_counts@,
            fav_windows,
            #[trigger] e.out[i],
        ) by {
            assert(e.out[i] == d3.out[i]);
            assert(d3.out.take(b)[i] == d3.out[i]);
            assert(d3.out[i] == d2.out[i]);
        }
        assert forall|i: int| b <= i < n implies is_contemporary(c, epochs, #[trigger] e.out[i]) by {
            assert(e.out[i] == d3.out[i]);
            assert(is_matched(ids, c.created_at_epoch@, aged, d3.out[i]));
            let (q, w) = choose|q: int, w: int|
                0 <= q < ids.len() && 0 <= w < aged.len() && #[trigger] ids[q] == d3.out[i] && (
                #[trigger] aged[w]).0 <= c.created_at_epoch@[q] <= aged[w].1;
            assert(aged[w] == ((epochs[w] - WINDOW_SECS) as i64, (epochs[w] + WINDOW_SECS) as i64));
            assert(c.ids@[q] == e.out[i]);
        }
        (a, b, n)
    }
}

/// Ten or five draws are made for each wanted post, but never fewer than the floor.
pub proof fn law_try_budget(target: int, factor: int, floor: int)
    requires
        0 <= target,
        0 < factor,
        0 <= floor,
        target * factor <= usize::MAX,
    ensures
        try_budget(target, factor, floor) >= floor,
        try_budget(target, factor, floor) >= target * factor,
        try_budget(target, factor, floor) == floor || try_budget(target, factor, floor) == target
            * factor,
{
}

/// A step of the stream goes with the exclusive or: it treats every bit of its
/// state alike, whatever the others are, and no state is lost on the way.
pub proof fn law_stream_step(a: u64, b: u64)
    ensures
        xorshift(a ^ b) == xorshift(a) ^ xorshift(b),
        xorshift(0) == 0,
        xorshift(a) == 0 ==> a == 0,
{
    assert({
        let p = a ^ b;
        let x = p ^ (p << 13);
        let y = x ^ (x >> 7);
        let u = a ^ (a << 13);
        let v = u ^ (u >> 7);
        let s = b ^ (b << 13);
        let t = s ^ (s >> 7);
        (y ^ (y << 17)) == ((v ^ (v << 17)) ^ (t ^ (t << 17)))
    }) by (bit_vector);
    assert({
        let u = a ^ (a << 13);
        let v = u ^ (u >> 7);
        (v ^ (v << 17)) == 0 ==> a == 0
    }) by (bit_vector);
    assert({
        let u = 0u64 ^ (0u64 << 13);
        let v = u ^ (u >> 7);
        (v ^ (v << 17)) == 0
    }) by (bit_vector);
}

/// Each account mixes its own number into the seed: the difference between two
/// streams of an account is that between their seeds.
pub proof fn law_account_seed(s: u64, t: u64, account_id: i32)
    ensures
        account_seed(s, account_id) ^ account_seed(t, account_id) == s ^ t,
{
    let x = (account_id as u64).wrapping_mul(ACCOUNT_SPREAD);
    assert((s ^ x) ^ (t ^ x) == s ^ t) by (bit_vector);
}

/// The positions of a catalog are ordered by what they are named for: favourite
/// counts, and times of creation.
pub proof fn law_catalog_orders(c: CatalogIndex, i: int, j: int)
    requires
        c.wf(),
    ensures
        0 <= i <= j < c.by_fav@.len() ==> c.fav_counts@[c.by_fav@[i] as int]
            <= c.fav_counts@[c.by_fav@[j] as int],
        0 <= i <= j < c.by_age@.len() ==> c.created_at_epoch@[c.by_age@[i] as int]
            <= c.created_at_epoch@[c.by_age@[j] as int],
        c.fav_counts@.len() == c.ids@.len() && c.created_at_epoch@.len() == c.ids@.len(),
{
}

} // verus!
