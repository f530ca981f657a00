//! The grid search as a state machine: single-knob passes with early exit, a
//! paired sweep, a categorical sweep. Scoring a probe and judging its outcome
//! happen outside; the machine says which probe comes next.

use vstd::prelude::*;

use crate::calibrate::cache;
use crate::text::text_eq;

verus! {

/// What the search needs to know of a knob.
pub struct KnobInfo {
    pub name: String,
    pub probes: usize,
    pub diversify_only: bool,
}

/// The positions of the knobs that take part: all of them when the diversifier
/// runs, otherwise those that do not depend on it.
pub open spec fn active_positions(knobs: Seq<KnobInfo>, diversify: bool) -> Seq<usize>
    decreases knobs.len(),
{
    if knobs.len() == 0 {
        Seq::empty()
    } else {
        let rest = active_positions(knobs.drop_last(), diversify);
        if diversify || !knobs.last().diversify_only {
            rest.push((knobs.len() - 1) as usize)
        } else {
            rest
        }
    }
}

pub fn active_knobs(knobs: &Vec<KnobInfo>, diversify: bool) -> (r: Vec<usize>)
    ensures
        r@ == active_positions(knobs@, diversify),
        r@.len() <= knobs@.len(),
        forall|i: int| 0 <= i < r@.len() ==> (#[trigger] r@[i]) < knobs@.len(),
{
    let mut r: Vec<usize> = Vec::new();
    let mut i: usize = 0;
    proof {
        assert(knobs@.take(0) =~= Seq::<KnobInfo>::empty());
    }
    while i < knobs.len()
        invariant
            i <= knobs.len(),
            r@ == active_positions(knobs@.take(i as int), diversify),
            r@.len() <= i,
            forall|k: int| 0 <= k < r@.len() ==> (#[trigger] r@[k]) < knobs@.len(),
        decreases knobs.len() - i,
    {
        proof {
            assert(knobs@.take(i + 1).drop_last() =~= knobs@.take(i as int));
        }
        if diversify || !knobs[i].diversify_only {
            r.push(i);
        }
        i += 1;
    }
    proof {
        assert(knobs@.take(knobs@.len() as int) =~= knobs@);
    }
    r
}

/// The first active knob of the given name, as a position in `active`.
pub fn knob_by_name(knobs: &Vec<KnobInfo>, active: &Vec<usize>, name: &str) -> (r: Option<usize>)
    requires
        forall|i: int| 0 <= i < active.len() ==> (#[trigger] active@[i]) < knobs.len(),
    ensures
        match r {
            Some(i) => {
                &&& i < active.len()
                &&& knobs@[active@[i as int] as int].name@ == name@
                &&& forall|k: int|
                    0 <= k < i ==> knobs@[#[trigger] active@[k] as int].name@ != name@
            },
            None => forall|k: int|
                0 <= k < active.len() ==> knobs@[#[trigger] active@[k] as int].name@ != name@,
        },
{
    let mut i: usize = 0;
    while i < active.len()
        invariant
            i <= active.len(),
            forall|k: int| 0 <= k < active.len() ==> (#[trigger] active@[k]) < knobs.len(),
            forall|k: int| 0 <= k < i ==> knobs@[#[trigger] active@[k] as int].name@ != name@,
        decreases active.len() - i,
    {
        if text_eq(knobs[active[i]].name.as_str(), name) {
            return Some(i);
        }
        i += 1;
    }
    None
}

/// The sum of the first `n` counts.
pub open spec fn sum_first(v: Seq<usize>, n: int) -> int
    decreases n,
{
    if n <= 0 {
        0
    } else {
        sum_first(v, n - 1) + v[n - 1]
    }
}

/// The sum of all counts.
pub open spec fn total(v: Seq<usize>) -> int {
    sum_first(v, v.len() as int)
}

proof fn lemma_sum_monotone(v: Seq<usize>, i: int, j: int)
    requires
        0 <= i <= j <= v.len(),
    ensures
        0 <= sum_first(v, i) <= sum_first(v, j),
    decreases j,
{
    if j > 0 {
        if i < j {
            lemma_sum_monotone(v, i, j - 1);
        } else {
            lemma_sum_monotone(v, i - 1, j - 1);
        }
    }
}

/// How many deltas each list has.
pub open spec fn counts_of(probes: Seq<Vec<u32>>) -> Seq<usize> {
    probes.map_values(|d: Vec<u32>| d.len())
}

/// Two deltas, as the bits of floating-point numbers, are equal: the same number, or
/// both zero. What is no number equals nothing.
pub open spec fn same_delta(a: u32, b: u32) -> bool {
    &&& cache::is_number(a)
    &&& cache::is_number(b)
    &&& a == b || (a % 0x8000_0000 == 0 && b % 0x8000_0000 == 0)
}

/// The first position at or behind `j` of a delta that equals `x`; zero where there
/// is none.
pub open spec fn first_from(d: Seq<u32>, x: u32, j: int) -> int
    decreases d.len() - j,
{
    if j >= d.len() {
        0
    } else if same_delta(d[j], x) {
        j
    } else {
        first_from(d, x, j + 1)
    }
}

/// The first position of a delta that equals the one at `i`.
pub open spec fn first_equal(d: Seq<u32>, i: int) -> int {
    first_from(d, d[i], 0)
}

proof fn lemma_first_from(d: Seq<u32>, i: int, j: int)
    requires
        0 <= j <= i < d.len(),
    ensures
        0 <= first_from(d, d[i], j) <= i,
    decreases i - j,
{
    if !same_delta(d[j], d[i]) {
        if j < i {
            lemma_first_from(d, i, j + 1);
        } else {
            lemma_none_from(d, d[i], i + 1);
        }
    }
}

proof fn lemma_none_from(d: Seq<u32>, x: u32, j: int)
    requires
        !cache::is_number(x),
        0 <= j,
    ensures
        first_from(d, x, j) == 0,
    decreases d.len() - j,
{
    if j < d.len() {
        lemma_none_from(d, x, j + 1);
    }
}

/// The first position of a delta that equals the one at `i`.
fn first_position(d: &Vec<u32>, i: usize) -> (r: usize)
    requires
        i < d.len(),
    ensures
        r == first_equal(d@, i as int),
        r <= i,
{
    proof {
        lemma_first_from(d@, i as int, 0);
    }
    let mut j: usize = 0;
    while j < d.len()
        invariant
            i < d.len(),
            j <= d.len(),
            first_from(d@, d@[i as int], j as int) == first_equal(d@, i as int),
            first_equal(d@, i as int) <= i,
        decreases d.len() - j,
    {
        let a: u32 = d[j];
        let b: u32 = d[i];
        if number(a) && number(b) && (a == b || (a % 0x8000_0000 == 0 && b % 0x8000_0000 == 0)) {
            return j;
        }
        j += 1;
    }
    0
}

fn number(a: u32) -> (r: bool)
    ensures
        r == cache::is_number(a),
{
    a % 0x8000_0000 <= 0x7f80_0000
}

/// The shape of a search: the probes of each active knob, as the bits of its deltas,
/// passes, pairs of knobs and candidate values of the categorical sweep.
pub struct GridPlan {
    pub probes: Vec<Vec<u32>>,
    pub passes: u64,
    pub pairs: u64,
    pub candidates: u64,
    pub pairs_only: bool,
    pub run_paired: bool,
}

impl GridPlan {
    /// How many probes each knob has.
    pub open spec fn counts(&self) -> Seq<usize> {
        counts_of(self.probes@)
    }

    pub open spec fn total(&self) -> int {
        total(self.counts())
    }

    /// No knob tries the same delta twice, and every delta is a number.
    pub open spec fn has_distinct_deltas(&self) -> bool {
        forall|k: int, i: int|
            0 <= k < self.probes@.len() && 0 <= i < self.probes@[k]@.len() ==> #[trigger] first_equal(
                self.probes@[k]@,
                i,
            ) == i
    }

    /// All probes of the search fit a counter.
    pub open spec fn fits(&self) -> bool {
        self.total() * self.passes + 4 * self.pairs + self.candidates <= u64::MAX
    }

    pub open spec fn sweeps_pairs(&self) -> bool {
        self.run_paired || self.pairs_only
    }
}

#[derive(Clone, Copy, Debug, PartialEq, Eq, Structural)]
pub enum GridStage {
    Single,
    Paired,
    Categorical,
    Done,
}

/// Where the search stands, and what it has counted.
#[derive(Clone, Copy, Debug, PartialEq, Eq, Structural)]
pub struct GridCursor {
    pub stage: GridStage,
    pub pass: u64,
    pub knob: usize,
    pub probe: usize,
    pub misses: u8,
    pub pass_changed: bool,
    pub pass_evals: u64,
    pub pair: u64,
    pub combo: u64,
    pub candidate: u64,
    pub evals_done: u64,
    pub skipped_nan: u64,
    pub skipped_early: u64,
    pub planned: u64,
}

/// How a probe went.
#[derive(Clone, Copy, Debug, PartialEq, Eq, Structural)]
pub enum ProbeOutcome {
    /// The score was not a finite number.
    NotFinite,
    /// The score did not clear the acceptance threshold.
    Rejected,
    /// The probe is the new best.
    Accepted,
}

/// What is to be scored next.
#[derive(Clone, Copy, Debug, PartialEq, Eq, Structural)]
pub enum GridAction {
    /// One probe of one knob.
    Single { pass: u64, knob: usize, probe: usize },
    /// One of the four sign combinations of a pair of knobs.
    Pair { pair: u64, combo: u64 },
    /// One candidate value.
    Category { candidate: u64 },
    /// The search is over.
    Finish,
}

/// The cursor before anything is scored.
pub open spec fn grid_origin(p: GridPlan) -> GridCursor {
    GridCursor {
        stage: if p.pairs_only || p.passes == 0 {
            GridStage::Paired
        } else {
            GridStage::Single
        },
        pass: 0,
        knob: 0,
        probe: 0,
        misses: 0,
        pass_changed: false,
        pass_evals: 0,
        pair: 0,
        combo: 0,
        candidate: 0,
        evals_done: 0,
        skipped_nan: 0,
        skipped_early: 0,
        planned: if p.pairs_only || p.passes == 0 {
            0
        } else {
            p.total() as u64
        },
    }
}

/// One move of a cursor that has nothing to score where it stands; `None` if it
/// has, or if the search is over.
///
/// A pass that changed nothing is the last. A knob is left when its probes are
/// spent, or after two misses in a row; its probes from the first that equals the
/// next one on count as skipped.
pub open spec fn grid_move(p: GridPlan, c: GridCursor) -> Option<GridCursor> {
    match c.stage {
        GridStage::Single => if c.knob >= p.counts().len() {
            if c.pass_changed && c.pass + 1 < p.passes {
                Some(
                    GridCursor {
                        pass: (c.pass + 1) as u64,
                        knob: 0,
                        probe: 0,
                        misses: 0,
                        pass_changed: false,
                        pass_evals: 0,
                        planned: (c.planned + p.total()) as u64,
                        ..c
                    },
                )
            } else {
                Some(GridCursor { stage: GridStage::Paired, pair: 0, combo: 0, ..c })
            }
        } else if c.probe >= p.counts()[c.knob as int] {
            Some(GridCursor { knob: (c.knob + 1) as usize, probe: 0, misses: 0, ..c })
        } else if c.misses >= 2 {
            Some(
                GridCursor {
                    knob: (c.knob + 1) as usize,
                    probe: 0,
                    misses: 0,
                    skipped_early: (c.skipped_early + (p.counts()[c.knob as int] - first_equal(
                        p.probes@[c.knob as int]@,
                        c.probe as int,
                    ))) as u64,
                    ..c
                },
            )
        } else {
            None
        },
        GridStage::Paired => if !p.sweeps_pairs() || c.pair >= p.pairs {
            Some(GridCursor { stage: GridStage::Categorical, candidate: 0, ..c })
        } else if c.combo >= 4 {
            Some(GridCursor { pair: (c.pair + 1) as u64, combo: 0, ..c })
        } else {
            None
        },
        GridStage::Categorical => if c.candidate >= p.candidates {
            Some(GridCursor { stage: GridStage::Done, ..c })
        } else {
            None
        },
        GridStage::Done => None,
    }
}

/// An upper bound on the moves that a cursor can make.
pub open spec fn stage_rank(s: GridStage) -> int {
    match s {
        GridStage::Single => 3,
        GridStage::Paired => 2,
        GridStage::Categorical => 1,
        GridStage::Done => 0,
    }
}

pub open spec fn pass_room(p: GridPlan, c: GridCursor) -> int {
    if c.stage == GridStage::Single && c.pass < p.passes {
        p.passes - c.pass
    } else {
        0
    }
}

pub open spec fn item_room(p: GridPlan, c: GridCursor) -> int {
    match c.stage {
        GridStage::Single => if c.knob < p.counts().len() {
            p.counts().len() - c.knob
        } else {
            0
        },
        GridStage::Paired => if c.pair < p.pairs {
            p.pairs - c.pair
        } else {
            0
        },
        _ => 0,
    }
}

/// Moves the cursor on to the next thing to score.
pub open spec fn grid_settle(p: GridPlan, c: GridCursor) -> GridCursor
    decreases stage_rank(c.stage), pass_room(p, c), item_room(p, c),
{
    match grid_move(p, c) {
        Some(n) => if decreases_to!(
            stage_rank(c.stage), pass_room(p, c), item_room(p, c)
            => stage_rank(n.stage), pass_room(p, n), item_room(p, n)
        ) {
            grid_settle(p, n)
        } else {
            n
        },
        None => c,
    }
}

/// Books the outcome of the probe under the cursor.
pub open spec fn grid_book(p: GridPlan, c: GridCursor, o: ProbeOutcome) -> GridCursor {
    let nan = if o == ProbeOutcome::NotFinite {
        (c.skipped_nan + 1) as u64
    } else {
        c.skipped_nan
    };
    match c.stage {
        GridStage::Single => GridCursor {
            probe: (c.probe + 1) as usize,
            misses: if o == ProbeOutcome::Accepted {
                0
            } else {
                (c.misses + 1) as u8
            },
            pass_changed: c.pass_changed || o == ProbeOutcome::Accepted,
            pass_evals: (c.pass_evals + 1) as u64,
            evals_done: (c.evals_done + 1) as u64,
            skipped_nan: nan,
            ..c
        },
        GridStage::Paired => GridCursor { combo: (c.combo + 1) as u64, skipped_nan: nan, ..c },
        GridStage::Categorical => GridCursor {
            candidate: (c.candidate + 1) as u64,
            skipped_nan: nan,
            ..c
        },
        GridStage::Done => c,
    }
}

/// The cursor after the probe under it went as `o`.
pub open spec fn grid_step(p: GridPlan, c: GridCursor, o: ProbeOutcome) -> GridCursor {
    grid_settle(p, grid_book(p, c, o))
}

/// What the cursor points at.
pub open spec fn grid_action(c: GridCursor) -> GridAction {
    match c.stage {
        GridStage::Single => GridAction::Single { pass: c.pass, knob: c.knob, probe: c.probe },
        GridStage::Paired => GridAction::Pair { pair: c.pair, combo: c.combo },
        GridStage::Categorical => GridAction::Category { candidate: c.candidate },
        GridStage::Done => GridAction::Finish,
    }
}

/// Every planned probe was scored or skipped, and, where no delta occurs twice, not
/// both.
pub open spec fn is_accounted(p: GridPlan, c: GridCursor) -> bool {
    &&& c.evals_done <= c.planned
    &&& c.skipped_early <= c.planned
    &&& c.evals_done + c.skipped_early >= c.planned
    &&& p.has_distinct_deltas() ==> c.evals_done + c.skipped_early == c.planned
}

/// The books balance: every planned probe of a finished pass was scored or
/// skipped, and so was every probe before the cursor.
pub open spec fn grid_books(p: GridPlan, c: GridCursor) -> bool {
    &&& c.skipped_nan <= c.evals_done + 4 * c.pair + c.combo + c.candidate
    &&& c.pass_evals <= c.evals_done
    &&& c.misses <= 2
    &&& c.planned <= p.total() * p.passes
    &&& c.pair <= p.pairs
    &&& c.combo <= 4
    &&& (c.pair == p.pairs ==> c.combo == 0)
    &&& c.candidate <= p.candidates
    &&& match c.stage {
        GridStage::Single => {
            &&& c.pass < p.passes
            &&& c.knob <= p.counts().len()
            &&& c.knob < p.counts().len() ==> c.probe <= p.counts()[c.knob as int]
            &&& c.knob == p.counts().len() ==> c.probe == 0
            &&& c.planned == p.total() * (c.pass + 1)
            &&& ({
                let before = p.total() * c.pass + sum_first(p.counts(), c.knob as int);
                &&& c.evals_done <= before + c.probe
                &&& c.skipped_early <= before
                &&& c.evals_done + c.skipped_early >= before + c.probe
                &&& p.has_distinct_deltas() ==> c.evals_done + c.skipped_early == before + c.probe
            })
            &&& c.pair == 0 && c.combo == 0 && c.candidate == 0
        },
        GridStage::Paired => is_accounted(p, c) && c.candidate == 0,
        _ => is_accounted(p, c),
    }
}

/// The cursor points at something to score, or at the end.
pub open spec fn grid_ready(p: GridPlan, c: GridCursor) -> bool {
    grid_books(p, c) && grid_move(p, c) is None
}

proof fn lemma_pass_total(p: GridPlan, pass: int)
    requires
        0 <= pass < p.passes,
    ensures
        0 <= p.total(),
        p.total() * pass + p.total() == p.total() * (pass + 1),
        p.total() * (pass + 1) <= p.total() * p.passes,
        0 <= p.total() * pass,
{
    lemma_sum_monotone(p.counts(), 0, p.counts().len() as int);
    let t = p.total();
    let q = p.passes as int;
    assert(t * pass + t == t * (pass + 1)) by (nonlinear_arith);
    assert(t * (pass + 1) <= t * q) by (nonlinear_arith)
        requires
            0 <= t,
            pass + 1 <= q,
    ;
    assert(0 <= t * pass) by (nonlinear_arith)
        requires
            0 <= t,
            0 <= pass,
    ;
}

proof fn lemma_move_keeps_books(p: GridPlan, c: GridCursor)
    requires
        p.fits(),
        grid_books(p, c),
        grid_move(p, c) is Some,
    ensures
        grid_books(p, grid_move(p, c)->0),
        ({
            let n = grid_move(p, c)->0;
            decreases_to!(
                stage_rank(c.stage), pass_room(p, c), item_room(p, c)
                => stage_rank(n.stage), pass_room(p, n), item_room(p, n)
            )
        }),
{
    assert(p.probes.len() == p.counts().len());
    if c.stage == GridStage::Single {
        lemma_pass_total(p, c.pass as int);
        if c.knob >= p.counts().len() {
            if c.pass_changed && c.pass + 1 < p.passes {
                lemma_pass_total(p, c.pass + 1);
            }
        } else {
            assert(sum_first(p.counts(), c.knob + 1) == sum_first(p.counts(), c.knob as int)
                + p.counts()[c.knob as int]);
            if c.probe < p.counts()[c.knob as int] {
                lemma_first_from(p.probes@[c.knob as int]@, c.probe as int, 0);
            }
            lemma_sum_monotone(p.counts(), c.knob + 1, p.counts().len() as int);
            lemma_sum_monotone(p.counts(), 0, c.knob as int);
        }
    }
}

proof fn lemma_book_keeps_books(p: GridPlan, c: GridCursor, o: ProbeOutcome)
    requires
        p.fits(),
        grid_ready(p, c),
        c.stage != GridStage::Done,
    ensures
        grid_books(p, grid_book(p, c, o)),
        c.evals_done < u64::MAX,
        c.skipped_nan < u64::MAX,
{
    lemma_sum_monotone(p.counts(), 0, p.counts().len() as int);
    if c.stage == GridStage::Single {
        lemma_pass_total(p, c.pass as int);
        assert(sum_first(p.counts(), c.knob + 1) == sum_first(p.counts(), c.knob as int)
            + p.counts()[c.knob as int]);
        lemma_sum_monotone(p.counts(), c.knob + 1, p.counts().len() as int);
        lemma_sum_monotone(p.counts(), 0, c.knob as int);
    }
}

/// A grid search in progress.
pub struct GridSearch {
    pub plan: GridPlan,
    pub cursor: GridCursor,
}

fn sum_counts(v: &Vec<Vec<u32>>, cap: u64) -> (r: u64)
    requires
        total(counts_of(v@)) <= cap,
    ensures
        r == total(counts_of(v@)),
{
    let ghost n_of = counts_of(v@);
    let mut i: usize = 0;
    let mut n: u64 = 0;
    while i < v.len()
        invariant
            i <= v.len(),
            n_of == counts_of(v@),
            total(n_of) <= cap,
            n == sum_first(n_of, i as int),
        decreases v.len() - i,
    {
        proof {
            lemma_sum_monotone(n_of, i + 1, n_of.len() as int);
            lemma_sum_monotone(n_of, 0, i as int);
        }
        n = n + v[i].len() as u64;
        i += 1;
    }
    n
}

impl GridSearch {
    pub open spec fn wf(&self) -> bool {
        self.plan.fits() && grid_ready(self.plan, self.cursor)
    }

    /// One move of the cursor, where there is one.
    fn advance(&mut self) -> (moved: bool)
        requires
            old(self).plan.fits(),
            grid_books(old(self).plan, old(self).cursor),
        ensures
            final(self).plan == old(self).plan,
            match grid_move(old(self).plan, old(self).cursor) {
                Some(n) => moved && final(self).cursor == n,
                None => !moved && final(self).cursor == old(self).cursor,
            },
    {
        proof {
            if grid_move(self.plan, self.cursor) is Some {
                lemma_move_keeps_books(self.plan, self.cursor);
            }
            lemma_sum_monotone(self.plan.counts(), 0, self.plan.counts().len() as int);
            assert(self.plan.counts().len() == self.plan.probes@.len());
        }
        let mut c = self.cursor;
        let moved: bool = match c.stage {
            GridStage::Single => {
                if c.knob >= self.plan.probes.len() {
                    if c.pass_changed && c.pass < self.plan.passes - 1 {
                        proof {
                            lemma_pass_total(self.plan, c.pass + 1);
                            lemma_pass_total(self.plan, c.pass as int);
                        }
                        let t: u64 = sum_counts(&self.plan.probes, u64::MAX);
                        c.pass = c.pass + 1;
                        c.knob = 0;
                        c.probe = 0;
                        c.misses = 0;
                        c.pass_changed = false;
                        c.pass_evals = 0;
                        c.planned = c.planned + t;
                    } else {
                        c.stage = GridStage::Paired;
                        c.pair = 0;
                        c.combo = 0;
                    }
                    true
                } else if c.probe >= self.plan.probes[c.knob].len() {
                    c.knob = c.knob + 1;
                    c.probe = 0;
                    c.misses = 0;
                    true
                } else if c.misses >= 2 {
                    proof {
                        lemma_pass_total(self.plan, c.pass as int);
                        lemma_sum_monotone(
                            self.plan.counts(),
                            c.knob + 1,
                            self.plan.counts().len() as int,
                        );
                    }
                    let knob = &self.plan.probes[c.knob];
                    let left: usize = knob.len() - first_position(knob, c.probe);
                    c.skipped_early = c.skipped_early + left as u64;
                    c.knob = c.knob + 1;
                    c.probe = 0;
                    c.misses = 0;
                    true
                } else {
                    false
                }
            },
            GridStage::Paired => {
                if !(self.plan.run_paired || self.plan.pairs_only) || c.pair >= self.plan.pairs {
                    c.stage = GridStage::Categorical;
                    c.candidate = 0;
                    true
                } else if c.combo >= 4 {
                    c.pair = c.pair + 1;
                    c.combo = 0;
                    true
                } else {
                    false
                }
            },
            GridStage::Categorical => {
                if c.candidate >= self.plan.candidates {
                    c.stage = GridStage::Done;
                    true
                } else {
                    false
                }
            },
            GridStage::Done => false,
        };
        self.cursor = c;
        moved
    }

    fn settle(&mut self)
        requires
            old(self).plan.fits(),
            grid_books(old(self).plan, old(self).cursor),
        ensures
            final(self).plan == old(self).plan,
            final(self).cursor == grid_settle(old(self).plan, old(self).cursor),
            final(self).wf(),
    {
        let ghost p = self.plan;
        let ghost goal = grid_settle(self.plan, self.cursor);
        loop
            invariant
                self.plan == p,
                p.fits(),
                grid_books(p, self.cursor),
                goal == grid_settle(p, self.cursor),
            ensures
                self.plan == p,
                grid_ready(p, self.cursor),
                goal == self.cursor,
            decreases
                    stage_rank(self.cursor.stage),
                    pass_room(p, self.cursor),
                    item_room(p, self.cursor),
        {
            proof {
                if grid_move(p, self.cursor) is Some {
                    lemma_move_keeps_books(p, self.cursor);
                }
            }
            if !self.advance() {
                break;
            }
        }
    }

    /// Starts a search.
    pub fn new(plan: GridPlan) -> (r: GridSearch)
        requires
            plan.fits(),
        ensures
            r.plan == plan,
            r.cursor == grid_settle(plan, grid_origin(plan)),
            r.wf(),
    {
        proof {
            lemma_sum_monotone(plan.counts(), 0, plan.counts().len() as int);
            if plan.passes > 0 {
                lemma_pass_total(plan, 0);
            } else {
                assert(plan.total() * plan.passes == 0) by (nonlinear_arith)
                    requires
                        plan.passes == 0,
                ;
            }
        }
        let single: bool = !(plan.pairs_only || plan.passes == 0);
        let planned: u64 = if single {
            sum_counts(&plan.probes, u64::MAX)
        } else {
            0
        };
        let cursor = GridCursor {
            stage: if single {
                GridStage::Single
            } else {
                GridStage::Paired
            },
            pass: 0,
            knob: 0,
            probe: 0,
            misses: 0,
            pass_changed: false,
            pass_evals: 0,
            pair: 0,
            combo: 0,
            candidate: 0,
            evals_done: 0,
            skipped_nan: 0,
            skipped_early: 0,
            planned,
        };
        let mut s = GridSearch { plan, cursor };
        proof {
            assert(s.cursor == grid_origin(plan));
            assert(0 <= plan.total() * plan.passes) by (nonlinear_arith)
                requires
                    0 <= plan.total(),
                    0 <= plan.passes,
            ;
            assert(grid_books(plan, s.cursor));
        }
        s.settle();
        s
    }

    /// What is to be scored next.
    pub fn action(&self) -> (r: GridAction)
        ensures
            r == grid_action(self.cursor),
    {
        let c = self.cursor;
        match c.stage {
            GridStage::Single => GridAction::Single { pass: c.pass, knob: c.knob, probe: c.probe },
            GridStage::Paired => GridAction::Pair { pair: c.pair, combo: c.combo },
            GridStage::Categorical => GridAction::Category { candidate: c.candidate },
            GridStage::Done => GridAction::Finish,
        }
    }

    /// Books the outcome of the current action and moves on to the next.
    pub fn report(&mut self, outcome: ProbeOutcome)
        requires
            old(self).wf(),
        ensures
            final(self).plan == old(self).plan,
            final(self).cursor == grid_step(old(self).plan, old(self).cursor, outcome),
            final(self).wf(),
    {
        let mut c = self.cursor;
        proof {
            if c.stage != GridStage::Done {
                lemma_book_keeps_books(self.plan, c, outcome);
            }
        }
        if c.stage != GridStage::Done && outcome == ProbeOutcome::NotFinite {
            c.skipped_nan = c.skipped_nan + 1;
        }
        match c.stage {
            GridStage::Single => {
                c.probe = c.probe + 1;
                if outcome == ProbeOutcome::Accepted {
                    c.misses = 0;
                    c.pass_changed = true;
                } else {
                    c.misses = c.misses + 1;
                }
                c.pass_evals = c.pass_evals + 1;
                c.evals_done = c.evals_done + 1;
            },
            GridStage::Paired => {
                c.combo = c.combo + 1;
            },
            GridStage::Categorical => {
                c.candidate = c.candidate + 1;
            },
            GridStage::Done => {},
        }
        self.cursor = c;
        proof {
            assert(self.cursor == grid_book(old(self).plan, old(self).cursor, outcome));
        }
        self.settle();
    }
}

/// Once the single-knob passes are over, every planned probe was scored or skipped,
/// and, where no knob tries a delta twice, not both.
pub proof fn law_every_planned_probe_is_accounted_for(p: GridPlan, c: GridCursor)
    requires
        grid_ready(p, c),
        c.stage != GridStage::Single,
    ensures
        c.evals_done + c.skipped_early >= c.planned,
        p.has_distinct_deltas() ==> c.evals_done + c.skipped_early == c.planned,
{
}

/// A probe that is scored in a single-knob pass never follows two misses of the
/// same knob.
pub proof fn law_early_exit(p: GridPlan, c: GridCursor)
    requires
        grid_ready(p, c),
        c.stage == GridStage::Single,
    ensures
        c.misses < 2,
        c.knob < p.counts().len(),
        c.probe < p.counts()[c.knob as int],
{
}

/// The signs of the two deltas in each of the four combinations of a pair.
pub fn combo_signs(combo: u64) -> (r: (bool, bool))
    ensures
        r == (combo < 2, combo % 2 == 0),
{
    (combo < 2, combo % 2 == 0)
}

/// A knob takes part where the diversifier runs or it does not depend on that, and
/// knobs keep their order.
pub proof fn law_active_knobs(knobs: Seq<KnobInfo>, diversify: bool)
    requires
        knobs.len() <= usize::MAX,
    ensures
        forall|i: usize| #[trigger]
            active_positions(knobs, diversify).contains(i) <==> i < knobs.len() && (diversify
                || !knobs[i as int].diversify_only),
        forall|a: int, b: int|
            0 <= a < b < active_positions(knobs, diversify).len() ==> #[trigger] active_positions(
                knobs,
                diversify,
            )[a] < #[trigger] active_positions(knobs, diversify)[b],
    decreases knobs.len(),
{
    if knobs.len() > 0 {
        let init = knobs.drop_last();
        law_active_knobs(init, diversify);
        let rest = active_positions(init, diversify);
        let all = active_positions(knobs, diversify);
        let n = init.len() as usize;
        assert forall|a: int| 0 <= a < rest.len() implies (#[trigger] rest[a]) < init.len() by {
            assert(rest.contains(rest[a]));
        }
        assert forall|i: usize| #[trigger] all.contains(i) <==> i < knobs.len() && (diversify
            || !knobs[i as int].diversify_only) by {
            if i < init.len() {
                assert(init[i as int] == knobs[i as int]);
            }
            if all.contains(i) {
                let k = choose|k: int| 0 <= k < all.len() && all[k] == i;
                if k < rest.len() {
                    assert(rest[k] == i);
                    assert(rest.contains(i));
                }
            }
            if rest.contains(i) {
                let k = choose|k: int| 0 <= k < rest.len() && rest[k] == i;
                assert(all[k] == i);
            }
            if i == n && (diversify || !knobs.last().diversify_only) {
                assert(all[rest.len() as int] == i);
            }
        }
    }
}

proof fn lemma_settle_stays(p: GridPlan, c: GridCursor)
    requires
        grid_move(p, c) is None,
    ensures
        grid_settle(p, c) == c,
{
}

proof fn lemma_settle_moves(p: GridPlan, c: GridCursor)
    requires
        p.fits(),
        grid_books(p, c),
        grid_move(p, c) is Some,
    ensures
        grid_settle(p, c) == grid_settle(p, grid_move(p, c)->0),
        grid_books(p, grid_move(p, c)->0),
{
    lemma_move_keeps_books(p, c);
}

/// After a probe of a knob comes the next probe of that knob, unless this was the
/// last one or the second in a row that was not accepted; then the next knob is
/// tried from its first probe.
pub proof fn law_next_single_probe(p: GridPlan, c: GridCursor, o: ProbeOutcome)
    requires
        p.fits(),
        grid_ready(p, c),
        c.stage == GridStage::Single,
    ensures
        ({
            let next = grid_action(grid_step(p, c, o));
            let more = c.probe + 1 < p.probes@[c.knob as int]@.len();
            let second_miss = o != ProbeOutcome::Accepted && c.misses >= 1;
            &&& more && !second_miss ==> next == (GridAction::Single {
                pass: c.pass,
                knob: c.knob,
                probe: (c.probe + 1) as usize,
            })
            &&& !(more && !second_miss) && c.knob + 1 < p.probes@.len() && p.probes@[c.knob
                + 1]@.len() > 0 ==> next == (GridAction::Single {
                pass: c.pass,
                knob: (c.knob + 1) as usize,
                probe: 0,
            })
        }),
        grid_step(p, c, o).evals_done == c.evals_done + 1,
{
    let b = grid_book(p, c, o);
    lemma_book_keeps_books(p, c, o);
    let more = c.probe + 1 < p.probes@[c.knob as int]@.len();
    let second_miss = o != ProbeOutcome::Accepted && c.misses >= 1;
    lemma_settle_keeps_evals(p, b);
    assert(p.probes.len() == p.probes@.len());
    assert(p.counts()[c.knob as int] == p.probes@[c.knob as int]@.len());
    if more && !second_miss {
        assert(grid_move(p, b) is None);
        lemma_settle_stays(p, b);
    } else {
        assert(grid_move(p, b) is Some);
        lemma_settle_moves(p, b);
        let n = grid_move(p, b)->0;
        if c.knob + 1 < p.probes@.len() && p.probes@[c.knob + 1]@.len() > 0 {
            assert(n.knob == c.knob + 1);
            assert(p.counts()[c.knob + 1] == p.probes@[c.knob + 1]@.len());
            assert(grid_move(p, n) is None);
            lemma_settle_stays(p, n);
        }
    }
}

proof fn lemma_settle_keeps_evals(p: GridPlan, c: GridCursor)
    requires
        p.fits(),
        grid_books(p, c),
    ensures
        grid_settle(p, c).evals_done == c.evals_done,
        grid_settle(p, c).skipped_nan == c.skipped_nan,
    decreases stage_rank(c.stage), pass_room(p, c), item_room(p, c),
{
    if grid_move(p, c) is Some {
        lemma_settle_moves(p, c);
        lemma_move_keeps_books(p, c);
        lemma_settle_keeps_evals(p, grid_move(p, c)->0);
    }
}

/// When the last knob is done, another pass follows exactly where this one
/// accepted something and passes are left; else the search goes on to the pairs,
/// or to the candidates where pairs are not swept.
pub proof fn law_next_pass(p: GridPlan, c: GridCursor, o: ProbeOutcome)
    requires
        p.fits(),
        grid_ready(p, c),
        c.stage == GridStage::Single,
        c.knob + 1 == p.probes@.len(),
        c.probe + 1 == p.probes@[c.knob as int]@.len() || (o != ProbeOutcome::Accepted && c.misses
            >= 1),
        p.probes@[0]@.len() > 0,
    ensures
        ({
            let next = grid_action(grid_step(p, c, o));
            let changed = c.pass_changed || o == ProbeOutcome::Accepted;
            &&& changed && c.pass + 1 < p.passes ==> next == (GridAction::Single {
                pass: (c.pass + 1) as u64,
                knob: 0,
                probe: 0,
            })
            &&& !(changed && c.pass + 1 < p.passes) && p.sweeps_pairs() && p.pairs > 0 ==> next == (
            GridAction::Pair { pair: 0, combo: 0 })
            &&& !(changed && c.pass + 1 < p.passes) && !(p.sweeps_pairs() && p.pairs > 0)
                && p.candidates > 0 ==> next == (GridAction::Category { candidate: 0 })
        }),
{
    let b = grid_book(p, c, o);
    lemma_book_keeps_books(p, c, o);
    assert(p.probes.len() == p.probes@.len());
    assert(p.counts()[c.knob as int] == p.probes@[c.knob as int]@.len());
    lemma_settle_moves(p, b);
    let n = grid_move(p, b)->0;
    assert(n.knob == p.counts().len());
    lemma_settle_moves(p, n);
    let m = grid_move(p, n)->0;
    let changed = c.pass_changed || o == ProbeOutcome::Accepted;
    if changed && c.pass + 1 < p.passes {
        assert(p.counts()[0] == p.probes@[0]@.len());
        lemma_settle_stays(p, m);
    } else if p.sweeps_pairs() && p.pairs > 0 {
        lemma_settle_stays(p, m);
    } else {
        lemma_settle_moves(p, m);
        let k = grid_move(p, m)->0;
        if p.candidates > 0 {
            lemma_settle_stays(p, k);
        }
    }
}

/// Pairs are swept in order, four combinations each, and the candidates after
/// them; after the last the search is over.
pub proof fn law_next_pair_or_candidate(p: GridPlan, c: GridCursor, o: ProbeOutcome)
    requires
        p.fits(),
        grid_ready(p, c),
    ensures
        ({
            let next = grid_action(grid_step(p, c, o));
            &&& c.stage == GridStage::Paired && c.combo + 1 < 4 ==> next == (GridAction::Pair {
                pair: c.pair,
                combo: (c.combo + 1) as u64,
            })
            &&& c.stage == GridStage::Paired && c.combo + 1 == 4 && c.pair + 1 < p.pairs ==> next
                == (GridAction::Pair { pair: (c.pair + 1) as u64, combo: 0 })
            &&& c.stage == GridStage::Paired && c.combo + 1 == 4 && c.pair + 1 == p.pairs
                && p.candidates > 0 ==> next == (GridAction::Category { candidate: 0 })
            &&& c.stage == GridStage::Categorical && c.candidate + 1 < p.candidates ==> next == (
            GridAction::Category { candidate: (c.candidate + 1) as u64 })
            &&& c.stage == GridStage::Categorical && c.candidate + 1 == p.candidates ==> next == (
            GridAction::Finish)
            &&& c.stage == GridStage::Done ==> next == GridAction::Finish
        }),
{
    if c.stage == GridStage::Paired || c.stage == GridStage::Categorical {
        let b = grid_book(p, c, o);
        lemma_book_keeps_books(p, c, o);
        if grid_move(p, b) is Some {
            lemma_settle_moves(p, b);
            let n = grid_move(p, b)->0;
            if grid_move(p, n) is Some {
                lemma_settle_moves(p, n);
                let m = grid_move(p, n)->0;
                if grid_move(p, m) is None {
                    lemma_settle_stays(p, m);
                }
            } else {
                lemma_settle_stays(p, n);
            }
        } else {
            lemma_settle_stays(p, b);
        }
    } else if c.stage == GridStage::Done {
        lemma_settle_stays(p, c);
    }
}

/// A search begins with the first probe of the first knob, or with the first pair
/// where only pairs are swept or there are no passes.
pub proof fn law_search_begins(p: GridPlan)
    requires
        p.fits(),
        p.probes@.len() > 0,
        p.probes@[0]@.len() > 0,
    ensures
        ({
            let first = grid_action(grid_settle(p, grid_origin(p)));
            let singles = !p.pairs_only && p.passes > 0;
            &&& singles ==> first == (GridAction::Single { pass: 0, knob: 0, probe: 0 })
            &&& !singles && p.sweeps_pairs() && p.pairs > 0 ==> first == (GridAction::Pair {
                pair: 0,
                combo: 0,
            })
        }),
{
    let c = grid_origin(p);
    assert(p.counts()[0] == p.probes@[0]@.len());
    if !p.pairs_only && p.passes > 0 {
        lemma_settle_stays(p, c);
    } else if p.sweeps_pairs() && p.pairs > 0 {
        lemma_settle_stays(p, c);
    }
}

/// Scores that are no finite numbers are counted, each once and nothing else.
pub proof fn law_skipped_scores_are_counted(p: GridPlan, c: GridCursor, o: ProbeOutcome)
    requires
        p.fits(),
        grid_ready(p, c),
        c.stage != GridStage::Done,
    ensures
        grid_step(p, c, o).skipped_nan == c.skipped_nan + (if o == ProbeOutcome::NotFinite {
            1int
        } else {
            0int
        }),
{
    lemma_book_keeps_books(p, c, o);
    lemma_settle_keeps_evals(p, grid_book(p, c, o));
}

} // verus!
