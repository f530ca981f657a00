//! Options of the calibration runs and the command line that sets them.

use vstd::prelude::*;

use crate::text;
use crate::text::text_eq;

verus! {

/// How an account's favourites are divided into train and test.
#[derive(Copy, Clone, Debug, PartialEq, Eq, Structural)]
pub enum SplitStrategy {
    /// Sort by post id and hold out the newest.
    PostId,
    /// Hold out at random, from a seed of the account's own.
    Random,
    /// Sort by creation time and hold out the newest.
    TimeCausal,
}

impl SplitStrategy {
    pub open spec fn name(self) -> Seq<char> {
        match self {
            SplitStrategy::PostId => "post_id"@,
            SplitStrategy::Random => "random"@,
            SplitStrategy::TimeCausal => "time_causal"@,
        }
    }

    pub fn label(self) -> (r: &'static str)
        ensures
            r@ == self.name(),
    {
        match self {
            SplitStrategy::PostId => "post_id",
            SplitStrategy::Random => "random",
            SplitStrategy::TimeCausal => "time_causal",
        }
    }
}

/// Where negatives come from.
#[derive(Copy, Clone, Debug, PartialEq, Eq, Structural)]
pub enum NegMode {
    /// Uniform over the catalog.
    Uniform,
    /// Uniform, popularity-matched and age-matched shares.
    Mixed,
    /// Mixed negatives and a share of hard ones mined by tag similarity.
    Hybrid,
}

impl NegMode {
    pub open spec fn name(self) -> Seq<char> {
        match self {
            NegMode::Uniform => "uniform"@,
            NegMode::Mixed => "mixed-hard"@,
            NegMode::Hybrid => "hybrid-hard"@,
        }
    }

    pub fn label(self) -> (r: &'static str)
        ensures
            r@ == self.name(),
    {
        match self {
            NegMode::Uniform => "uniform",
            NegMode::Mixed => "mixed-hard",
            NegMode::Hybrid => "hybrid-hard",
        }
    }
}

/// Options shared by the evaluation and the grid search.
#[derive(Copy, Clone, Debug, PartialEq, Eq, Structural)]
pub struct GridOptions {
    pub pairs_only: bool,
    pub run_paired: bool,
    pub diversify: bool,
    pub split: SplitStrategy,
    pub neg_mode: NegMode,
    pub verbose: bool,
}

/// The options of a run without flags.
pub open spec fn default_options() -> GridOptions {
    GridOptions {
        pairs_only: false,
        run_paired: true,
        diversify: false,
        split: SplitStrategy::PostId,
        neg_mode: NegMode::Hybrid,
        verbose: false,
    }
}

impl Default for GridOptions {
    fn default() -> (r: Self)
        ensures
            r == default_options(),
    {
        GridOptions {
            pairs_only: false,
            run_paired: true,
            diversify: false,
            split: SplitStrategy::PostId,
            neg_mode: NegMode::Hybrid,
            verbose: false,
        }
    }
}

/// The options after one flag; `None` for an unknown flag.
pub open spec fn flag_effect(o: GridOptions, a: Seq<char>) -> Option<GridOptions> {
    if a == "pairs-only"@ {
        Some(GridOptions { pairs_only: true, ..o })
    } else if a == "no-pairs"@ {
        Some(GridOptions { run_paired: false, ..o })
    } else if a == "with-diversify"@ {
        Some(GridOptions { diversify: true, ..o })
    } else if a == "split=random"@ {
        Some(GridOptions { split: SplitStrategy::Random, ..o })
    } else if a == "split=post_id"@ {
        Some(GridOptions { split: SplitStrategy::PostId, ..o })
    } else if a == "split=time_causal"@ || a == "split=time"@ {
        Some(GridOptions { split: SplitStrategy::TimeCausal, ..o })
    } else if a == "neg=uniform"@ {
        Some(GridOptions { neg_mode: NegMode::Uniform, ..o })
    } else if a == "neg=mixed"@ {
        Some(GridOptions { neg_mode: NegMode::Mixed, ..o })
    } else if a == "neg=hybrid"@ {
        Some(GridOptions { neg_mode: NegMode::Hybrid, ..o })
    } else if a == "verbose"@ || a == "--verbose"@ {
        Some(GridOptions { verbose: true, ..o })
    } else {
        None
    }
}

/// Applies one flag; `None` for an unknown flag.
pub fn apply_flag(o: GridOptions, arg: &str) -> (r: Option<GridOptions>)
    ensures
        r == flag_effect(o, arg@),
{
    let mut n = o;
    if text_eq(arg, "pairs-only") {
        n.pairs_only = true;
    } else if text_eq(arg, "no-pairs") {
        n.run_paired = false;
    } else if text_eq(arg, "with-diversify") {
        n.diversify = true;
    } else if text_eq(arg, "split=random") {
        n.split = SplitStrategy::Random;
    } else if text_eq(arg, "split=post_id") {
        n.split = SplitStrategy::PostId;
    } else if text_eq(arg, "split=time_causal") || text_eq(arg, "split=time") {
        n.split = SplitStrategy::TimeCausal;
    } else if text_eq(arg, "neg=uniform") {
        n.neg_mode = NegMode::Uniform;
    } else if text_eq(arg, "neg=mixed") {
        n.neg_mode = NegMode::Mixed;
    } else if text_eq(arg, "neg=hybrid") {
        n.neg_mode = NegMode::Hybrid;
    } else if text_eq(arg, "verbose") || text_eq(arg, "--verbose") {
        n.verbose = true;
    } else {
        return None;
    }
    Some(n)
}

/// The options after all flags, read from the first to the last; unknown flags
/// change nothing.
pub open spec fn flags_effect(args: Seq<Seq<char>>) -> GridOptions
    decreases args.len(),
{
    if args.len() == 0 {
        default_options()
    } else {
        let o = flags_effect(args.drop_last());
        match flag_effect(o, args.last()) {
            Some(n) => n,
            None => o,
        }
    }
}

/// The unknown flags among `args`, in order.
pub open spec fn unknown_flags(args: Seq<Seq<char>>) -> Seq<Seq<char>> {
    args.filter(|a: Seq<char>| flag_effect(default_options(), a) is None)
}

/// Reads the flags of a run. The second result lists those that were ignored.
pub fn parse_grid_flags(args: &Vec<String>) -> (r: (GridOptions, Vec<String>))
    ensures
        r.0 == flags_effect(text::views(args@)),
        text::views(r.1@) == unknown_flags(text::views(args@)),
{
    let mut opts = GridOptions::default();
    let mut unknown: Vec<String> = Vec::new();
    let mut i: usize = 0;
    let ghost all = text::views(args@);
    proof {
        assert(all.take(0) =~= Seq::<Seq<char>>::empty());
        reveal(Seq::filter);
        assert(text::views(unknown@) =~= unknown_flags(all.take(0)));
    }
    while i < args.len()
        invariant
            i <= args.len(),
            all == text::views(args@),
            opts == flags_effect(all.take(i as int)),
            text::views(unknown@) == unknown_flags(all.take(i as int)),
        decreases args.len() - i,
    {
        let ghost before = unknown@;
        proof {
            let t = all.take(i + 1);
            assert(t.drop_last() =~= all.take(i as int));
            assert(t.last() == args@[i as int]@);
            assert((flag_effect(opts, t.last()) is None) == (flag_effect(
                default_options(),
                t.last(),
            ) is None));
            reveal(Seq::filter);
        }
        match apply_flag(opts, args[i].as_str()) {
            Some(n) => {
                opts = n;
            },
            None => {
                unknown.push(args[i].clone());
                proof {
                    assert(text::views(unknown@) =~= text::views(before).push(args@[i as int]@));
                }
            },
        }
        i += 1;
    }
    proof {
        assert(all.take(all.len() as int) =~= all);
    }
    (opts, unknown)
}

/// What a run does.
#[derive(Copy, Clone, Debug, PartialEq, Eq, Structural)]
pub enum Mode {
    Eval,
    Grid,
    Probe,
}

/// Progress through the command line: modes come first, and from the first
/// other argument on everything is a flag.
pub struct CliScan {
    pub modes: Seq<Mode>,
    pub mix_only: bool,
    pub tail: Seq<Seq<char>>,
    pub consuming: bool,
}

pub open spec fn cli_step(s: CliScan, a: Seq<char>) -> CliScan {
    if !s.consuming {
        CliScan { tail: s.tail.push(a), ..s }
    } else if a == "eval"@ {
        CliScan { modes: s.modes.push(Mode::Eval), ..s }
    } else if a == "grid"@ {
        CliScan { modes: s.modes.push(Mode::Grid), ..s }
    } else if a == "probe"@ {
        CliScan { modes: s.modes.push(Mode::Probe), ..s }
    } else if a == "mix-only"@ && s.modes.contains(Mode::Grid) {
        CliScan { mix_only: true, ..s }
    } else {
        CliScan { tail: s.tail.push(a), consuming: false, ..s }
    }
}

pub open spec fn cli_scan(args: Seq<Seq<char>>) -> CliScan
    decreases args.len(),
{
    if args.len() == 0 {
        CliScan { modes: Seq::empty(), mix_only: false, tail: Seq::empty(), consuming: true }
    } else {
        cli_step(cli_scan(args.drop_last()), args.last())
    }
}

/// A parsed command line.
pub struct CliPlan {
    pub modes: Vec<Mode>,
    pub mix_only: bool,
    pub options: GridOptions,
    pub ignored: Vec<String>,
}

/// Reads the command line after the program name. Without arguments the run is
/// an evaluation; with arguments but no mode there is nothing to run.
pub fn parse_command_line(args: &Vec<String>) -> (r: Option<CliPlan>)
    ensures
        ({
            let all = text::views(args@);
            let s = cli_scan(all);
            match r {
                Some(p) => if all.len() == 0 {
                    p.modes@ == seq![Mode::Eval] && !p.mix_only && p.options == default_options()
                        && p.ignored@.len() == 0
                } else {
                    &&& s.modes.len() > 0
                    &&& p.modes@ == s.modes
                    &&& p.mix_only == s.mix_only
                    &&& p.options == flags_effect(s.tail)
                    &&& text::views(p.ignored@) == unknown_flags(s.tail)
                },
                None => all.len() > 0 && s.modes.len() == 0,
            }
        }),
{
    if args.len() == 0 {
        let mut modes: Vec<Mode> = Vec::new();
        modes.push(Mode::Eval);
        proof {
            assert(modes@ =~= seq![Mode::Eval]);
        }
        return Some(
            CliPlan {
                modes,
                mix_only: false,
                options: GridOptions::default(),
                ignored: Vec::new(),
            },
        );
    }
    let mut modes: Vec<Mode> = Vec::new();
    let mut has_grid: bool = false;
    let mut mix_only: bool = false;
    let mut tail: Vec<String> = Vec::new();
    let mut consuming: bool = true;
    let mut i: usize = 0;
    let ghost all = text::views(args@);
    proof {
        assert(all.take(0) =~= Seq::<Seq<char>>::empty());
        assert(text::views(tail@) =~= Seq::<Seq<char>>::empty());
    }
    while i < args.len()
        invariant
            i <= args.len(),
            all == text::views(args@),
            has_grid == modes@.contains(Mode::Grid),
            ({
                let s = cli_scan(all.take(i as int));
                &&& modes@ == s.modes
                &&& mix_only == s.mix_only
                &&& text::views(tail@) == s.tail
                &&& consuming == s.consuming
            }),
        decreases args.len() - i,
    {
        let ghost modes_before = modes@;
        let ghost tail_before = tail@;
        let arg: &str = args[i].as_str();
        proof {
            let t = all.take(i + 1);
            assert(t.drop_last() =~= all.take(i as int));
            assert(t.last() == arg@);
            assert forall|m: Mode| #[trigger] modes_before.push(m).contains(Mode::Grid) == (
            modes_before.contains(Mode::Grid) || m == Mode::Grid) by {
                let p = modes_before.push(m);
                if modes_before.contains(Mode::Grid) {
                    let k = choose|k: int|
                        0 <= k < modes_before.len() && modes_before[k] == Mode::Grid;
                    assert(p[k] == Mode::Grid);
                }
                if m == Mode::Grid {
                    assert(p[modes_before.len() as int] == Mode::Grid);
                }
                if p.contains(Mode::Grid) && m != Mode::Grid {
                    let k = choose|k: int| 0 <= k < p.len() && p[k] == Mode::Grid;
                    assert(modes_before[k] == Mode::Grid);
                }
            }
        }
        if !consuming {
            tail.push(args[i].clone());
            proof {
                assert(text::views(tail@) =~= text::views(tail_before).push(arg@));
            }
        } else if text_eq(arg, "eval") {
            modes.push(Mode::Eval);
        } else if text_eq(arg, "grid") {
            modes.push(Mode::Grid);
            has_grid = true;
        } else if text_eq(arg, "probe") {
            modes.push(Mode::Probe);
        } else if text_eq(arg, "mix-only") && has_grid {
            mix_only = true;
        } else {
            consuming = false;
            tail.push(args[i].clone());
            proof {
                assert(text::views(tail@) =~= text::views(tail_before).push(arg@));
            }
        }
        i += 1;
    }
    proof {
        assert(all.take(all.len() as int) =~= all);
    }
    if modes.len() == 0 {
        return None;
    }
    let (options, ignored) = parse_grid_flags(&tail);
    Some(CliPlan { modes, mix_only, options, ignored })
}

/// Whether a run needs the hydrated dataset.
pub fn needs_dataset(modes: &Vec<Mode>) -> (r: bool)
    ensures
        r == (modes@.contains(Mode::Eval) || modes@.contains(Mode::Grid)),
{
    let mut i: usize = 0;
    while i < modes.len()
        invariant
            i <= modes.len(),
            forall|k: int| 0 <= k < i ==> modes@[k] == Mode::Probe,
        decreases modes.len() - i,
    {
        if modes[i] != Mode::Probe {
            proof {
                let m = modes@[i as int];
                assert(modes@.contains(m));
                assert(m == Mode::Eval || m == Mode::Grid);
            }
            return true;
        }
        i += 1;
    }
    false
}

fn append_bool(s: &mut String, b: bool)
    ensures
        final(s)@ == old(s)@ + bool_text(b),
{
    if b {
        s.append("true");
    } else {
        s.append("false");
    }
}

pub open spec fn bool_text(b: bool) -> Seq<char> {
    if b {
        "true"@
    } else {
        "false"@
    }
}

/// The comment line of a result file that records the options of the run.
pub open spec fn options_line(o: GridOptions) -> Seq<char> {
    "# split="@ + o.split.name() + " neg="@ + o.neg_mode.name() + " diversify="@ + bool_text(
        o.diversify,
    ) + " pairs_only="@ + bool_text(o.pairs_only) + " run_paired="@ + bool_text(o.run_paired)
        + "\n"@
}

pub fn write_options_line(o: &GridOptions) -> (r: String)
    ensures
        r@ == options_line(*o),
{
    let mut s = String::from_str("# split=");
    s.append(o.split.label());
    s.append(" neg=");
    s.append(o.neg_mode.label());
    s.append(" diversify=");
    append_bool(&mut s, o.diversify);
    s.append(" pairs_only=");
    append_bool(&mut s, o.pairs_only);
    s.append(" run_paired=");
    append_bool(&mut s, o.run_paired);
    s.append("\n");
    s
}

/// The comment lines that warn of saturated knobs: none without any.
pub open spec fn saturation_lines(names: Seq<Seq<char>>) -> Seq<char>
    decreases names.len(),
{
    if names.len() == 0 {
        Seq::empty()
    } else if names.len() == 1 {
        "# WARN clamp-saturated:\n"@ + "#   "@ + names[0] + "\n"@
    } else {
        saturation_lines(names.drop_last()) + "#   "@ + names.last() + "\n"@
    }
}

pub fn write_saturation_lines(names: &Vec<String>) -> (r: String)
    ensures
        r@ == saturation_lines(text::views(names@)),
{
    let mut s = String::new();
    let mut i: usize = 0;
    let ghost all = text::views(names@);
    proof {
        assert(all.take(0) =~= Seq::<Seq<char>>::empty());
    }
    while i < names.len()
        invariant
            i <= names.len(),
            all == text::views(names@),
            s@ == saturation_lines(all.take(i as int)),
        decreases names.len() - i,
    {
        proof {
            let t = all.take(i + 1);
            assert(t.drop_last() =~= all.take(i as int));
            assert(t.last() == names@[i as int]@);
        }
        let ghost s0 = s@;
        if i == 0 {
            s.append("# WARN clamp-saturated:\n");
        }
        s.append("#   ");
        s.append(names[i].as_str());
        s.append("\n");
        proof {
            if i == 0 {
                let t = all.take(1);
                assert(s@ =~= saturation_lines(t));
            }
        }
        i += 1;
    }
    proof {
        assert(all.take(all.len() as int) =~= all);
    }
    s
}

proof fn lemma_flag_texts()
    ensures
        "split="@ + "random"@ == "split=random"@,
        "split="@ + "post_id"@ == "split=post_id"@,
        "split="@ + "time_causal"@ == "split=time_causal"@,
{
    reveal_strlit("split=");
    reveal_strlit("random");
    reveal_strlit("post_id");
    reveal_strlit("time_causal");
    reveal_strlit("split=random");
    reveal_strlit("split=post_id");
    reveal_strlit("split=time_causal");
    assert("split="@ + "random"@ =~= "split=random"@);
    assert("split="@ + "post_id"@ =~= "split=post_id"@);
    assert("split="@ + "time_causal"@ =~= "split=time_causal"@);
}

proof fn lemma_texts_differ()
    ensures
        "pairs-only"@.len() == 10,
        "no-pairs"@.len() == 8,
        "with-diversify"@.len() == 14,
        "split=random"@.len() == 12,
        "split=post_id"@.len() == 13,
        "split=time_causal"@.len() == 17,
        "split=time"@.len() == 10,
        "split=time"@[0] == 's',
        "pairs-only"@[0] == 'p',
        "neg=uniform"@.len() == 11,
        "neg=mixed"@.len() == 9,
        "neg=hybrid"@.len() == 10,
        "neg=hybrid"@[0] == 'n',
        "verbose"@.len() == 7,
        "--verbose"@.len() == 9,
        "neg=mixed"@[0] == 'n',
        "--verbose"@[0] == '-',
{
    reveal_strlit("pairs-only");
    reveal_strlit("no-pairs");
    reveal_strlit("with-diversify");
    reveal_strlit("split=random");
    reveal_strlit("split=post_id");
    reveal_strlit("split=time_causal");
    reveal_strlit("split=time");
    reveal_strlit("neg=uniform");
    reveal_strlit("neg=mixed");
    reveal_strlit("neg=hybrid");
    reveal_strlit("verbose");
    reveal_strlit("--verbose");
}

/// A split is asked for by its own name.
pub proof fn law_split_flags_name_their_split(o: GridOptions, s: SplitStrategy)
    ensures
        flag_effect(o, "split="@ + s.name()) == Some(GridOptions { split: s, ..o }),
{
    lemma_flag_texts();
    lemma_texts_differ();
}

/// A flag changes one option, the one it names, and to what it says; no other text
/// changes anything.
pub proof fn law_flags_change_what_they_name(o: GridOptions, a: Seq<char>)
    ensures
        ({
            let n = match flag_effect(o, a) {
                Some(x) => x,
                None => o,
            };
            &&& n.pairs_only == (o.pairs_only || a == "pairs-only"@)
            &&& n.run_paired == (o.run_paired && a != "no-pairs"@)
            &&& n.diversify == (o.diversify || a == "with-diversify"@)
            &&& n.verbose == (o.verbose || a == "verbose"@ || a == "--verbose"@)
            &&& n.split == (if a == "split=random"@ {
                SplitStrategy::Random
            } else if a == "split=post_id"@ {
                SplitStrategy::PostId
            } else if a == "split=time_causal"@ || a == "split=time"@ {
                SplitStrategy::TimeCausal
            } else {
                o.split
            })
            &&& n.neg_mode == (if a == "neg=uniform"@ {
                NegMode::Uniform
            } else if a == "neg=mixed"@ {
                NegMode::Mixed
            } else if a == "neg=hybrid"@ {
                NegMode::Hybrid
            } else {
                o.neg_mode
            })
        }),
        flag_effect(o, a) is None <==> flag_effect(default_options(), a) is None,
{
    lemma_texts_differ();
}

/// Flags are read from the first to the last, so that the last of two that name the
/// same option counts, and an option stays as it was where no flag names it.
pub proof fn law_last_flag_counts(args: Seq<Seq<char>>, a: Seq<char>)
    ensures
        flags_effect(args.push(a)) == (match flag_effect(flags_effect(args), a) {
            Some(n) => n,
            None => flags_effect(args),
        }),
        flags_effect(Seq::empty()) == (GridOptions {
            pairs_only: false,
            run_paired: true,
            diversify: false,
            split: SplitStrategy::PostId,
            neg_mode: NegMode::Hybrid,
            verbose: false,
        }),
        args.contains("with-diversify"@) <==> flags_effect(args).diversify,
        args.contains("pairs-only"@) <==> flags_effect(args).pairs_only,
        args.contains("no-pairs"@) <==> !flags_effect(args).run_paired,
    decreases args.len(),
{
    assert(args.push(a).drop_last() =~= args);
    if args.len() > 0 {
        let init = args.drop_last();
        law_last_flag_counts(init, a);
        law_flags_change_what_they_name(flags_effect(init), args.last());
        lemma_contains_last(args, "with-diversify"@);
        lemma_contains_last(args, "pairs-only"@);
        lemma_contains_last(args, "no-pairs"@);
    }
}

proof fn lemma_contains_last(s: Seq<Seq<char>>, x: Seq<char>)
    requires
        s.len() > 0,
    ensures
        s.contains(x) <==> s.drop_last().contains(x) || s.last() == x,
{
    let init = s.drop_last();
    if s.contains(x) {
        let i = choose|i: int| 0 <= i < s.len() && s[i] == x;
        if i < init.len() {
            assert(init[i] == x);
        }
    }
    if init.contains(x) {
        let i = choose|i: int| 0 <= i < init.len() && init[i] == x;
        assert(s[i] == x);
    }
    if s.last() == x {
        assert(s[s.len() - 1] == x);
    }
}

/// The mode that a word names.
pub open spec fn mode_word(a: Seq<char>) -> Option<Mode> {
    if a == "eval"@ {
        Some(Mode::Eval)
    } else if a == "grid"@ {
        Some(Mode::Grid)
    } else if a == "probe"@ {
        Some(Mode::Probe)
    } else {
        None
    }
}

/// A command line is a run of modes, with `mix-only` anywhere behind `grid`, and
/// then flags: from the first other word on everything is a flag.
pub proof fn law_modes_come_first(args: Seq<Seq<char>>)
    ensures
        ({
            let s = cli_scan(args);
            let k = args.len() - s.tail.len();
            &&& 0 <= k <= args.len()
            &&& s.tail == args.skip(k)
            &&& s.consuming <==> s.tail.len() == 0
            &&& forall|i: int|
                0 <= i < k ==> mode_word(#[trigger] args[i]) is Some || args[i] == "mix-only"@
            &&& s.tail.len() > 0 ==> mode_word(args[k]) is None && (args[k] == "mix-only"@
                ==> !s.modes.contains(Mode::Grid))
            &&& s.mix_only ==> s.modes.contains(Mode::Grid)
            &&& s.mix_only <==> exists|i: int| 0 <= i < k && #[trigger] args[i] == "mix-only"@
            &&& s.modes.len() <= k
            &&& forall|m: Mode| #[trigger]
                s.modes.contains(m) <==> exists|i: int|
                    0 <= i < k && mode_word(#[trigger] args[i]) == Some(m)
        }),
    decreases args.len(),
{
    reveal_strlit("eval");
    reveal_strlit("grid");
    reveal_strlit("probe");
    reveal_strlit("mix-only");
    assert("eval"@[0] == 'e' && "grid"@[0] == 'g' && "probe"@.len() == 5 && "mix-only"@.len() == 8);
    if args.len() == 0 {
        assert(args.skip(0) =~= Seq::<Seq<char>>::empty());
    } else {
        let init = args.drop_last();
        let a = args.last();
        law_modes_come_first(init);
        let s = cli_scan(init);
        let t = cli_scan(args);
        let j = init.len() - s.tail.len();
        let k = args.len() - t.tail.len();
        assert forall|i: int| 0 <= i < init.len() implies #[trigger] args[i] == init[i] by {}
        assert(args[init.len() as int] == a);
        if !s.consuming {
            assert(k == j);
            assert(t.tail =~= args.skip(k));
            assert(args[k] == init[k]);
        } else {
            assert(j == init.len());
            if t.consuming {
                assert(t.tail =~= args.skip(k));
                assert(k == args.len());
            } else {
                assert(t.tail =~= args.skip(k));
                assert(k == init.len());
            }
        }
        assert forall|m: Mode| #[trigger] t.modes.contains(m) <==> exists|i: int|
            0 <= i < k && mode_word(#[trigger] args[i]) == Some(m) by {
            assert(s.modes.contains(m) <==> exists|i: int|
                0 <= i < j && mode_word(#[trigger] init[i]) == Some(m));
            if exists|i: int| 0 <= i < j && mode_word(#[trigger] init[i]) == Some(m) {
                let i = choose|i: int| 0 <= i < j && mode_word(#[trigger] init[i]) == Some(m);
                assert(mode_word(args[i]) == Some(m));
            }
            if exists|i: int| 0 <= i < k && mode_word(#[trigger] args[i]) == Some(m) {
                let i = choose|i: int| 0 <= i < k && mode_word(#[trigger] args[i]) == Some(m);
                if i < j {
                    assert(mode_word(init[i]) == Some(m));
                }
            }
            if s.modes.contains(m) {
                let q = choose|q: int| 0 <= q < s.modes.len() && s.modes[q] == m;
                assert(t.modes[q] == m);
            }
            if t.modes.contains(m) {
                let q = choose|q: int| 0 <= q < t.modes.len() && t.modes[q] == m;
                if q < s.modes.len() {
                    assert(s.modes[q] == m);
                }
            }
            if t.modes.len() > s.modes.len() {
                assert(t.modes[s.modes.len() as int] == mode_word(a)->0);
            }
        }
        if s.mix_only {
            let i = choose|i: int| 0 <= i < j && #[trigger] init[i] == "mix-only"@;
            assert(args[i] == "mix-only"@);
        }
        if exists|i: int| 0 <= i < k && #[trigger] args[i] == "mix-only"@ {
            let i = choose|i: int| 0 <= i < k && #[trigger] args[i] == "mix-only"@;
            if i < j {
                assert(init[i] == "mix-only"@);
            }
        }
    }
}

/// The line records the options of a run as names and values, in this order: the
/// split, the negatives, and whether it diversifies, takes pairs only and takes
/// pairs at all.
pub proof fn law_options_line(o: GridOptions)
    ensures
        options_line(o) == "# "@ + text::joined(
            seq![
                "split="@ + o.split.name(),
                "neg="@ + o.neg_mode.name(),
                "diversify="@ + bool_text(o.diversify),
                "pairs_only="@ + bool_text(o.pairs_only),
                "run_paired="@ + bool_text(o.run_paired),
            ],
            " "@,
        ) + "\n"@,
        bool_text(true) == "true"@,
        bool_text(false) == "false"@,
{
    let p = seq![
        "split="@ + o.split.name(),
        "neg="@ + o.neg_mode.name(),
        "diversify="@ + bool_text(o.diversify),
        "pairs_only="@ + bool_text(o.pairs_only),
        "run_paired="@ + bool_text(o.run_paired),
    ];
    assert(p.take(1) =~= seq![p[0]]);
    assert(p.take(5) =~= p);
    assert("# split="@ == "# "@ + "split="@) by {
        reveal_strlit("# ");
        reveal_strlit("split=");
        reveal_strlit("# split=");
    }
    assert(" neg="@ == " "@ + "neg="@) by {
        reveal_strlit(" ");
        reveal_strlit("neg=");
        reveal_strlit(" neg=");
    }
    assert(" diversify="@ == " "@ + "diversify="@) by {
        reveal_strlit(" ");
        reveal_strlit("diversify=");
        reveal_strlit(" diversify=");
    }
    assert(" pairs_only="@ == " "@ + "pairs_only="@) by {
        reveal_strlit(" ");
        reveal_strlit("pairs_only=");
        reveal_strlit(" pairs_only=");
    }
    assert(" run_paired="@ == " "@ + "run_paired="@) by {
        reveal_strlit(" ");
        reveal_strlit("run_paired=");
        reveal_strlit(" run_paired=");
    }
    let head = "# "@;
    assert("# split="@ + o.split.name() =~= head + p[0]);
    text::lemma_joined_take(p, " "@, 1);
    text::lemma_joined_part(head, text::joined(p.take(1), " "@), " "@, "neg="@, " neg="@, o.neg_mode.name());
    text::lemma_joined_take(p, " "@, 2);
    text::lemma_joined_part(head, text::joined(p.take(2), " "@), " "@, "diversify="@, " diversify="@, bool_text(o.diversify));
    text::lemma_joined_take(p, " "@, 3);
    text::lemma_joined_part(head, text::joined(p.take(3), " "@), " "@, "pairs_only="@, " pairs_only="@, bool_text(o.pairs_only));
    text::lemma_joined_take(p, " "@, 4);
    text::lemma_joined_part(head, text::joined(p.take(4), " "@), " "@, "run_paired="@, " run_paired="@, bool_text(o.run_paired));
}

/// The warning has one line for each saturated knob, in order, under a headline;
/// without any there is none.
pub proof fn law_saturation_lines(names: Seq<Seq<char>>, name: Seq<char>)
    ensures
        saturation_lines(Seq::empty()).len() == 0,
        saturation_lines(seq![name]) == "# WARN clamp-saturated:\n"@ + "#   "@ + name + "\n"@,
        names.len() > 0 ==> saturation_lines(names.push(name)) == saturation_lines(names) + "#   "@
            + name + "\n"@,
{
    assert(names.push(name).drop_last() =~= names);
}

/// Splits and modes go by different names.
pub proof fn law_names_differ(a: SplitStrategy, b: SplitStrategy, m: NegMode, n: NegMode)
    ensures
        a.name() == b.name() <==> a == b,
        m.name() == n.name() <==> m == n,
        NegMode::Uniform.name() == "uniform"@,
        NegMode::Mixed.name() == "mixed-hard"@,
        NegMode::Hybrid.name() == "hybrid-hard"@,
{
    reveal_strlit("post_id");
    reveal_strlit("random");
    reveal_strlit("time_causal");
    reveal_strlit("uniform");
    reveal_strlit("mixed-hard");
    reveal_strlit("hybrid-hard");
    assert("post_id"@.len() == 7 && "random"@.len() == 6 && "time_causal"@.len() == 11);
    assert("uniform"@.len() == 7 && "mixed-hard"@.len() == 10 && "hybrid-hard"@.len() == 11);
}

} // verus!
