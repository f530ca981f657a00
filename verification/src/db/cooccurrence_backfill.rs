//! The backfill of the tag co-occurrences.

use vstd::prelude::*;

use crate::text;
use crate::text::dec_i64;

verus! {

/// How many posts one batch takes.
pub const COOC_BACKFILL_BATCH: i64 = 25;

/// The pause between two batches, in milliseconds.
pub const COOC_BACKFILL_INTER_BATCH_SLEEP_MS: u64 = 25;

/// Whether the global table is to be filled: it is empty and posts have tags.
pub fn needs_global_backfill(cooc_rows: i64, tagged_posts_exist: bool) -> (r: bool)
    ensures
        r == (cooc_rows <= 0 && tagged_posts_exist),
{
    if cooc_rows > 0 {
        return false;
    }
    tagged_posts_exist
}

/// One piece of a backfill.
#[derive(Clone, Copy, Debug, PartialEq, Eq, Structural)]
pub enum BackfillStep {
    Global,
    Account(i32),
}

/// The pieces of a backfill: the global table first, then the accounts.
pub open spec fn backfill_steps(needs_global: bool, pending: Seq<i32>) -> Seq<BackfillStep> {
    (if needs_global {
        seq![BackfillStep::Global]
    } else {
        Seq::empty()
    }) + pending.map_values(|a: i32| BackfillStep::Account(a))
}

/// What is to be backfilled; nothing where the result is empty.
pub fn backfill_tag_cooccurrence_if_needed(needs_global: bool, pending: &Vec<i32>) -> (r: Vec<
    BackfillStep,
>)
    ensures
        r@ == backfill_steps(needs_global, pending@),
{
    let mut v: Vec<BackfillStep> = Vec::new();
    if needs_global {
        v.push(BackfillStep::Global);
    }
    let mut i: usize = 0;
    proof {
        assert(v@ =~= backfill_steps(needs_global, pending@.take(0)));
    }
    while i < pending.len()
        invariant
            i <= pending.len(),
            v@ == backfill_steps(needs_global, pending@.take(i as int)),
        decreases pending.len() - i,
    {
        v.push(BackfillStep::Account(pending[i]));
        proof {
            assert(backfill_steps(needs_global, pending@.take(i + 1)) =~= backfill_steps(
                needs_global,
                pending@.take(i as int),
            ).push(BackfillStep::Account(pending@[i as int])));
        }
        i += 1;
    }
    proof {
        assert(pending@.take(pending@.len() as int) =~= pending@);
    }
    v
}

/// A global backfill under way: the last post it counted and how many.
#[derive(Clone, Copy, Debug, PartialEq, Eq, Structural)]
pub struct GlobalBackfill {
    pub last_id: i64,
    pub processed: i64,
    pub total: i64,
}

/// Starts a global backfill; without tagged posts there is none.
pub fn backfill_global_tag_cooccurrence(total_posts: i64) -> (r: Option<GlobalBackfill>)
    ensures
        match r {
            Some(b) => total_posts != 0 && b.last_id == -1 && b.processed == 0 && b.total
                == total_posts,
            None => total_posts == 0,
        },
{
    if total_posts == 0 {
        None
    } else {
        Some(GlobalBackfill { last_id: -1, processed: 0, total: total_posts })
    }
}

/// The ids of a batch: ascending, and behind `last_id`.
pub open spec fn is_batch(ids: Seq<i64>, last_id: i64) -> bool {
    &&& forall|i: int| 0 <= i < ids.len() ==> last_id < #[trigger] ids[i]
    &&& forall|i: int, j: int| 0 <= i < j < ids.len() ==> #[trigger] ids[i] < #[trigger] ids[j]
}

impl GlobalBackfill {
    /// Whether the progress is worth a line.
    pub open spec fn report_due(&self) -> bool {
        self.processed % 2000 == 0 || self.processed >= self.total
    }

    pub open spec fn progress(&self) -> Seq<char> {
        "[cooc-backfill] global progress: "@ + text::dec(self.processed as int) + "/"@ + text::dec(
            self.total as int,
        ) + " posts"@
    }

    /// Books the batch of posts behind the last one. An empty batch ends the
    /// backfill. The line reports the progress every two thousand posts and at
    /// the end.
    pub fn book(&mut self, ids: &Vec<i64>) -> (r: (bool, Option<String>))
        requires
            old(self).processed >= 0,
            old(self).processed + ids.len() <= i64::MAX,
        ensures
            r.0 == (ids@.len() > 0),
            ids@.len() == 0 ==> *final(self) == *old(self) && r.1 is None,
            ids@.len() > 0 ==> {
                &&& final(self).last_id == ids@.last()
                &&& final(self).processed == old(self).processed + ids@.len()
                &&& final(self).total == old(self).total
                &&& match r.1 {
                    Some(line) => final(self).report_due() && line@ == final(self).progress(),
                    None => !final(self).report_due(),
                }
            },
    {
        if ids.len() == 0 {
            return (false, None);
        }
        self.last_id = ids[ids.len() - 1];
        self.processed = self.processed + ids.len() as i64;
        if self.processed % 2000 == 0 || self.processed >= self.total {
            let mut s = String::from_str("[cooc-backfill] global progress: ");
            s.append(dec_i64(self.processed).as_str());
            s.append("/");
            s.append(dec_i64(self.total).as_str());
            s.append(" posts");
            (true, Some(s))
        } else {
            (true, None)
        }
    }
}

/// No post is counted twice: every batch lies behind all posts counted before.
pub proof fn law_batches_do_not_overlap(first: Seq<i64>, last_id: i64, second: Seq<i64>, i: int, j: int)
    requires
        is_batch(first, last_id),
        first.len() > 0,
        is_batch(second, first.last()),
        0 <= i < first.len(),
        0 <= j < second.len(),
    ensures
        first[i] < second[j],
{
    if i < first.len() - 1 {
        assert(first[i] < first[first.len() - 1]);
    }
}

/// A backfill starts with the global table where that is needed, and takes every
/// pending account once, in order.
pub proof fn law_backfill_steps(needs_global: bool, pending: Seq<i32>, i: int)
    requires
        0 <= i < pending.len(),
    ensures
        ({
            let steps = backfill_steps(needs_global, pending);
            let lead = if needs_global {
                1int
            } else {
                0int
            };
            &&& steps.len() == pending.len() + lead
            &&& steps[lead + i] == BackfillStep::Account(pending[i])
            &&& steps.contains(BackfillStep::Global) <==> needs_global
            &&& needs_global ==> steps[0] == BackfillStep::Global
        }),
{
    let steps = backfill_steps(needs_global, pending);
    if needs_global {
        assert(steps[0] == BackfillStep::Global);
    }
}

/// Short of the end, progress is reported once in two thousand posts.
pub proof fn law_reports_every_two_thousand(b: GlobalBackfill, k: int)
    requires
        b.processed >= 0,
    ensures
        b.processed == 2_000 * k ==> b.report_due(),
        2_000 * k < b.processed < 2_000 * (k + 1) && b.processed < b.total ==> !b.report_due(),
        b.processed >= b.total ==> b.report_due(),
{
    if 2_000 * k < b.processed < 2_000 * (k + 1) {
        assert(b.processed % 2_000 == b.processed - 2_000 * k);
    }
}

} // verus!
