//! Decisions of the worker that repairs catalog posts with missing data.

use vstd::prelude::*;

use crate::tally;
use crate::text;
use crate::text::dec_usize;

verus! {

/// How many posts one run repairs.
pub const BATCH_SIZE: usize = 50;

/// The pause between two runs, in seconds.
pub const CADENCE_SECS: u64 = 900;

/// The ids of `asked` that are not among `returned`, in order.
pub open spec fn not_returned(asked: Seq<i64>, returned: Seq<i64>) -> Seq<i64> {
    asked.filter(|id: i64| !returned.contains(id))
}

/// The posts that upstream no longer has: asked for and not returned. They
/// leave the catalog.
pub fn hydrate_catalog_once(asked: &Vec<i64>, returned: &Vec<i64>) -> (r: Vec<i64>)
    ensures
        r@ == not_returned(asked@, returned@),
{
    broadcast use vstd::std_specs::hash::group_hash_axioms;

    let mut seen: std::collections::HashSet<i64> = std::collections::HashSet::new();
    let mut i: usize = 0;
    while i < returned.len()
        invariant
            i <= returned.len(),
            forall|id: i64| #[trigger] seen@.contains(id) <==> returned@.take(i as int).contains(id),
        decreases returned.len() - i,
    {
        broadcast use vstd::std_specs::hash::group_hash_axioms;

        let ghost before = seen@;
        seen.insert(returned[i]);
        proof {
            let a = returned@.take(i as int);
            let b = returned@.take(i + 1);
            assert(b =~= a.push(returned@[i as int]));
            assert forall|id: i64| #[trigger] seen@.contains(id) <==> b.contains(id) by {
                if b.contains(id) {
                    let k = choose|k: int| 0 <= k < b.len() && b[k] == id;
                    if k < i {
                        assert(a[k] == id);
                        assert(before.contains(id));
                    }
                }
                if a.contains(id) {
                    let k = choose|k: int| 0 <= k < a.len() && a[k] == id;
                    assert(b[k] == id);
                }
                assert(b[i as int] == returned@[i as int]);
                assert(before.contains(id) <==> a.contains(id));
            }
        }
        i += 1;
    }
    proof {
        assert(returned@.take(returned@.len() as int) =~= returned@);
        reveal(Seq::filter);
        assert(asked@.take(0) =~= Seq::<i64>::empty());
    }
    let mut out: Vec<i64> = Vec::new();
    let mut j: usize = 0;
    while j < asked.len()
        invariant
            j <= asked.len(),
            forall|id: i64| #[trigger] seen@.contains(id) <==> returned@.contains(id),
            out@ == not_returned(asked@.take(j as int), returned@),
        decreases asked.len() - j,
    {
        broadcast use vstd::std_specs::hash::group_hash_axioms;

        proof {
            reveal(Seq::filter);
            assert(asked@.take(j + 1).drop_last() =~= asked@.take(j as int));
            assert(asked@.take(j + 1).last() == asked@[j as int]);
        }
        if !seen.contains(&asked[j]) {
            out.push(asked[j]);
        }
        j += 1;
    }
    proof {
        assert(asked@.take(asked@.len() as int) =~= asked@);
    }
    out
}

/// The summary of a run.
pub fn repair_line(asked: usize, repaired: usize, purged: usize) -> (r: String)
    ensures
        r@ == "[media-hydrator] scanned "@ + text::dec(asked as int)
            + " incomplete posts; e621 repaired "@ + text::dec(repaired as int) + ", purged "@
            + text::dec(purged as int) + " absent posts"@,
{
    let mut s = String::from_str("[media-hydrator] scanned ");
    s.append(dec_usize(asked).as_str());
    s.append(" incomplete posts; e621 repaired ");
    s.append(dec_usize(repaired).as_str());
    s.append(", purged ");
    s.append(dec_usize(purged).as_str());
    s.append(" absent posts");
    s
}

/// A run purges no post that upstream returned, and nothing it did not ask for.
pub proof fn law_returned_posts_stay(asked: Seq<i64>, returned: Seq<i64>, id: i64)
    requires
        not_returned(asked, returned).contains(id),
    ensures
        asked.contains(id),
        !returned.contains(id),
{
    let keep = |x: i64| !returned.contains(x);
    assert(not_returned(asked, returned) =~= asked.filter(keep));
    let i = choose|i: int| 0 <= i < asked.filter(keep).len() && asked.filter(keep)[i] == id;
    asked.lemma_filter_pred(keep, i);
    lemma_filter_member(asked, keep, id);
}

proof fn lemma_filter_member(s: Seq<i64>, keep: spec_fn(i64) -> bool, id: i64)
    requires
        s.filter(keep).contains(id),
    ensures
        s.contains(id),
    decreases s.len(),
{
    reveal(Seq::filter);
    if s.len() > 0 {
        let d = s.drop_last();
        let i = choose|i: int| 0 <= i < s.filter(keep).len() && s.filter(keep)[i] == id;
        if i < d.filter(keep).len() {
            assert(d.filter(keep)[i] == id);
            lemma_filter_member(d, keep, id);
            let k = choose|k: int| 0 <= k < d.len() && d[k] == id;
            assert(s[k] == id);
        } else {
            assert(s.last() == id);
        }
    }
}

/// A post is purged exactly where it was asked for and not returned, as often as it
/// was asked for.
pub proof fn law_absent_posts_go(asked: Seq<i64>, returned: Seq<i64>, id: i64)
    ensures
        tally::times(not_returned(asked, returned), id) == (if returned.contains(id) {
            0
        } else {
            tally::times(asked, id)
        }),
{
    tally::lemma_times_filter(asked, |x: i64| !returned.contains(x), id);
}

} // verus!
