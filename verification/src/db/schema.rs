//! The guard that refuses a database of a newer schema.

use vstd::prelude::*;

use crate::tally;
use crate::text;
use crate::text::{dec_i64, join};

verus! {

/// The applied migrations that are not embedded, in order.
pub open spec fn ahead_of(embedded: Seq<i64>, applied: Seq<i64>) -> Seq<i64> {
    applied.filter(|v: i64| !embedded.contains(v))
}

/// `V` and the number, for each migration.
pub open spec fn version_names(versions: Seq<i64>) -> Seq<Seq<char>> {
    versions.map_values(|v: i64| "V"@ + text::dec(v as int))
}

/// The least of some versions, zero for none.
pub open spec fn least(s: Seq<i64>) -> i64
    decreases s.len(),
{
    if s.len() == 0 {
        0
    } else if s.len() == 1 {
        s[0]
    } else {
        let m = least(s.drop_last());
        if s.last() < m {
            s.last()
        } else {
            m
        }
    }
}

/// The greatest of some versions, zero for none.
pub open spec fn greatest(s: Seq<i64>) -> i64
    decreases s.len(),
{
    if s.len() == 0 {
        0
    } else if s.len() == 1 {
        s[0]
    } else {
        let m = greatest(s.drop_last());
        if s.last() > m {
            s.last()
        } else {
            m
        }
    }
}

fn extremes(v: &Vec<i64>) -> (r: (i64, i64))
    ensures
        r.0 == least(v@),
        r.1 == greatest(v@),
{
    if v.len() == 0 {
        return (0, 0);
    }
    let mut lo: i64 = v[0];
    let mut hi: i64 = v[0];
    let mut i: usize = 1;
    while i < v.len()
        invariant
            1 <= i <= v.len(),
            lo == least(v@.take(i as int)),
            hi == greatest(v@.take(i as int)),
        decreases v.len() - i,
    {
        proof {
            assert(v@.take(i + 1).drop_last() =~= v@.take(i as int));
            assert(v@.take(i + 1).last() == v@[i as int]);
        }
        if v[i] < lo {
            lo = v[i];
        }
        if v[i] > hi {
            hi = v[i];
        }
        i += 1;
    }
    proof {
        assert(v@.take(v@.len() as int) =~= v@);
    }
    (lo, hi)
}

/// The refusal of a database that is ahead.
pub open spec fn ahead_message(embedded: Seq<i64>, applied: Seq<i64>) -> Seq<char> {
    "database schema is newer than this binary: the shared database has applied migration(s) "@
        + text::joined(version_names(ahead_of(embedded, applied)), ", "@)
        + " that this build does not embed (this binary embeds V"@ + text::dec(
        least(embedded) as int,
    ) + "..V"@ + text::dec(greatest(embedded) as int) + "; the database is at V"@ + text::dec(
        greatest(applied) as int,
    )
        + "). A newer build migrated this database. Rebuild this binary / image from the current source (`cargo build` / `docker build`) so it embeds the full migration set, then restart. Never delete or renumber an already-applied migration by hand."@
}

/// Refuses a database to which a migration was applied that is not embedded
/// here. A database without history is fresh.
pub fn ensure_embedded_migrations_cover_db(embedded: &Vec<i64>, applied: &Vec<i64>) -> (r: Result<
    (),
    String,
>)
    ensures
        match r {
            Ok(_) => forall|i: int|
                0 <= i < applied@.len() ==> embedded@.contains(#[trigger] applied@[i]),
            Err(m) => ahead_of(embedded@, applied@).len() > 0 && m@ == ahead_message(
                embedded@,
                applied@,
            ),
        },
        r is Ok <==> ahead_of(embedded@, applied@).len() == 0,
{
    let mut names: Vec<String> = Vec::new();
    let mut i: usize = 0;
    let ghost keep = |v: i64| !embedded@.contains(v);
    proof {
        reveal(Seq::filter);
        assert(applied@.take(0) =~= Seq::<i64>::empty());
        assert(text::views(names@) =~= version_names(applied@.take(0).filter(keep)));
    }
    while i < applied.len()
        invariant
            i <= applied.len(),
            keep == (|v: i64| !embedded@.contains(v)),
            text::views(names@) == version_names(applied@.take(i as int).filter(keep)),
            names@.len() == 0 ==> forall|k: int|
                0 <= k < i ==> embedded@.contains(#[trigger] applied@[k]),
        decreases applied.len() - i,
    {
        let ghost before = names@;
        let ghost f = applied@.take(i as int).filter(keep);
        proof {
            reveal(Seq::filter);
            assert(applied@.take(i + 1).drop_last() =~= applied@.take(i as int));
            assert(applied@.take(i + 1).last() == applied@[i as int]);
        }
        if !holds(embedded, applied[i]) {
            let mut name = String::from_str("V");
            name.append(dec_i64(applied[i]).as_str());
            names.push(name);
            proof {
                assert(text::views(names@) =~= text::views(before).push(name@));
                assert(version_names(f.push(applied@[i as int])) =~= version_names(f).push(name@));
            }
        }
        i += 1;
    }
    proof {
        assert(applied@.take(applied@.len() as int) =~= applied@);
        assert(text::views(names@).len() == ahead_of(embedded@, applied@).len());
    }
    if names.len() == 0 {
        return Ok(());
    }
    let (lo, hi) = extremes(embedded);
    let (_, db_max) = extremes(applied);
    let mut m = String::from_str(
        "database schema is newer than this binary: the shared database has applied migration(s) ",
    );
    m.append(join(&names, ", ").as_str());
    m.append(" that this build does not embed (this binary embeds V");
    m.append(dec_i64(lo).as_str());
    m.append("..V");
    m.append(dec_i64(hi).as_str());
    m.append("; the database is at V");
    m.append(dec_i64(db_max).as_str());
    m.append(
        "). A newer build migrated this database. Rebuild this binary / image from the current source (`cargo build` / `docker build`) so it embeds the full migration set, then restart. Never delete or renumber an already-applied migration by hand.",
    );
    Err(m)
}

fn holds(v: &Vec<i64>, x: i64) -> (r: bool)
    ensures
        r == v@.contains(x),
{
    let mut i: usize = 0;
    while i < v.len()
        invariant
            i <= v.len(),
            forall|k: int| 0 <= k < i ==> v@[k] != x,
        decreases v.len() - i,
    {
        if v[i] == x {
            return true;
        }
        i += 1;
    }
    false
}

/// The least and the greatest of some versions are among them and bound them.
pub proof fn law_extremes(s: Seq<i64>)
    requires
        s.len() > 0,
    ensures
        s.contains(least(s)),
        s.contains(greatest(s)),
        forall|i: int| 0 <= i < s.len() ==> least(s) <= #[trigger] s[i] <= greatest(s),
    decreases s.len(),
{
    let init = s.drop_last();
    assert(s[s.len() - 1] == s.last());
    if s.len() > 1 {
        law_extremes(init);
        let a = choose|a: int| 0 <= a < init.len() && init[a] == least(init);
        let b = choose|b: int| 0 <= b < init.len() && init[b] == greatest(init);
        assert(s[a] == init[a] && s[b] == init[b]);
        assert forall|i: int| 0 <= i < s.len() implies least(s) <= #[trigger] s[i]
            <= greatest(s) by {
            if i < init.len() {
                assert(init[i] == s[i]);
            }
        }
    }
}

/// A migration is named as ahead exactly where it was applied and is not embedded,
/// as often as it was applied.
pub proof fn law_ahead_is_not_embedded(embedded: Seq<i64>, applied: Seq<i64>, v: i64)
    ensures
        tally::times(ahead_of(embedded, applied), v) == (if embedded.contains(v) {
            0
        } else {
            tally::times(applied, v)
        }),
{
    tally::lemma_times_filter(applied, |x: i64| !embedded.contains(x), v);
}

} // verus!
