//! Counting how often keys occur.

use vstd::prelude::*;

use crate::text;
use crate::timed::CacheKey;

verus! {

/// A key and how often it occurred.
pub struct TallyEntry<K> {
    pub key: K,
    pub count: i64,
}

/// How often each key occurred. Keys that did not occur have no entry.
pub struct Tally<K: CacheKey> {
    pub entries: Vec<TallyEntry<K>>,
}

/// How often `x` occurs in `s`.
pub open spec fn times<A>(s: Seq<A>, x: A) -> int
    decreases s.len(),
{
    if s.len() == 0 {
        0
    } else {
        times(s.drop_last(), x) + (if s.last() == x {
            1int
        } else {
            0int
        })
    }
}

pub proof fn lemma_times_bounds<A>(s: Seq<A>, x: A)
    ensures
        0 <= times(s, x) <= s.len(),
        times(s, x) > 0 <==> s.contains(x),
    decreases s.len(),
{
    if s.len() > 0 {
        let d = s.drop_last();
        lemma_times_bounds(d, x);
        if d.contains(x) {
            let k = choose|k: int| 0 <= k < d.len() && d[k] == x;
            assert(s[k] == x);
        }
        if s.contains(x) {
            let k = choose|k: int| 0 <= k < s.len() && s[k] == x;
            if k < d.len() {
                assert(d[k] == x);
            }
        }
        if s.last() == x {
            assert(s[s.len() - 1] == x);
        }
    }
}

pub proof fn lemma_times_concat<A>(a: Seq<A>, b: Seq<A>, x: A)
    ensures
        times(a + b, x) == times(a, x) + times(b, x),
    decreases b.len(),
{
    if b.len() == 0 {
        assert(a + b =~= a);
    } else {
        lemma_times_concat(a, b.drop_last(), x);
        assert((a + b).drop_last() =~= a + b.drop_last());
        assert((a + b).last() == b.last());
    }
}

/// No key has two entries, and no entry counts nothing.
pub open spec fn distinct_entries<K: CacheKey>(s: Seq<TallyEntry<K>>) -> bool {
    &&& forall|i: int, j: int|
        0 <= i < j < s.len() ==> (#[trigger] s[i]).key.id() != (#[trigger] s[j]).key.id()
    &&& forall|i: int| 0 <= i < s.len() ==> (#[trigger] s[i]).count > 0
}

/// The count of a key.
pub open spec fn count_in<K: CacheKey>(s: Seq<TallyEntry<K>>, id: K::Id) -> int
    decreases s.len(),
{
    if s.len() == 0 {
        0
    } else if s.last().key.id() == id {
        s.last().count as int
    } else {
        count_in(s.drop_last(), id)
    }
}

proof fn lemma_count_at<K: CacheKey>(s: Seq<TallyEntry<K>>, i: int)
    requires
        distinct_entries(s),
        0 <= i < s.len(),
    ensures
        count_in(s, s[i].key.id()) == s[i].count,
    decreases s.len(),
{
    if i < s.len() - 1 {
        assert(s[i].key.id() != s[s.len() - 1].key.id());
        assert forall|a: int, b: int| 0 <= a < b < s.drop_last().len() implies (
        #[trigger] s.drop_last()[a]).key.id() != (#[trigger] s.drop_last()[b]).key.id() by {
            assert(s[a].key.id() != s[b].key.id());
        }
        lemma_count_at(s.drop_last(), i);
    }
}

proof fn lemma_count_absent<K: CacheKey>(s: Seq<TallyEntry<K>>, id: K::Id)
    requires
        forall|i: int| 0 <= i < s.len() ==> (#[trigger] s[i]).key.id() != id,
    ensures
        count_in(s, id) == 0,
    decreases s.len(),
{
    if s.len() > 0 {
        assert(s[s.len() - 1].key.id() != id);
        assert forall|i: int| 0 <= i < s.drop_last().len() implies (
        #[trigger] s.drop_last()[i]).key.id() != id by {
            assert(s[i].key.id() != id);
        }
        lemma_count_absent(s.drop_last(), id);
    }
}

impl<K: CacheKey> Tally<K> {
    pub open spec fn wf(&self) -> bool {
        distinct_entries(self.entries@)
    }

    pub open spec fn count(&self, id: K::Id) -> int {
        count_in(self.entries@, id)
    }

    /// The tally counts exactly the keys of `s`.
    pub open spec fn counts(&self, s: Seq<K::Id>) -> bool {
        &&& self.wf()
        &&& forall|id: K::Id| #[trigger] self.count(id) == times(s, id)
    }

    pub fn new() -> (r: Tally<K>)
        ensures
            r.counts(Seq::empty()),
    {
        Tally { entries: Vec::new() }
    }

    /// Counts one more occurrence of a key.
    pub fn bump(&mut self, key: K)
        requires
            old(self).wf(),
            old(self).count(key.id()) < i64::MAX,
        ensures
            final(self).wf(),
            final(self).count(key.id()) == old(self).count(key.id()) + 1,
            forall|id: K::Id|
                id != key.id() ==> #[trigger] final(self).count(id) == old(self).count(id),
    {
        let ghost before = self.entries@;
        let mut i: usize = 0;
        while i < self.entries.len()
            invariant
                i <= self.entries.len(),
                self.entries@ == before,
                before == old(self).entries@,
                distinct_entries(before),
                count_in(before, key.id()) < i64::MAX,
                forall|k: int| 0 <= k < i ==> (#[trigger] before[k]).key.id() != key.id(),
            decreases self.entries.len() - i,
        {
            if self.entries[i].key.same(&key) {
                proof {
                    lemma_count_at(before, i as int);
                }
                let n: i64 = self.entries[i].count;
                self.entries[i].count = n + 1;
                proof {
                    let t = self.entries@;
                    assert(t.len() == before.len());
                    assert(forall|k: int|
                        0 <= k < t.len() && k != i ==> #[trigger] t[k] == before[k]);
                    assert(t[i as int].key == before[i as int].key);
                    assert(t[i as int].count == before[i as int].count + 1);
                    lemma_same_keys(before, t, i as int);
                }
                return;
            }
            i += 1;
        }
        self.entries.push(TallyEntry { key, count: 1 });
        proof {
            let t = self.entries@;
            lemma_count_absent(before, key.id());
            assert(t.drop_last() =~= before);
            assert(t.last().key == key);
            assert forall|a: int, b: int| 0 <= a < b < t.len() implies (#[trigger] t[a]).key.id()
                != (#[trigger] t[b]).key.id() by {
                assert(t[a] == before[a]);
                if b < before.len() {
                    assert(t[b] == before[b]);
                }
            }
        }
    }
}

/// Raising one count leaves the others alone.
proof fn lemma_same_keys<K: CacheKey>(a: Seq<TallyEntry<K>>, b: Seq<TallyEntry<K>>, i: int)
    requires
        distinct_entries(a),
        0 <= i < a.len(),
        b.len() == a.len(),
        forall|k: int| 0 <= k < a.len() && k != i ==> #[trigger] b[k] == a[k],
        b[i].key == a[i].key,
        b[i].count == a[i].count + 1,
    ensures
        distinct_entries(b),
        count_in(b, a[i].key.id()) == count_in(a, a[i].key.id()) + 1,
        forall|id: K::Id| id != a[i].key.id() ==> #[trigger] count_in(b, id) == count_in(a, id),
{
    assert forall|x: int, y: int| 0 <= x < y < b.len() implies (#[trigger] b[x]).key.id() != (
    #[trigger] b[y]).key.id() by {
        assert(a[x].key.id() != a[y].key.id());
        assert(b[x].key == a[x].key);
        assert(b[y].key == a[y].key);
    }
    assert forall|x: int| 0 <= x < b.len() implies (#[trigger] b[x]).count > 0 by {
        assert(a[x].count > 0);
    }
    lemma_count_at(a, i);
    lemma_count_at(b, i);
    assert forall|id: K::Id| id != a[i].key.id() implies #[trigger] count_in(b, id) == count_in(
        a,
        id,
    ) by {
        if exists|k: int| 0 <= k < a.len() && (#[trigger] a[k]).key.id() == id {
            let k = choose|k: int| 0 <= k < a.len() && (#[trigger] a[k]).key.id() == id;
            lemma_count_at(a, k);
            assert(b[k] == a[k]);
            lemma_count_at(b, k);
        } else {
            lemma_count_absent(a, id);
            assert forall|k: int| 0 <= k < b.len() implies (#[trigger] b[k]).key.id() != id by {
                assert(b[k].key == a[k].key);
            }
            lemma_count_absent(b, id);
        }
    }
}

/// What an entry says is what was counted, and what was counted has an entry.
pub proof fn lemma_entries<K: CacheKey>(t: Tally<K>, s: Seq<K::Id>)
    requires
        t.counts(s),
    ensures
        forall|i: int|
            0 <= i < t.entries@.len() ==> (#[trigger] t.entries@[i]).count == times(
                s,
                t.entries@[i].key.id(),
            ),
        forall|id: K::Id| #[trigger]
            times(s, id) > 0 ==> exists|i: int|
                0 <= i < t.entries@.len() && (#[trigger] t.entries@[i]).key.id() == id,
{
    assert forall|i: int| 0 <= i < t.entries@.len() implies (#[trigger] t.entries@[i]).count
        == times(s, t.entries@[i].key.id()) by {
        lemma_count_at(t.entries@, i);
        assert(t.count(t.entries@[i].key.id()) == times(s, t.entries@[i].key.id()));
    }
    assert forall|id: K::Id| #[trigger] times(s, id) > 0 implies exists|i: int|
        0 <= i < t.entries@.len() && (#[trigger] t.entries@[i]).key.id() == id by {
        assert(t.count(id) == times(s, id));
        if forall|i: int| 0 <= i < t.entries@.len() ==> (#[trigger] t.entries@[i]).key.id() != id {
            lemma_count_absent(t.entries@, id);
        }
    }
}

/// A label and how often it occurs.
#[derive(Debug)]
pub struct LabelCount {
    pub label: String,
    pub count: i64,
}

/// `r` counts each label once, as often as it occurs.
pub open spec fn are_label_counts(r: Seq<LabelCount>, labels: Seq<Seq<char>>) -> bool {
    &&& forall|i: int|
        0 <= i < r.len() ==> (#[trigger] r[i]).count > 0 && r[i].count == times(
            labels,
            r[i].label@,
        )
    &&& forall|i: int, j: int|
        0 <= i < j < r.len() ==> (#[trigger] r[i]).label@ != (#[trigger] r[j]).label@
    &&& forall|l: Seq<char>| #[trigger]
        labels.contains(l) ==> exists|i: int| 0 <= i < r.len() && (#[trigger] r[i]).label@ == l
}

/// How often each label occurs.
pub fn count_labels(labels: &Vec<String>) -> (r: Vec<LabelCount>)
    requires
        labels.len() <= i64::MAX,
    ensures
        are_label_counts(r@, text::views(labels@)),
{
    let ghost keys = text::views(labels@);
    let mut t: Tally<String> = Tally::new();
    let mut i: usize = 0;
    proof {
        assert(keys.take(0) =~= Seq::<Seq<char>>::empty());
    }
    while i < labels.len()
        invariant
            i <= labels.len(),
            labels.len() <= i64::MAX,
            keys == text::views(labels@),
            t.counts(keys.take(i as int)),
        decreases labels.len() - i,
    {
        let ghost a = keys.take(i as int);
        let ghost b = keys.take(i + 1);
        let ghost before = t;
        let key = labels[i].clone();
        let ghost id = key@;
        proof {
            assert(b.drop_last() =~= a);
            assert(b.last() == id);
            lemma_times_bounds(a, id);
            assert(t.count(id) == times(a, id));
        }
        t.bump(key);
        proof {
            assert forall|x: Seq<char>| #[trigger] t.count(x) == times(b, x) by {
                assert(before.count(x) == times(a, x));
            }
        }
        i += 1;
    }
    proof {
        assert(keys.take(keys.len() as int) =~= keys);
        lemma_entries(t, keys);
    }
    let entries = t.entries;
    let mut out: Vec<LabelCount> = Vec::new();
    let mut j: usize = 0;
    while j < entries.len()
        invariant
            j <= entries.len(),
            out@.len() == j,
            forall|k: int|
                0 <= k < j ==> (#[trigger] out@[k]).label@ == entries@[k].key@ && out@[k].count
                    == entries@[k].count,
        decreases entries.len() - j,
    {
        let e = &entries[j];
        out.push(LabelCount { label: e.key.clone(), count: e.count });
        j += 1;
    }
    proof {
        assert forall|a: int| 0 <= a < out@.len() implies (#[trigger] out@[a]).count > 0
            && out@[a].count == times(keys, out@[a].label@) by {
            assert(entries@[a].key.id() == out@[a].label@);
        }
        assert forall|a: int, b: int| 0 <= a < b < out@.len() implies (#[trigger] out@[a]).label@
            != (#[trigger] out@[b]).label@ by {
            assert(entries@[a].key.id() != entries@[b].key.id());
        }
        assert forall|l: Seq<char>| #[trigger] keys.contains(l) implies exists|i: int|
            0 <= i < out@.len() && (#[trigger] out@[i]).label@ == l by {
            lemma_times_bounds(keys, l);
            assert(times(keys, l) > 0);
            let k = choose|k: int| 0 <= k < entries@.len() && (#[trigger] entries@[k]).key.id() == l;
            assert(out@[k].label@ == l);
        }
    }
    out
}

/// What a filter leaves occurs as often as before, and the rest not at all.
pub proof fn lemma_times_filter<A>(s: Seq<A>, keep: spec_fn(A) -> bool, x: A)
    ensures
        times(s.filter(keep), x) == (if keep(x) {
            times(s, x)
        } else {
            0
        }),
    decreases s.len(),
{
    reveal(Seq::filter);
    if s.len() > 0 {
        let init = s.drop_last();
        lemma_times_filter(init, keep, x);
        if keep(s.last()) {
            assert(init.filter(keep).push(s.last()).drop_last() =~= init.filter(keep));
        }
    }
}

/// What is left of a list when each value stays only where it occurs first.
pub open spec fn firsts<A>(s: Seq<A>) -> Seq<A>
    decreases s.len(),
{
    if s.len() == 0 {
        s
    } else {
        let rest = firsts(s.drop_last());
        if rest.contains(s.last()) {
            rest
        } else {
            rest.push(s.last())
        }
    }
}

/// The first values of a list hold each of its values once.
pub proof fn lemma_firsts<A>(s: Seq<A>)
    ensures
        firsts(s).no_duplicates(),
        forall|x: A| #[trigger] firsts(s).contains(x) <==> s.contains(x),
    decreases s.len(),
{
    if s.len() > 0 {
        let init = s.drop_last();
        lemma_firsts(init);
        let rest = firsts(init);
        assert forall|x: A| #[trigger] firsts(s).contains(x) <==> s.contains(x) by {
            if s.contains(x) {
                let i = choose|i: int| 0 <= i < s.len() && s[i] == x;
                if i < init.len() {
                    assert(init[i] == x);
                    assert(init.contains(x));
                    assert(firsts(init).contains(x));
                    let k = choose|k: int| 0 <= k < rest.len() && rest[k] == x;
                    assert(firsts(s)[k] == x);
                } else if !rest.contains(x) {
                    assert(firsts(s)[rest.len() as int] == x);
                }
            }
            if firsts(s).contains(x) {
                let k = choose|k: int| 0 <= k < firsts(s).len() && firsts(s)[k] == x;
                if k < rest.len() {
                    assert(rest[k] == x);
                    assert(firsts(init).contains(x));
                    let i = choose|i: int| 0 <= i < init.len() && init[i] == x;
                    assert(s[i] == x);
                } else {
                    assert(s[s.len() - 1] == x);
                }
            }
        }
    }
}

/// One value more adds itself to the first values, unless it is among them.
pub proof fn lemma_firsts_push<A>(s: Seq<A>, x: A)
    ensures
        firsts(s.push(x)) == (if s.contains(x) {
            firsts(s)
        } else {
            firsts(s).push(x)
        }),
{
    lemma_firsts(s);
    assert(s.push(x).drop_last() =~= s);
}

} // verus!
