//! Small maps whose entries age.

use vstd::prelude::*;

use crate::text::text_eq;

verus! {

/// A key of a timed map. Keys are the same when what they stand for is.
pub trait CacheKey: Sized {
    type Id;

    spec fn id(&self) -> Self::Id;

    fn same(&self, other: &Self) -> (b: bool)
        ensures
            b == (self.id() == other.id()),
    ;
}

impl CacheKey for i64 {
    type Id = i64;

    open spec fn id(&self) -> i64 {
        *self
    }

    fn same(&self, other: &Self) -> (b: bool) {
        *self == *other
    }
}

impl CacheKey for String {
    type Id = Seq<char>;

    open spec fn id(&self) -> Seq<char> {
        self@
    }

    fn same(&self, other: &Self) -> (b: bool) {
        text_eq(self.as_str(), other.as_str())
    }
}

/// A value and the time it was stored, in milliseconds of a clock that does
/// not run backward.
pub struct TimedEntry<K, V> {
    pub key: K,
    pub value: V,
    pub at: u64,
}

/// How old something stored at `at` is at `now`.
pub open spec fn age(now: u64, at: u64) -> int {
    if now >= at {
        now - at
    } else {
        0
    }
}

pub fn age_at(now: u64, at: u64) -> (r: u64)
    ensures
        r == age(now, at),
{
    if now >= at {
        now - at
    } else {
        0
    }
}

/// No key occurs twice.
pub open spec fn distinct_keys<K: CacheKey, V>(s: Seq<TimedEntry<K, V>>) -> bool {
    forall|i: int, j: int| 0 <= i < j < s.len() ==> (#[trigger] s[i]).key.id() != (#[trigger] s[j]).key.id()
}

/// Some entry has the key.
pub open spec fn has_key<K: CacheKey, V>(s: Seq<TimedEntry<K, V>>, key: K::Id) -> bool {
    exists|i: int| 0 <= i < s.len() && (#[trigger] s[i]).key.id() == key
}

/// The entry of a key.
pub open spec fn entry_of<K: CacheKey, V>(s: Seq<TimedEntry<K, V>>, key: K::Id) -> Option<TimedEntry<K, V>> {
    if has_key(s, key) {
        Some(s[choose|i: int| 0 <= i < s.len() && (#[trigger] s[i]).key.id() == key])
    } else {
        None
    }
}

proof fn lemma_entry_at<K: CacheKey, V>(s: Seq<TimedEntry<K, V>>, i: int)
    requires
        distinct_keys(s),
        0 <= i < s.len(),
    ensures
        entry_of(s, s[i].key.id()) == Some(s[i]),
{
    let j = choose|j: int| 0 <= j < s.len() && (#[trigger] s[j]).key.id() == s[i].key.id();
    assert(s[i].key.id() == s[i].key.id());
    if j < i {
        assert(s[j].key.id() != s[i].key.id());
    }
    if i < j {
        assert(s[i].key.id() != s[j].key.id());
    }
}

proof fn lemma_entry_witness<K: CacheKey, V>(s: Seq<TimedEntry<K, V>>, key: K::Id) -> (i: int)
    requires
        has_key(s, key),
    ensures
        0 <= i < s.len(),
        s[i].key.id() == key,
        entry_of(s, key) == Some(s[i]),
{
    choose|i: int| 0 <= i < s.len() && (#[trigger] s[i]).key.id() == key
}

proof fn lemma_remove<K: CacheKey, V>(s: Seq<TimedEntry<K, V>>, i: int)
    requires
        distinct_keys(s),
        0 <= i < s.len(),
    ensures
        distinct_keys(s.remove(i)),
        forall|k: int|
            0 <= k < s.len() - 1 ==> #[trigger] s.remove(i)[k] == s[if k < i {
                k
            } else {
                k + 1
            }],
        entry_of(s.remove(i), s[i].key.id()) is None,
        forall|key: K::Id|
            key != s[i].key.id() ==> #[trigger] entry_of(s.remove(i), key) == entry_of(s, key),
{
    let t = s.remove(i);
    assert forall|a: int, b: int| 0 <= a < b < t.len() implies (#[trigger] t[a]).key.id() != (#[trigger] t[b]).key.id() by {
        let x = if a < i {
            a
        } else {
            a + 1
        };
        let y = if b < i {
            b
        } else {
            b + 1
        };
        assert(t[a] == s[x] && t[b] == s[y]);
    }
    assert forall|key: K::Id| key != s[i].key.id() implies #[trigger] entry_of(t, key) == entry_of(
        s,
        key,
    ) by {
        if has_key(s, key) {
            let j = lemma_entry_witness(s, key);
            let k = if j < i {
                j
            } else {
                j - 1
            };
            assert(t[k] == s[j]);
            lemma_entry_at(t, k);
        } else if has_key(t, key) {
            let k = lemma_entry_witness(t, key);
            let j = if k < i {
                k
            } else {
                k + 1
            };
            assert(s[j].key.id() == key);
        }
    }
    if has_key(t, s[i].key.id()) {
        let k = lemma_entry_witness(t, s[i].key.id());
        let j = if k < i {
            k
        } else {
            k + 1
        };
        assert(s[j].key.id() == s[i].key.id());
    }
}

proof fn lemma_update<K: CacheKey, V>(s: Seq<TimedEntry<K, V>>, i: int, e: TimedEntry<K, V>)
    requires
        distinct_keys(s),
        0 <= i < s.len(),
        e.key.id() == s[i].key.id(),
    ensures
        distinct_keys(s.update(i, e)),
        entry_of(s.update(i, e), e.key.id()) == Some(e),
        forall|key: K::Id|
            key != e.key.id() ==> #[trigger] entry_of(s.update(i, e), key) == entry_of(s, key),
{
    let t = s.update(i, e);
    assert forall|a: int, b: int| 0 <= a < b < t.len() implies (#[trigger] t[a]).key.id() != (#[trigger] t[b]).key.id() by {
        assert(t[a].key.id() == s[a].key.id() && t[b].key.id() == s[b].key.id());
    }
    lemma_entry_at(t, i);
    assert forall|key: K::Id| key != e.key.id() implies #[trigger] entry_of(t, key) == entry_of(s, key) by {
        if has_key(s, key) {
            let j = lemma_entry_witness(s, key);
            assert(t[j] == s[j]);
            lemma_entry_at(t, j);
        } else if has_key(t, key) {
            let k = lemma_entry_witness(t, key);
            assert(s[k].key.id() == key);
        }
    }
}

proof fn lemma_push<K: CacheKey, V>(s: Seq<TimedEntry<K, V>>, e: TimedEntry<K, V>)
    requires
        distinct_keys(s),
        !has_key(s, e.key.id()),
    ensures
        distinct_keys(s.push(e)),
        entry_of(s.push(e), e.key.id()) == Some(e),
        forall|key: K::Id|
            key != e.key.id() ==> #[trigger] entry_of(s.push(e), key) == entry_of(s, key),
{
    let t = s.push(e);
    assert forall|a: int, b: int| 0 <= a < b < t.len() implies (#[trigger] t[a]).key.id() != (#[trigger] t[b]).key.id() by {
        assert(t[a] == s[a]);
        assert(s[a].key.id() == t[a].key.id());
        if b < s.len() {
            assert(t[b] == s[b]);
        }
    }
    assert(t[s.len() as int] == e);
    lemma_entry_at(t, s.len() as int);
    assert forall|key: K::Id| key != e.key.id() implies #[trigger] entry_of(t, key) == entry_of(s, key) by {
        if has_key(s, key) {
            let j = lemma_entry_witness(s, key);
            assert(t[j] == s[j]);
            lemma_entry_at(t, j);
        } else if has_key(t, key) {
            let k = lemma_entry_witness(t, key);
            assert(s[k].key.id() == key);
        }
    }
}

/// A key that stands in the list has its entry.
pub proof fn lemma_find_at<K: CacheKey, V>(m: TimedMap<K, V>, i: int)
    requires
        m.wf(),
        0 <= i < m.entries@.len(),
    ensures
        m.find(m.entries@[i].key.id()) == Some(m.entries@[i]),
{
    lemma_entry_at(m.entries@, i);
}

/// An entry stands somewhere in the list.
pub proof fn lemma_find_position<K: CacheKey, V>(m: TimedMap<K, V>, key: K::Id) -> (i: int)
    requires
        m.find(key) is Some,
    ensures
        0 <= i < m.entries@.len(),
        m.find(key) == Some(m.entries@[i]),
        m.entries@[i].key.id() == key,
{
    lemma_entry_witness(m.entries@, key)
}

/// A map whose entries remember when they were stored.
pub struct TimedMap<K: CacheKey, V> {
    pub entries: Vec<TimedEntry<K, V>>,
}

impl<K: CacheKey, V> TimedMap<K, V> {
    pub open spec fn wf(&self) -> bool {
        distinct_keys(self.entries@)
    }

    /// The entry of a key.
    pub open spec fn find(&self, key: K::Id) -> Option<TimedEntry<K, V>> {
        entry_of(self.entries@, key)
    }

    pub open spec fn count(&self) -> nat {
        self.entries@.len()
    }

    /// The value of a key, while it is younger than `ttl`.
    pub open spec fn live(&self, key: K::Id, now: u64, ttl: u64) -> Option<V> {
        match self.find(key) {
            Some(e) => if age(now, e.at) < ttl {
                Some(e.value)
            } else {
                None
            },
            None => None,
        }
    }

    pub fn new() -> (r: TimedMap<K, V>)
        ensures
            r.wf(),
            r.count() == 0,
            forall|k: K::Id| (#[trigger] r.find(k)) is None,
    {
        TimedMap { entries: Vec::new() }
    }

    fn position(&self, key: &K) -> (r: Option<usize>)
        requires
            self.wf(),
        ensures
            match r {
                Some(i) => i < self.entries@.len() && self.entries@[i as int].key.id() == key.id()
                    && self.find(key.id()) == Some(self.entries@[i as int]),
                None => !has_key(self.entries@, key.id()),
            },
    {
        let mut i: usize = 0;
        while i < self.entries.len()
            invariant
                self.wf(),
                i <= self.entries.len(),
                forall|k: int| 0 <= k < i ==> (#[trigger] self.entries@[k]).key.id() != key.id(),
            decreases self.entries.len() - i,
        {
            if self.entries[i].key.same(key) {
                proof {
                    lemma_entry_at(self.entries@, i as int);
                }
                return Some(i);
            }
            i += 1;
        }
        None
    }

    /// The value of a key, while it is younger than `ttl`.
    pub fn get(&self, key: &K, now: u64, ttl: u64) -> (r: Option<&V>)
        requires
            self.wf(),
        ensures
            match r {
                Some(v) => self.live(key.id(), now, ttl) == Some(*v),
                None => self.live(key.id(), now, ttl) is None,
            },
    {
        match self.position(key) {
            Some(i) => {
                if age_at(now, self.entries[i].at) < ttl {
                    Some(&self.entries[i].value)
                } else {
                    None
                }
            },
            None => None,
        }
    }

    /// Stores a value under a key, in place of an earlier one.
    pub fn put(&mut self, key: K, value: V, now: u64)
        requires
            old(self).wf(),
        ensures
            final(self).wf(),
            final(self).find(key.id()) == Some(TimedEntry { key, value, at: now }),
            forall|k: K::Id| k != key.id() ==> (#[trigger] final(self).find(k)) == old(self).find(k),
            final(self).count() == old(self).count() + (if old(self).find(key.id()) is Some {
                0int
            } else {
                1int
            }),
            old(self).find(key.id()) is None ==> final(self).entries@ == old(self).entries@.push(
                TimedEntry { key, value, at: now },
            ),
    {
        let e = TimedEntry { key, value, at: now };
        match self.position(&e.key) {
            Some(i) => {
                proof {
                    lemma_update(self.entries@, i as int, e);
                }
                self.entries.set(i, e);
            },
            None => {
                proof {
                    lemma_push(self.entries@, e);
                }
                self.entries.push(e);
            },
        }
    }

    /// Drops the entry of a key.
    pub fn remove(&mut self, key: &K)
        requires
            old(self).wf(),
        ensures
            final(self).wf(),
            final(self).find(key.id()) is None,
            forall|k: K::Id| k != key.id() ==> (#[trigger] final(self).find(k)) == old(self).find(k),
            final(self).count() <= old(self).count(),
    {
        match self.position(key) {
            Some(i) => {
                proof {
                    lemma_remove(self.entries@, i as int);
                }
                let _gone = self.entries.remove(i);
            },
            None => {},
        }
    }

    /// Drops every entry.
    pub fn clear(&mut self)
        ensures
            final(self).wf(),
            final(self).count() == 0,
            forall|k: K::Id| (#[trigger] final(self).find(k)) is None,
    {
        self.entries.clear();
    }

    /// Drops the entries that are `ttl` old or older.
    pub fn drop_stale(&mut self, now: u64, ttl: u64)
        requires
            old(self).wf(),
        ensures
            final(self).wf(),
            forall|k: K::Id|
                (#[trigger] final(self).find(k)) == (match old(self).find(k) {
                    Some(e) => if age(now, e.at) < ttl {
                        Some(e)
                    } else {
                        None
                    },
                    None => None,
                }),
            final(self).count() <= old(self).count(),
    {
        let ghost before = *self;
        let mut i: usize = 0;
        while i < self.entries.len()
            invariant
                self.wf(),
                before.wf(),
                before == *old(self),
                i <= self.entries.len(),
                self.count() <= before.count(),
                forall|m: int| 0 <= m < i ==> age(now, (#[trigger] self.entries@[m]).at) < ttl,
                forall|k: K::Id|
                    (#[trigger] self.find(k)) == before.find(k) || (self.find(k) is None
                        && before.find(k) is Some && age(now, before.find(k)->0.at) >= ttl),
            decreases self.entries.len() - i,
        {
            if age_at(now, self.entries[i].at) < ttl {
                i += 1;
            } else {
                let ghost cur = *self;
                proof {
                    lemma_entry_at(self.entries@, i as int);
                    lemma_remove(self.entries@, i as int);
                }
                let _gone = self.entries.remove(i);
                proof {
                    assert forall|k: K::Id|
                        (#[trigger] self.find(k)) == before.find(k) || (self.find(k) is None
                            && before.find(k) is Some && age(now, before.find(k)->0.at)
                            >= ttl) by {
                        assert(cur.find(k) == before.find(k) || cur.find(k) is None);
                    }
                }
            }
        }
        proof {
            assert forall|k: K::Id|
                (#[trigger] self.find(k)) == (match before.find(k) {
                    Some(e) => if age(now, e.at) < ttl {
                        Some(e)
                    } else {
                        None
                    },
                    None => None,
                }) by {
                if has_key(self.entries@, k) {
                    let m = lemma_entry_witness(self.entries@, k);
                    assert(age(now, self.entries@[m].at) < ttl);
                }
            }
        }
    }

    /// The position of the oldest entry, the first of them where several are.
    fn oldest(&self) -> (r: usize)
        requires
            self.entries@.len() > 0,
        ensures
            r < self.entries@.len(),
            forall|k: int|
                0 <= k < self.entries@.len() ==> self.entries@[r as int].at <= (
                #[trigger] self.entries@[k]).at,
            forall|k: int|
                0 <= k < r ==> self.entries@[r as int].at < (#[trigger] self.entries@[k]).at,
    {
        let mut best: usize = 0;
        let mut i: usize = 1;
        while i < self.entries.len()
            invariant
                1 <= i <= self.entries@.len(),
                best < i,
                forall|k: int|
                    0 <= k < i ==> self.entries@[best as int].at <= (#[trigger] self.entries@[k]).at,
                forall|k: int|
                    0 <= k < best ==> self.entries@[best as int].at < (
                    #[trigger] self.entries@[k]).at,
            decreases self.entries.len() - i,
        {
            if self.entries[i].at < self.entries[best].at {
                best = i;
            }
            i += 1;
        }
        best
    }

    /// Drops the oldest entries until at most `max` are left.
    pub fn drop_oldest(&mut self, max: usize)
        requires
            old(self).wf(),
        ensures
            final(self).wf(),
            final(self).count() == (if old(self).count() > max {
                max as nat
            } else {
                old(self).count()
            }),
            old(self).count() <= max ==> *final(self) == *old(self),
            forall|k: K::Id|
                (#[trigger] final(self).find(k)) is Some ==> final(self).find(k) == old(self).find(
                    k,
                ),
            forall|gone: K::Id, kept: K::Id|
                (#[trigger] old(self).find(gone)) is Some && final(self).find(gone) is None && (
                #[trigger] final(self).find(kept)) is Some ==> old(self).find(gone)->0.at
                    <= old(self).find(kept)->0.at,
    {
        let ghost before = *self;
        while self.entries.len() > max
            invariant
                self.wf(),
                before == *old(self),
                before.wf(),
                self.count() <= before.count(),
                self.count() >= max || self.count() == before.count(),
                before.count() <= max ==> *self == before,
                forall|k: K::Id| (#[trigger] self.find(k)) is Some ==> self.find(k) == before.find(k),
                forall|gone: K::Id, m: int|
                    (#[trigger] before.find(gone)) is Some && self.find(gone) is None && 0 <= m
                        < self.entries@.len() ==> before.find(gone)->0.at <= (
                    #[trigger] self.entries@[m]).at,
            decreases self.entries.len(),
        {
            let i: usize = self.oldest();
            let ghost cur = *self;
            proof {
                lemma_entry_at(self.entries@, i as int);
                lemma_remove(self.entries@, i as int);
            }
            let _gone = self.entries.remove(i);
            proof {
                assert forall|gone: K::Id, m: int|
                    (#[trigger] before.find(gone)) is Some && self.find(gone) is None && 0 <= m
                        < self.entries@.len() implies before.find(gone)->0.at <= (
                #[trigger] self.entries@[m]).at by {
                    let x = if m < i {
                        m
                    } else {
                        m + 1
                    };
                    assert(self.entries@[m] == cur.entries@[x]);
                    if gone == cur.entries@[i as int].key.id() {
                        assert(before.find(gone) == cur.find(gone));
                        assert(cur.entries@[i as int].at <= cur.entries@[x].at);
                    } else {
                        assert(cur.find(gone) == self.find(gone));
                        assert(before.find(gone)->0.at <= cur.entries@[x].at);
                    }
                }
            }
        }
        proof {
            assert forall|gone: K::Id, kept: K::Id|
                (#[trigger] before.find(gone)) is Some && self.find(gone) is None && (
                #[trigger] self.find(kept)) is Some implies before.find(gone)->0.at <= before.find(
                kept,
            )->0.at by {
                let m = lemma_entry_witness(self.entries@, kept);
                assert(self.find(kept) == before.find(kept));
                assert(before.find(gone)->0.at <= self.entries@[m].at);
            }
        }
    }
}

} // verus!
