//! Short-lived per-account caches: posts seen recently or long ago, posts
//! owned, and candidate posts. Times are milliseconds.

use std::collections::HashSet;
use std::sync::Arc;

use vstd::prelude::*;

use crate::timed;
use crate::timed::{TimedEntry, TimedMap};

verus! {

pub const CACHE_MAX_ENTRIES: usize = 1024;

pub const RECENT_SEEN_TTL_MS: u64 = 20_000;

pub const LONG_TERM_SEEN_TTL_MS: u64 = 30_000;

pub const OWNED_TTL_MS: u64 = 60_000;

pub const CANDIDATE_TTL_MS: u64 = 20_000;

/// How long entries of the set caches are kept at all.
pub const SET_KEEP_MS: u64 = 60_000;

/// The caches of the feed hydrator.
pub struct HydrateCache {
    pub recent: TimedMap<i64, Arc<HashSet<i64>>>,
    pub long_term: TimedMap<i64, Arc<HashSet<i64>>>,
    pub owned: TimedMap<i64, Arc<HashSet<i64>>>,
    pub candidates: TimedMap<i64, Arc<Vec<i64>>>,
}

/// A cache is sound and within its bound.
pub open spec fn bounded<V>(m: TimedMap<i64, V>) -> bool {
    m.wf() && m.count() <= CACHE_MAX_ENTRIES
}

impl HydrateCache {
    pub open spec fn wf(&self) -> bool {
        &&& bounded(self.recent)
        &&& bounded(self.long_term)
        &&& bounded(self.owned)
        &&& bounded(self.candidates)
    }

    pub fn new() -> (r: HydrateCache)
        ensures
            r.wf(),
            forall|k: i64| (#[trigger] r.recent.find(k)) is None,
            forall|k: i64| (#[trigger] r.long_term.find(k)) is None,
            forall|k: i64| (#[trigger] r.owned.find(k)) is None,
            forall|k: i64| (#[trigger] r.candidates.find(k)) is None,
    {
        HydrateCache {
            recent: TimedMap::new(),
            long_term: TimedMap::new(),
            owned: TimedMap::new(),
            candidates: TimedMap::new(),
        }
    }
}

/// `b` is `a` after a value was stored under `key`: entries `keep` old or older are
/// gone, the stored value is there, and the rest is as it was, except that a full
/// cache gives up its oldest entries.
pub open spec fn stored_into<V>(
    a: TimedMap<i64, V>,
    b: TimedMap<i64, V>,
    key: i64,
    value: V,
    now: u64,
    keep: u64,
) -> bool {
    &&& bounded(b)
    &&& b.find(key) == Some(TimedEntry { key, value, at: now })
    &&& forall|k: i64|
        k != key && (#[trigger] b.find(k)) is Some ==> b.find(k) == a.find(k) && timed::age(
            now,
            a.find(k)->0.at,
        ) < keep
    &&& forall|k: i64|
        k != key && a.find(k) is Some && timed::age(now, a.find(k)->0.at) < keep && (
        #[trigger] b.find(k)) is None ==> b.count() == CACHE_MAX_ENTRIES
    &&& forall|k: i64, other: i64|
        k != key && a.find(k) is Some && timed::age(now, a.find(k)->0.at) < keep && (
        #[trigger] b.find(k)) is None && other != key && (#[trigger] b.find(other)) is Some
            ==> a.find(k)->0.at <= b.find(other)->0.at
}

/// Stores a value, dropping what is too old and keeping within the bound. Room is
/// made before the value is stored, so it never gives way itself.
fn put_bounded<V>(map: &mut TimedMap<i64, V>, key: i64, value: V, now: u64, keep: u64)
    requires
        bounded(*old(map)),
    ensures
        stored_into(*old(map), *final(map), key, value, now, keep),
{
    let ghost a = *map;
    map.drop_stale(now, keep);
    let ghost b = *map;
    map.remove(&key);
    let ghost c = *map;
    map.drop_oldest(CACHE_MAX_ENTRIES - 1);
    let ghost d = *map;
    map.put(key, value, now);
    proof {
        let e = *map;
        assert(d.find(key) is None);
        assert forall|k: i64| k != key && (#[trigger] e.find(k)) is Some implies e.find(k)
            == a.find(k) && timed::age(now, a.find(k)->0.at) < keep by {
            assert(e.find(k) == d.find(k));
            assert(d.find(k) == c.find(k));
            assert(c.find(k) == b.find(k));
        }
        assert forall|k: i64|
            k != key && a.find(k) is Some && timed::age(now, a.find(k)->0.at) < keep && (
            #[trigger] e.find(k)) is None implies e.count() == CACHE_MAX_ENTRIES by {
            assert(b.find(k) == a.find(k));
            assert(c.find(k) == a.find(k));
            assert(d.find(k) is None);
        }
        assert forall|k: i64, other: i64|
            k != key && a.find(k) is Some && timed::age(now, a.find(k)->0.at) < keep && (
            #[trigger] e.find(k)) is None && other != key && (#[trigger] e.find(other)) is Some implies a.find(
            k,
        )->0.at <= e.find(other)->0.at by {
            assert(b.find(k) == a.find(k));
            assert(c.find(k) == a.find(k));
            assert(d.find(k) is None);
            assert(d.find(other) == e.find(other));
            assert(c.find(other) == d.find(other));
        }
    }
}

/// The posts an account saw lately, while the entry is good.
pub fn recent_seen(cache: &HydrateCache, account_id: i64, now: u64) -> (r: Option<Arc<HashSet<i64>>>)
    requires
        cache.wf(),
    ensures
        match r {
            Some(v) => cache.recent.live(account_id, now, RECENT_SEEN_TTL_MS) == Some(v),
            None => cache.recent.live(account_id, now, RECENT_SEEN_TTL_MS) is None,
        },
{
    match cache.recent.get(&account_id, now, RECENT_SEEN_TTL_MS) {
        Some(v) => Some(v.clone()),
        None => None,
    }
}

pub fn store_recent_seen(cache: &mut HydrateCache, account_id: i64, set: HashSet<i64>, now: u64) -> (r: Arc<
    HashSet<i64>,
>)
    requires
        old(cache).wf(),
    ensures
        *r == set,
        final(cache).wf(),
        stored_into(
            old(cache).recent,
            final(cache).recent,
            account_id,
            r,
            now,
            SET_KEEP_MS,
        ),
        final(cache).long_term == old(cache).long_term,
        final(cache).owned == old(cache).owned,
        final(cache).candidates == old(cache).candidates,
{
    let shared = Arc::new(set);
    put_bounded(&mut cache.recent, account_id, shared.clone(), now, SET_KEEP_MS);
    shared
}

/// The posts an account ever saw, while the entry is good.
pub fn long_term_seen(cache: &HydrateCache, account_id: i64, now: u64) -> (r: Option<
    Arc<HashSet<i64>>,
>)
    requires
        cache.wf(),
    ensures
        match r {
            Some(v) => cache.long_term.live(account_id, now, LONG_TERM_SEEN_TTL_MS) == Some(v),
            None => cache.long_term.live(account_id, now, LONG_TERM_SEEN_TTL_MS) is None,
        },
{
    match cache.long_term.get(&account_id, now, LONG_TERM_SEEN_TTL_MS) {
        Some(v) => Some(v.clone()),
        None => None,
    }
}

pub fn store_long_term_seen(cache: &mut HydrateCache, account_id: i64, set: HashSet<i64>, now: u64) -> (r: Arc<
    HashSet<i64>,
>)
    requires
        old(cache).wf(),
    ensures
        *r == set,
        final(cache).wf(),
        stored_into(
            old(cache).long_term,
            final(cache).long_term,
            account_id,
            r,
            now,
            SET_KEEP_MS,
        ),
        final(cache).recent == old(cache).recent,
        final(cache).owned == old(cache).owned,
        final(cache).candidates == old(cache).candidates,
{
    let shared = Arc::new(set);
    put_bounded(&mut cache.long_term, account_id, shared.clone(), now, SET_KEEP_MS);
    shared
}

/// The posts an account owns, while the entry is good.
pub fn owned(cache: &HydrateCache, account_id: i64, now: u64) -> (r: Option<Arc<HashSet<i64>>>)
    requires
        cache.wf(),
    ensures
        match r {
            Some(v) => cache.owned.live(account_id, now, OWNED_TTL_MS) == Some(v),
            None => cache.owned.live(account_id, now, OWNED_TTL_MS) is None,
        },
{
    match cache.owned.get(&account_id, now, OWNED_TTL_MS) {
        Some(v) => Some(v.clone()),
        None => None,
    }
}

pub fn store_owned(cache: &mut HydrateCache, account_id: i64, set: HashSet<i64>, now: u64) -> (r: Arc<
    HashSet<i64>,
>)
    requires
        old(cache).wf(),
    ensures
        *r == set,
        final(cache).wf(),
        stored_into(old(cache).owned, final(cache).owned, account_id, r, now, SET_KEEP_MS),
        final(cache).recent == old(cache).recent,
        final(cache).long_term == old(cache).long_term,
        final(cache).candidates == old(cache).candidates,
{
    let shared = Arc::new(set);
    put_bounded(&mut cache.owned, account_id, shared.clone(), now, SET_KEEP_MS);
    shared
}

/// The candidate posts of an account, while the entry is good.
pub fn candidates(cache: &HydrateCache, account_id: i64, now: u64) -> (r: Option<Arc<Vec<i64>>>)
    requires
        cache.wf(),
    ensures
        match r {
            Some(v) => cache.candidates.live(account_id, now, CANDIDATE_TTL_MS) == Some(v),
            None => cache.candidates.live(account_id, now, CANDIDATE_TTL_MS) is None,
        },
{
    match cache.candidates.get(&account_id, now, CANDIDATE_TTL_MS) {
        Some(v) => Some(v.clone()),
        None => None,
    }
}

pub fn store_candidates(cache: &mut HydrateCache, account_id: i64, ids: Vec<i64>, now: u64) -> (r: Arc<
    Vec<i64>,
>)
    requires
        old(cache).wf(),
    ensures
        *r == ids,
        final(cache).wf(),
        stored_into(
            old(cache).candidates,
            final(cache).candidates,
            account_id,
            r,
            now,
            CANDIDATE_TTL_MS,
        ),
        final(cache).recent == old(cache).recent,
        final(cache).long_term == old(cache).long_term,
        final(cache).owned == old(cache).owned,
{
    let shared = Arc::new(ids);
    put_bounded(&mut cache.candidates, account_id, shared.clone(), now, CANDIDATE_TTL_MS);
    shared
}

/// `b` is `a` without the entry of `key`.
pub open spec fn without<V>(a: TimedMap<i64, V>, b: TimedMap<i64, V>, key: i64) -> bool {
    &&& b.find(key) is None
    &&& forall|k: i64| k != key ==> (#[trigger] b.find(k)) == a.find(k)
}

/// Forgets what an account saw.
pub fn clear_seen(cache: &mut HydrateCache, account_id: i64)
    requires
        old(cache).wf(),
    ensures
        final(cache).wf(),
        without(old(cache).recent, final(cache).recent, account_id),
        without(old(cache).long_term, final(cache).long_term, account_id),
        final(cache).owned == old(cache).owned,
        final(cache).candidates == old(cache).candidates,
{
    cache.recent.remove(&account_id);
    cache.long_term.remove(&account_id);
}

/// Forgets what an account owns, and its candidates.
pub fn clear_owned_and_candidates(cache: &mut HydrateCache, account_id: i64)
    requires
        old(cache).wf(),
    ensures
        final(cache).wf(),
        without(old(cache).owned, final(cache).owned, account_id),
        without(old(cache).candidates, final(cache).candidates, account_id),
        final(cache).recent == old(cache).recent,
        final(cache).long_term == old(cache).long_term,
{
    cache.owned.remove(&account_id);
    cache.candidates.remove(&account_id);
}

/// What was just stored is read back until its time is over.
pub proof fn law_read_back<V>(
    a: TimedMap<i64, V>,
    b: TimedMap<i64, V>,
    key: i64,
    value: V,
    at: u64,
    keep: u64,
    now: u64,
    ttl: u64,
)
    requires
        stored_into(a, b, key, value, at, keep),
        at <= now,
    ensures
        b.live(key, now, ttl) == (if now - at < ttl {
            Some(value)
        } else {
            None
        }),
{
}

/// The keys other than `key` whose entries are younger than `keep`.
pub open spec fn fresh_others<V>(a: TimedMap<i64, V>, key: i64, now: u64, keep: u64) -> Set<i64> {
    Set::new(|k: i64| k != key && a.find(k) is Some && timed::age(now, a.find(k)->0.at) < keep)
}

/// The keys of the entries in order.
spec fn keys_of<V>(m: TimedMap<i64, V>) -> Seq<i64> {
    m.entries@.map_values(|e: TimedEntry<i64, V>| e.key)
}

proof fn lemma_keys<V>(m: TimedMap<i64, V>)
    requires
        m.wf(),
    ensures
        keys_of(m).to_set().finite(),
        keys_of(m).to_set().len() == m.count(),
        forall|k: i64| (#[trigger] keys_of(m).to_set().contains(k)) <==> m.find(k) is Some,
{
    let s = keys_of(m);
    assert(s.no_duplicates());
    s.unique_seq_to_set();
    assert forall|k: i64| (#[trigger] s.to_set().contains(k)) <==> m.find(k) is Some by {
        if s.contains(k) {
            let i = choose|i: int| 0 <= i < s.len() && s[i] == k;
            timed::lemma_find_at(m, i);
        }
        if m.find(k) is Some {
            let i = timed::lemma_find_position(m, k);
            assert(s[i] == k);
        }
    }
}

/// Storing a value leaves the entries of other accounts alone while they are fresh
/// and there is room for all of them.
pub proof fn law_others_stay<V>(
    a: TimedMap<i64, V>,
    b: TimedMap<i64, V>,
    key: i64,
    value: V,
    now: u64,
    keep: u64,
    other: i64,
)
    requires
        a.wf(),
        stored_into(a, b, key, value, now, keep),
        fresh_others(a, key, now, keep).len() < CACHE_MAX_ENTRIES,
        fresh_others(a, key, now, keep).contains(other),
    ensures
        b.find(other) == a.find(other),
{
    let fresh = fresh_others(a, key, now, keep);
    lemma_keys(a);
    lemma_keys(b);
    let in_a = keys_of(a).to_set();
    let kept = keys_of(b).to_set().remove(key);
    assert(fresh.subset_of(in_a));
    vstd::set_lib::lemma_len_subset(fresh, in_a);
    if b.find(other) is None {
        assert(keys_of(b).to_set().contains(key));
        assert(kept.subset_of(fresh.remove(other)));
        vstd::set_lib::lemma_len_subset(kept, fresh.remove(other));
    }
}

/// What an account saw lately and its candidates are good for twenty seconds, what
/// it ever saw for thirty, and what it owns for a minute.
pub proof fn law_cache_lifetimes<V>(
    a: TimedMap<i64, V>,
    b: TimedMap<i64, V>,
    key: i64,
    value: V,
    at: u64,
    keep: u64,
    now: u64,
)
    requires
        stored_into(a, b, key, value, at, keep),
        at <= now,
    ensures
        b.live(key, now, RECENT_SEEN_TTL_MS) is Some <==> now - at < 20_000,
        b.live(key, now, CANDIDATE_TTL_MS) is Some <==> now - at < 20_000,
        b.live(key, now, LONG_TERM_SEEN_TTL_MS) is Some <==> now - at < 30_000,
        b.live(key, now, OWNED_TTL_MS) is Some <==> now - at < 60_000,
{
    law_read_back(a, b, key, value, at, keep, now, RECENT_SEEN_TTL_MS);
    law_read_back(a, b, key, value, at, keep, now, CANDIDATE_TTL_MS);
    law_read_back(a, b, key, value, at, keep, now, LONG_TERM_SEEN_TTL_MS);
    law_read_back(a, b, key, value, at, keep, now, OWNED_TTL_MS);
}

/// Clearing an account forgets its entry and no other.
pub proof fn law_cleared_is_gone<V>(
    a: TimedMap<i64, V>,
    b: TimedMap<i64, V>,
    key: i64,
    other: i64,
    now: u64,
    ttl: u64,
)
    requires
        without(a, b, key),
        other != key,
    ensures
        b.live(key, now, ttl) is None,
        b.live(other, now, ttl) == a.live(other, now, ttl),
{
    assert(b.find(other) == a.find(other));
}

} // verus!
