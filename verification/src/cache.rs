//! A map whose entries expire: each entry remembers when it was stored, and
//! compaction drops the entries older than the time-to-live.

use vstd::prelude::*;
use std::collections::HashMap;
use std::hash::Hash;
use std::time::Duration;
use vstd::std_specs::hash::obeys_key_model;
use crate::clock::{duration_nanos, nanos_of, now_nanos};

verus! {

broadcast use vstd::std_specs::hash::group_hash_axioms;

/// A value with the instant it was stored, in nanoseconds since the UNIX epoch.
#[derive(Debug, Clone)]
struct WithTimestamp<V> {
    value: V,
    ts: u128,
}

impl<V> WithTimestamp<V> {
    fn new(value: V) -> (r: WithTimestamp<V>)
        ensures
            r.value == value,
    {
        let ts = now_nanos();
        Self { value, ts }
    }
}

/// Whether an entry stored at `ts` is still alive at `now` under `ttl`: it
/// is younger than the time-to-live, or it was stored after `now` (the clock
/// has been set back since), so that it cannot have expired.
pub open spec fn is_fresh_spec(now: u128, ts: u128, ttl: u128) -> bool {
    ts > now || now - ts < ttl
}

fn is_fresh(now: u128, ts: u128, ttl: u128) -> (r: bool)
    ensures
        r == is_fresh_spec(now, ts, ttl),
{
    ts > now || now - ts < ttl
}

/// Trusted: wraps `HashMap::retain`, which keeps exactly the entries for
/// which the predicate holds and leaves their values as they were. The
/// predicate is the verified `is_fresh` on the entry's timestamp.
#[verifier::external_body]
fn retain_fresh<K: Eq + Hash, V>(data: &mut HashMap<K, WithTimestamp<V>>, now: u128, ttl: u128)
    ensures
        final(data)@ == old(data)@.restrict(
            old(data)@.dom().filter(|k: K| is_fresh_spec(now, old(data)@[k].ts, ttl)),
        ),
{
    data.retain(|_, e| is_fresh(now, e.ts, ttl))
}

/// A map from keys to values whose entries expire after a time-to-live.
#[derive(Debug, Clone)]
pub struct Cache<K, V> where K: Eq + Hash, V: Clone {
    data: HashMap<K, WithTimestamp<V>>,
    ttl: u128,
}

impl<K, V> View for Cache<K, V> where K: Eq + Hash, V: Clone {
    type V = Map<K, V>;

    closed spec fn view(&self) -> Map<K, V> {
        self.data@.map_values(|e: WithTimestamp<V>| e.value)
    }
}

/// The entries of `m` that are alive at `now` under `ttl`, given their timestamps `stamps`.
pub open spec fn fresh_entries<K, V>(m: Map<K, V>, stamps: Map<K, u128>, now: u128, ttl: u128) -> Map<K, V> {
    m.restrict(m.dom().filter(|k: K| is_fresh_spec(now, stamps[k], ttl)))
}

/// What a read gives back of a write: after `put(key, value)` the cache
/// holds `value` under `key`, nothing else changed, and it holds one entry
/// more unless `key` was already there; taking `key` out again gives
/// `value` back and leaves the cache as it was without `key`.
pub proof fn lemma_cache_put_then_read<K, V>(m: Map<K, V>, key: K, value: V, other: K)
    requires
        m.dom().finite(),
        other != key,
    ensures
        m.insert(key, value).contains_key(key),
        m.insert(key, value)[key] == value,
        m.insert(key, value).contains_key(other) == m.contains_key(other),
        m.contains_key(other) ==> m.insert(key, value)[other] == m[other],
        m.insert(key, value).len() == m.len() + (if m.contains_key(key) { 0int } else { 1int }),
        m.insert(key, value).remove(key) == m.remove(key),
{
    assert(m.insert(key, value).dom() =~= m.dom().insert(key));
    assert(m.insert(key, value).remove(key) =~= m.remove(key));
}

/// What a removal leaves: after `remove(key)` nothing is stored under
/// `key`, every other entry is as it was, and the cache holds one entry
/// fewer if `key` was there.
pub proof fn lemma_cache_remove_then_read<K, V>(m: Map<K, V>, key: K, other: K)
    requires
        m.dom().finite(),
        other != key,
    ensures
        !m.remove(key).contains_key(key),
        m.remove(key).contains_key(other) == m.contains_key(other),
        m.contains_key(other) ==> m.remove(key)[other] == m[other],
        m.remove(key).len() == m.len() - (if m.contains_key(key) { 1int } else { 0int }),
{
    assert(m.remove(key).dom() =~= m.dom().remove(key));
}

/// A write to a cache: a `put` or a `remove`.
pub enum CacheWrite<K, V> {
    Put(K, V),
    Remove(K),
}

/// What a cache whose entries were `m` holds after the writes `ws`, in
/// order, with no compaction in between (each step is what `put` and
/// `remove` ensure of the cache).
pub open spec fn after_writes<K, V>(m: Map<K, V>, ws: Seq<CacheWrite<K, V>>) -> Map<K, V>
    decreases ws.len(),
{
    if ws.len() == 0 {
        m
    } else {
        match ws.last() {
            CacheWrite::Put(k, v) => after_writes(m, ws.drop_last()).insert(k, v),
            CacheWrite::Remove(k) => after_writes(m, ws.drop_last()).remove(k),
        }
    }
}

/// The value of the last write to `key` among `ws`: the value of the last
/// `put`, or nothing when the last write removed it; when no write touched
/// `key`, what `m` held under it.
pub open spec fn last_written<K, V>(m: Map<K, V>, ws: Seq<CacheWrite<K, V>>, key: K) -> Option<V>
    decreases ws.len(),
{
    if ws.len() == 0 {
        if m.contains_key(key) {
            Some(m[key])
        } else {
            None
        }
    } else {
        match ws.last() {
            CacheWrite::Put(k, v) => if k == key {
                Some(v)
            } else {
                last_written(m, ws.drop_last(), key)
            },
            CacheWrite::Remove(k) => if k == key {
                None
            } else {
                last_written(m, ws.drop_last(), key)
            },
        }
    }
}

/// The last put wins: after a run of writes, the cache holds an entry under
/// `key` exactly when the last write to `key` was a `put` (or no write
/// touched it and it was there before), and the entry is that put's value.
pub proof fn lemma_last_put_wins<K, V>(m: Map<K, V>, ws: Seq<CacheWrite<K, V>>, key: K)
    ensures
        after_writes(m, ws).contains_key(key) == last_written(m, ws, key) is Some,
        last_written(m, ws, key) matches Some(v) ==> after_writes(m, ws)[key] == v,
    decreases ws.len(),
{
    if ws.len() > 0 {
        lemma_last_put_wins(m, ws.drop_last(), key);
    }
}

/// Compaction at one instant is idempotent: compacting what a compaction
/// at `now` left, at the same instant, drops nothing more (`stamps` holds
/// the instant each entry of `m` was stored).
pub proof fn lemma_compact_idempotent<K, V>(m: Map<K, V>, stamps: Map<K, u128>, now: u128, ttl: u128)
    requires
        m.dom() == stamps.dom(),
    ensures
        fresh_entries(fresh_entries(m, stamps, now, ttl), fresh_entries(stamps, stamps, now, ttl), now, ttl)
            == fresh_entries(m, stamps, now, ttl),
{
    let once = fresh_entries(m, stamps, now, ttl);
    let s1 = fresh_entries(stamps, stamps, now, ttl);
    assert forall|k: K| #[trigger] once.contains_key(k) implies s1.contains_key(k) && s1[k] == stamps[k]
        by {
        assert(m.dom().filter(|j: K| is_fresh_spec(now, stamps[j], ttl)).contains(k));
    }
    assert(fresh_entries(once, s1, now, ttl) =~= once);
}

impl<K, V> Cache<K, V> where K: Eq + Hash, V: Clone {
    /// When each entry was stored, in nanoseconds since the UNIX epoch.
    pub closed spec fn stamps(&self) -> Map<K, u128> {
        self.data@.map_values(|e: WithTimestamp<V>| e.ts)
    }

    /// The time-to-live of the entries, in nanoseconds.
    pub closed spec fn ttl_nanos(&self) -> u128 {
        self.ttl
    }

    /// Every entry has a stamp, and every stamp belongs to an entry.
    pub proof fn lemma_stamps_cover_entries(&self)
        ensures
            self.stamps().dom() == self@.dom(),
    {
        assert(self.stamps().dom() =~= self@.dom());
    }

    /// A cache holds finitely many entries.
    pub proof fn lemma_entries_finite(&self)
        ensures
            self@.dom().finite(),
    {
        assert(self@.dom() =~= self.data@.dom());
    }

    /// An empty cache whose entries live for `ttl`.
    pub fn new(ttl: Duration) -> (r: Self)
        requires
            obeys_key_model::<K>(),
        ensures
            r@ == Map::<K, V>::empty(),
            r.stamps() == Map::<K, u128>::empty(),
            r.ttl_nanos() == nanos_of(ttl),
    {
        let r = Self { ttl: duration_nanos(ttl), data: HashMap::new() };
        assert(r.data@.map_values(|e: WithTimestamp<V>| e.value) =~= Map::<K, V>::empty());
        assert(r.data@.map_values(|e: WithTimestamp<V>| e.ts) =~= Map::<K, u128>::empty());
        r
    }

    /// The number of entries.
    pub fn len(&self) -> (r: usize)
        requires
            obeys_key_model::<K>(),
        ensures
            r == self@.len(),
    {
        proof {
            assert(self@.dom() =~= self.data@.dom());
        }
        self.data.len()
    }

    /// Whether an entry is stored under `key`.
    pub fn contains_key(&self, key: &K) -> (r: bool)
        requires
            obeys_key_model::<K>(),
        ensures
            r == self@.contains_key(*key),
    {
        self.data.contains_key(key)
    }

    /// A clone of the value stored under `key`, if any.
    pub fn get(&self, key: &K) -> (r: Option<V>)
        requires
            obeys_key_model::<K>(),
        ensures
            r is Some <==> self@.contains_key(*key),
            r matches Some(v) ==> cloned::<V>(self@[*key], v),
    {
        if !self.contains_key(key) {
            return None;
        }
        match self.data.get(key) {
            Some(e) => Some(e.value.clone()),
            None => None,
        }
    }

    /// Stores `value` under `key`, stamped with the current time; an entry
    /// already stored under `key` is replaced.
    pub fn put(&mut self, key: K, value: V)
        requires
            obeys_key_model::<K>(),
        ensures
            final(self)@ == old(self)@.insert(key, value),
            final(self).stamps().dom() == old(self).stamps().dom().insert(key),
            forall|k: K| k != key && #[trigger] old(self).stamps().contains_key(k)
                ==> final(self).stamps()[k] == old(self).stamps()[k],
            final(self).ttl_nanos() == old(self).ttl_nanos(),
    {
        let e = WithTimestamp::new(value);
        let ghost old_data = self.data@;
        let mut data: HashMap<K, WithTimestamp<V>> = HashMap::new();
        std::mem::swap(&mut data, &mut self.data);
        data.insert(key, e);
        *self = Cache { data, ttl: self.ttl };
        proof {
            assert(self@ =~= old(self)@.insert(key, value));
            assert(self.stamps().dom() =~= old(self).stamps().dom().insert(key));
        }
    }

    /// Takes the entry stored under `k` out, returning its value.
    pub fn remove(&mut self, k: &K) -> (r: Option<V>)
        requires
            obeys_key_model::<K>(),
        ensures
            r is Some <==> old(self)@.contains_key(*k),
            r matches Some(v) ==> v == old(self)@[*k],
            final(self)@ == old(self)@.remove(*k),
            final(self).stamps() == old(self).stamps().remove(*k),
            final(self).ttl_nanos() == old(self).ttl_nanos(),
    {
        let mut data: HashMap<K, WithTimestamp<V>> = HashMap::new();
        std::mem::swap(&mut data, &mut self.data);
        let removed = data.remove(k);
        *self = Cache { data, ttl: self.ttl };
        proof {
            assert(self@ =~= old(self)@.remove(*k));
            assert(self.stamps() =~= old(self).stamps().remove(*k));
        }
        match removed {
            Some(value) => Some(value.value),
            None => None,
        }
    }

    /// Drops the entries that, at `now`, are as old as the time-to-live or
    /// older; an entry stored after `now` is kept.
    pub fn compact_at(&mut self, now: u128)
        requires
            obeys_key_model::<K>(),
        ensures
            final(self)@ == fresh_entries(old(self)@, old(self).stamps(), now, old(self).ttl_nanos()),
            final(self).stamps() == fresh_entries(old(self).stamps(), old(self).stamps(), now, old(self).ttl_nanos()),
            final(self).ttl_nanos() == old(self).ttl_nanos(),
    {
        let ttl = self.ttl;
        let mut data: HashMap<K, WithTimestamp<V>> = HashMap::new();
        std::mem::swap(&mut data, &mut self.data);
        retain_fresh(&mut data, now, ttl);
        *self = Cache { data, ttl };
        proof {
            assert(self@ =~= fresh_entries(old(self)@, old(self).stamps(), now, ttl));
            assert(self.stamps() =~= fresh_entries(old(self).stamps(), old(self).stamps(), now, ttl));
        }
    }

    /// Drops the expired entries, judged at the instant the clock reads (see
    /// [`Cache::compact_at`]). Which instant that is is not stated, so the
    /// contract holds for every reading.
    pub fn compact(&mut self)
        requires
            obeys_key_model::<K>(),
        ensures
            final(self).ttl_nanos() == old(self).ttl_nanos(),
            exists|now: u128|
                final(self)@ == fresh_entries(old(self)@, old(self).stamps(), now, old(self).ttl_nanos())
                && final(self).stamps() == fresh_entries(old(self).stamps(), old(self).stamps(), now, old(self).ttl_nanos()),
    {
        let now = now_nanos();
        self.compact_at(now);
    }
}

} // verus!
