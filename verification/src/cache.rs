//! Bounded in-memory key/value cache with per-entry expiry.
//!
//! Entries carry the clock reading at which they were written and a fixed
//! lifetime; a stale entry is treated as absent and is removed lazily, on
//! the lookup that finds it stale. A store into a full cache first evicts
//! the entry that has been held longest in the container's order.
//!
//! The clock is injected: `get` and `put` take the current reading in
//! milliseconds, so expiry is a deterministic function of the state and the
//! reading handed in.

use vstd::prelude::*;
use vstd::string::StringExecFns;

verus! {

/// Fixed lifetime of a cache entry, in milliseconds: five minutes.
pub const CACHE_TTL_MS: u64 = 300_000;

/// Default capacity of a cache, in entries.
pub const DEFAULT_MAX_SIZE: usize = 1000;

/// Whether an entry written at `timestamp_ms` with lifetime `ttl_ms` is
/// stale at `now_ms`. A clock reading behind the write time also counts as
/// stale.
pub open spec fn expired_at(timestamp_ms: u64, ttl_ms: u64, now_ms: u64) -> bool {
    now_ms < timestamp_ms || now_ms - timestamp_ms > ttl_ms
}

/// A stored payload together with its write time and lifetime.
pub struct CacheEntry {
    /// The cached payload.
    pub data: String,
    /// Clock reading at which the entry was written.
    pub timestamp_ms: u64,
    /// Lifetime of the entry, in milliseconds.
    pub ttl_ms: u64,
}

impl CacheEntry {
    /// Whether this entry is stale at `now_ms`.
    pub fn is_expired(&self, now_ms: u64) -> (r: bool)
        ensures
            r == expired_at(self.timestamp_ms, self.ttl_ms, now_ms),
    {
        now_ms < self.timestamp_ms || now_ms - self.timestamp_ms > self.ttl_ms
    }
}

/// One keyed entry of the cache, as plain mathematical values. The cache's
/// view is the sequence of these, oldest first.
pub struct Slot {
    /// The entry's key.
    pub key: Seq<char>,
    /// The cached payload.
    pub data: Seq<char>,
    /// Clock reading at which the entry was written.
    pub timestamp_ms: u64,
    /// Lifetime of the entry, in milliseconds.
    pub ttl_ms: u64,
}

/// Every key occurs at most once.
pub open spec fn keys_unique(s: Seq<Slot>) -> bool {
    forall|i: int, j: int| 0 <= i < j < s.len() ==> s[i].key != s[j].key
}

/// Some slot holds key `k`.
pub open spec fn has_key(s: Seq<Slot>, k: Seq<char>) -> bool {
    exists|i: int| 0 <= i < s.len() && s[i].key == k
}

/// An index of a slot holding key `k`; with unique keys, the only one.
pub open spec fn index_of(s: Seq<Slot>, k: Seq<char>) -> int {
    choose|i: int| 0 <= i < s.len() && s[i].key == k
}

/// What a lookup of `k` at `now_ms` returns: the payload stored under `k`,
/// unless the key is absent or its entry is stale.
pub open spec fn get_model(s: Seq<Slot>, k: Seq<char>, now_ms: u64) -> Option<Seq<char>> {
    if has_key(s, k) {
        let slot = s[index_of(s, k)];
        if expired_at(slot.timestamp_ms, slot.ttl_ms, now_ms) {
            None
        } else {
            Some(slot.data)
        }
    } else {
        None
    }
}

/// The cache contents after a lookup of `k` at `now_ms`: unchanged, except
/// that a stale entry found under `k` is removed.
pub open spec fn get_update_model(s: Seq<Slot>, k: Seq<char>, now_ms: u64) -> Seq<Slot> {
    if has_key(s, k) && expired_at(
        s[index_of(s, k)].timestamp_ms,
        s[index_of(s, k)].ttl_ms,
        now_ms,
    ) {
        s.remove(index_of(s, k))
    } else {
        s
    }
}

/// The cache contents after storing `v` under `k` at `now_ms` into a cache
/// of capacity `max`: a full cache first loses its first slot; then the
/// slot under `k` is overwritten in place, or a fresh slot is appended.
/// The write time is reset even on overwrite.
pub open spec fn put_model(
    s: Seq<Slot>,
    max: nat,
    k: Seq<char>,
    v: Seq<char>,
    now_ms: u64,
) -> Seq<Slot> {
    let trimmed = if s.len() >= max {
        s.drop_first()
    } else {
        s
    };
    let slot = Slot { key: k, data: v, timestamp_ms: now_ms, ttl_ms: CACHE_TTL_MS };
    if has_key(trimmed, k) {
        trimmed.update(index_of(trimmed, k), slot)
    } else {
        trimmed.push(slot)
    }
}

/// Bounded key/value cache with per-entry expiry. The contents are
/// reachable only through the methods; their mathematical value is the view
/// `self@`, a sequence of slots, oldest first.
pub struct Cache {
    entries: Vec<(String, CacheEntry)>,
    max_size: usize,
}

/// The slot that one stored pair stands for.
spec fn slot_of(p: (String, CacheEntry)) -> Slot {
    Slot {
        key: p.0@,
        data: p.1.data@,
        timestamp_ms: p.1.timestamp_ms,
        ttl_ms: p.1.ttl_ms,
    }
}

impl View for Cache {
    type V = Seq<Slot>;

    closed spec fn view(&self) -> Seq<Slot> {
        self.entries@.map_values(|p: (String, CacheEntry)| slot_of(p))
    }
}

impl Cache {
    /// Capacity bound of the cache, in entries.
    pub closed spec fn capacity(&self) -> nat {
        self.max_size as nat
    }

    /// Keys are unique and the contents never outgrow the capacity.
    pub open spec fn inv(&self) -> bool {
        &&& keys_unique(self@)
        &&& self@.len() <= self.capacity()
        &&& 1 <= self.capacity()
    }

    /// A fresh cache is empty and holds at most `max_size` entries at a
    /// time.
    pub fn new(max_size: usize) -> (r: Self)
        requires
            1 <= max_size,
        ensures
            r.inv(),
            r@ == Seq::<Slot>::empty(),
            r.capacity() == max_size,
    {
        let r = Cache { entries: Vec::new(), max_size };
        proof {
            assert(r@ =~= Seq::<Slot>::empty());
        }
        r
    }

    /// Number of entries currently held, stale ones included.
    pub fn len(&self) -> (r: usize)
        ensures
            r == self@.len(),
    {
        self.entries.len()
    }

    /// Index of the slot holding `key`, if any; the first match, which
    /// under the invariant is the only one.
    fn find_index(&self, key: &String) -> (r: Option<usize>)
        ensures
            match r {
                Some(i) => 0 <= i < self@.len() && self@[i as int].key == key@,
                None => !has_key(self@, key@),
            },
    {
        let n: usize = self.entries.len();
        let mut i: usize = 0;
        while i < n
            invariant
                i <= n,
                n == self@.len(),
                n == self.entries.len(),
                forall|j: int| 0 <= j < i ==> self@[j].key != key@,
            decreases n - i,
        {
            proof {
                assert(self@[i as int] == slot_of(self.entries@[i as int]));
            }
            if self.entries[i].0 == *key {
                return Some(i);
            }
            i = i + 1;
        }
        None
    }

    /// Look `key` up at `now_ms`. Returns a copy of the payload stored
    /// under `key` when it is present and fresh; a stale entry is removed
    /// and, like an absent key, answered with nothing.
    pub fn get(&mut self, key: &str, now_ms: u64) -> (r: Option<String>)
        requires
            old(self).inv(),
        ensures
            final(self).inv(),
            final(self).capacity() == old(self).capacity(),
            final(self)@ == get_update_model(old(self)@, key@, now_ms),
            (match r {
                Some(d) => get_model(old(self)@, key@, now_ms) == Some(d@),
                None => get_model(old(self)@, key@, now_ms) is None,
            }),
    {
        let k = String::from_str(key);
        match self.find_index(&k) {
            None => None,
            Some(i) => {
                proof {
                    lemma_index_of_unique(self@, key@, i as int);
                }
                if self.entries[i].1.is_expired(now_ms) {
                    self.entries.remove(i);
                    proof {
                        assert(final(self)@ =~= old(self)@.remove(i as int));
                        lemma_keys_unique_remove(old(self)@, i as int);
                    }
                    None
                } else {
                    let d = self.entries[i].1.data.clone();
                    Some(d)
                }
            },
        }
    }

    /// Drop the first slot: the entry the container has held longest.
    fn evict_oldest(&mut self)
        requires
            old(self)@.len() > 0,
        ensures
            final(self)@ == old(self)@.drop_first(),
            final(self).capacity() == old(self).capacity(),
    {
        self.entries.remove(0);
        proof {
            assert(final(self)@ =~= old(self)@.drop_first());
        }
    }

    /// Store `data` under `key` at `now_ms`. A full cache first evicts one
    /// entry; then the entry under `key` is overwritten, or a fresh one
    /// added, with its write time reset to `now_ms` and the fixed lifetime.
    pub fn put(&mut self, key: String, data: String, now_ms: u64)
        requires
            old(self).inv(),
        ensures
            final(self).inv(),
            final(self).capacity() == old(self).capacity(),
            final(self)@ == put_model(old(self)@, old(self).capacity(), key@, data@, now_ms),
    {
        if self.entries.len() >= self.max_size {
            self.evict_oldest();
            proof {
                lemma_keys_unique_drop_first(old(self)@);
            }
        }
        let ghost trimmed = self@;
        let entry = CacheEntry { data, timestamp_ms: now_ms, ttl_ms: CACHE_TTL_MS };
        match self.find_index(&key) {
            Some(i) => {
                proof {
                    lemma_index_of_unique(trimmed, key@, i as int);
                }
                self.entries.set(i, (key, entry));
                proof {
                    assert(final(self)@ =~= trimmed.update(
                        index_of(trimmed, key@),
                        (Slot { key: key@, data: data@, timestamp_ms: now_ms, ttl_ms: CACHE_TTL_MS }),
                    ));
                    lemma_keys_unique_update(trimmed, key@);
                }
            },
            None => {
                self.entries.push((key, entry));
                proof {
                    assert(final(self)@ =~= trimmed.push(
                        (Slot { key: key@, data: data@, timestamp_ms: now_ms, ttl_ms: CACHE_TTL_MS }),
                    ));
                    lemma_keys_unique_push(trimmed, key@);
                }
            },
        }
    }
}

/// With unique keys, any index holding `k` is the index `index_of` names.
proof fn lemma_index_of_unique(s: Seq<Slot>, k: Seq<char>, i: int)
    requires
        keys_unique(s),
        0 <= i < s.len(),
        s[i].key == k,
    ensures
        has_key(s, k),
        index_of(s, k) == i,
{
    assert(has_key(s, k));
    let j = index_of(s, k);
    assert(0 <= j < s.len() && s[j].key == k);
    if j < i {
        assert(s[j].key != s[i].key);
    } else if i < j {
        assert(s[i].key != s[j].key);
    }
}

/// Dropping the first slot keeps the keys unique.
proof fn lemma_keys_unique_drop_first(s: Seq<Slot>)
    requires
        keys_unique(s),
        s.len() > 0,
    ensures
        keys_unique(s.drop_first()),
{
    let t = s.drop_first();
    assert forall|i: int, j: int| 0 <= i < j < t.len() implies t[i].key != t[j].key by {
        assert(t[i] == s[i + 1]);
        assert(t[j] == s[j + 1]);
    }
}

/// Removing a slot keeps the keys unique.
proof fn lemma_keys_unique_remove(s: Seq<Slot>, i: int)
    requires
        keys_unique(s),
        0 <= i < s.len(),
    ensures
        keys_unique(s.remove(i)),
{
    let t = s.remove(i);
    assert forall|p: int, q: int| 0 <= p < q < t.len() implies t[p].key != t[q].key by {
        let p0 = if p < i { p } else { p + 1 };
        let q0 = if q < i { q } else { q + 1 };
        assert(t[p] == s[p0]);
        assert(t[q] == s[q0]);
        assert(s[p0].key != s[q0].key);
    }
}

/// Overwriting the slot that holds `k` with a slot keyed `k` keeps the
/// keys unique.
proof fn lemma_keys_unique_update(s: Seq<Slot>, k: Seq<char>)
    requires
        keys_unique(s),
        has_key(s, k),
    ensures
        forall|slot: Slot| slot.key == k ==> keys_unique(
            #[trigger] s.update(index_of(s, k), slot),
        ),
{
    let i = index_of(s, k);
    assert(0 <= i < s.len() && s[i].key == k);
    assert forall|slot: Slot| slot.key == k implies keys_unique(
        #[trigger] s.update(i, slot),
    ) by {
        let t = s.update(i, slot);
        assert forall|p: int, q: int| 0 <= p < q < t.len() implies t[p].key != t[q].key by {
            assert(t[p] == if p == i { slot } else { s[p] });
            assert(t[q] == if q == i { slot } else { s[q] });
            assert(s[p].key != s[q].key);
        }
    }
}

/// Appending a slot whose key is absent keeps the keys unique.
proof fn lemma_keys_unique_push(s: Seq<Slot>, k: Seq<char>)
    requires
        keys_unique(s),
        !has_key(s, k),
    ensures
        forall|slot: Slot| slot.key == k ==> keys_unique(#[trigger] s.push(slot)),
{
    assert forall|slot: Slot| slot.key == k implies keys_unique(#[trigger] s.push(slot)) by {
        let t = s.push(slot);
        assert forall|p: int, q: int| 0 <= p < q < t.len() implies t[p].key != t[q].key by {
            if q < s.len() {
                assert(t[p] == s[p]);
                assert(t[q] == s[q]);
            } else {
                assert(t[q] == slot);
                assert(t[p] == s[p]);
                assert(s[p].key != k);
            }
        }
    }
}

/// After a store, the stored slot stands under its key: it is present,
/// keys are still unique, and the slot holds the fresh payload, write time
/// and lifetime.
proof fn lemma_put_model_slot(s: Seq<Slot>, max: nat, k: Seq<char>, v: Seq<char>, now_ms: u64)
    requires
        keys_unique(s),
        1 <= max,
    ensures
        has_key(put_model(s, max, k, v, now_ms), k),
        keys_unique(put_model(s, max, k, v, now_ms)),
        put_model(s, max, k, v, now_ms)[index_of(put_model(s, max, k, v, now_ms), k)] == (Slot {
            key: k,
            data: v,
            timestamp_ms: now_ms,
            ttl_ms: CACHE_TTL_MS,
        }),
{
    let trimmed = if s.len() >= max {
        s.drop_first()
    } else {
        s
    };
    if s.len() >= max {
        lemma_keys_unique_drop_first(s);
    }
    let slot = Slot { key: k, data: v, timestamp_ms: now_ms, ttl_ms: CACHE_TTL_MS };
    if has_key(trimmed, k) {
        let i = index_of(trimmed, k);
        assert(0 <= i < trimmed.len() && trimmed[i].key == k);
        lemma_keys_unique_update(trimmed, k);
        let t = trimmed.update(i, slot);
        assert(keys_unique(t));
        assert(t[i] == slot);
        lemma_index_of_unique(t, k, i);
    } else {
        let t = trimmed.push(slot);
        lemma_keys_unique_push(trimmed, k);
        assert(keys_unique(t));
        assert(t[trimmed.len() as int] == slot);
        lemma_index_of_unique(t, k, trimmed.len() as int);
    }
}

/// Round trip: a store of `v` under `k` followed by a lookup of `k` within
/// the entry's lifetime answers exactly `v`.
pub proof fn lemma_put_get_roundtrip(
    s: Seq<Slot>,
    max: nat,
    k: Seq<char>,
    v: Seq<char>,
    put_ms: u64,
    get_ms: u64,
)
    requires
        keys_unique(s),
        1 <= max,
        put_ms <= get_ms,
        get_ms - put_ms <= CACHE_TTL_MS,
    ensures
        get_model(put_model(s, max, k, v, put_ms), k, get_ms) == Some(v),
{
    lemma_put_model_slot(s, max, k, v, put_ms);
    assert(!expired_at(put_ms, CACHE_TTL_MS, get_ms));
}

/// Expiry: once the lifetime has passed since the store, a lookup of the
/// key answers nothing, and it removes the entry: the key is absent from
/// the contents the lookup leaves behind.
pub proof fn lemma_put_expired_get(
    s: Seq<Slot>,
    max: nat,
    k: Seq<char>,
    v: Seq<char>,
    put_ms: u64,
    get_ms: u64,
)
    requires
        keys_unique(s),
        1 <= max,
        get_ms - put_ms > CACHE_TTL_MS,
        put_ms <= get_ms,
    ensures
        get_model(put_model(s, max, k, v, put_ms), k, get_ms) is None,
        !has_key(get_update_model(put_model(s, max, k, v, put_ms), k, get_ms), k),
{
    lemma_put_model_slot(s, max, k, v, put_ms);
    let t = put_model(s, max, k, v, put_ms);
    let i = index_of(t, k);
    assert(expired_at(t[i].timestamp_ms, t[i].ttl_ms, get_ms));
    let u = t.remove(i);
    assert forall|j: int| 0 <= j < u.len() implies u[j].key != k by {
        let j0 = if j < i {
            j
        } else {
            j + 1
        };
        assert(u[j] == t[j0]);
        if j0 < i {
            assert(t[j0].key != t[i].key);
        } else {
            assert(t[i].key != t[j0].key);
        }
    }
    assert(!has_key(u, k));
}

/// Capacity bound: a store into contents that respect the capacity leaves
/// them within the capacity, with keys still unique.
pub proof fn lemma_put_capacity(s: Seq<Slot>, max: nat, k: Seq<char>, v: Seq<char>, now_ms: u64)
    requires
        keys_unique(s),
        s.len() <= max,
        1 <= max,
    ensures
        put_model(s, max, k, v, now_ms).len() <= max,
        keys_unique(put_model(s, max, k, v, now_ms)),
{
    lemma_put_model_slot(s, max, k, v, now_ms);
}

} // verus!
