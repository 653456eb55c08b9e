//! The cache-aside layer: a capacity-bounded, optionally time-bounded memo of
//! `query-parameter value -> redirect target`, and the decision rules around
//! it (serve a fresh hit, store a temporary redirect after a miss).
//!
//! Keys are the literal, unnormalized parameter values. Insertion order is
//! kept, oldest first; on overflow the oldest entry is evicted. Concurrent
//! identical misses are not coalesced: each proceeds on its own, and both
//! stores land (the later one wins), an accepted property of the design.

use vstd::prelude::*;

verus! {

/// Capacity of each redirect cache instance.
pub const CACHE_CAPACITY: usize = 5000;

/// Time-to-live of the poster and fanart caches, in seconds (72 hours). The
/// torrent-art cache has no time bound.
pub const CACHE_TTL_SECS: u64 = 259200;

/// One memoized redirect.
pub struct CacheSlot {
    pub key: String,
    pub value: String,
    pub stored_at: u64,
}

/// A bounded redirect memo. The slots are ordered oldest first and hold
/// pairwise distinct keys.
pub struct RedirectCache {
    entries: Vec<CacheSlot>,
    capacity: usize,
    ttl: Option<u64>,
}

/// The slot holding key `k`, scanning from the newest end.
pub open spec fn slot_for(slots: Seq<CacheSlot>, k: Seq<char>) -> Option<CacheSlot>
    decreases slots.len(),
{
    if slots.len() == 0 {
        None
    } else if slots.last().key@ == k {
        Some(slots.last())
    } else {
        slot_for(slots.drop_last(), k)
    }
}

/// A slot is live at `now` when no time bound applies or `now` is still
/// before `stored_at + ttl`.
pub open spec fn slot_live(slot: CacheSlot, ttl: Option<u64>, now: u64) -> bool {
    match ttl {
        None => true,
        Some(t) => (now as int) < slot.stored_at + t,
    }
}

/// What a lookup of `k` at time `now` yields over these slots.
pub open spec fn lookup_slots(slots: Seq<CacheSlot>, k: Seq<char>, ttl: Option<u64>, now: u64) -> Option<
    Seq<char>,
> {
    match slot_for(slots, k) {
        Some(slot) => if slot_live(slot, ttl, now) {
            Some(slot.value@)
        } else {
            None
        },
        None => None,
    }
}

/// First index holding key `k`, `-1` when absent.
pub open spec fn key_index(slots: Seq<CacheSlot>, k: Seq<char>) -> int
    decreases slots.len(),
{
    if slots.len() == 0 {
        -1
    } else if slots[0].key@ == k {
        0
    } else {
        let r = key_index(slots.drop_first(), k);
        if r >= 0 {
            1 + r
        } else {
            -1
        }
    }
}

/// What inserting `slot` does to the slots: any entry with the same key goes,
/// then the oldest entry goes if the cache is full, then the new slot is
/// appended as the newest.
pub open spec fn spec_insert_slots(slots: Seq<CacheSlot>, slot: CacheSlot, capacity: int) -> Seq<
    CacheSlot,
> {
    let i = key_index(slots, slot.key@);
    let without = if i >= 0 {
        slots.remove(i)
    } else {
        slots
    };
    let bounded = if without.len() >= capacity {
        without.drop_first()
    } else {
        without
    };
    bounded.push(slot)
}

proof fn lemma_slot_for_at(slots: Seq<CacheSlot>, k: Seq<char>, i: int)
    requires
        forall|a: int, b: int|
            0 <= a < b < slots.len() ==> slots[a].key@ != slots[b].key@,
        0 <= i < slots.len(),
        slots[i].key@ == k,
    ensures
        slot_for(slots, k) == Some(slots[i]),
    decreases slots.len(),
{
    if i == slots.len() - 1 {
    } else {
        assert(slots.last().key@ != k);
        assert(slots.drop_last()[i] == slots[i]);
        lemma_slot_for_at(slots.drop_last(), k, i);
    }
}

proof fn lemma_slot_for_none(slots: Seq<CacheSlot>, k: Seq<char>)
    requires
        forall|a: int| 0 <= a < slots.len() ==> slots[a].key@ != k,
    ensures
        slot_for(slots, k) is None,
    decreases slots.len(),
{
    if slots.len() > 0 {
        lemma_slot_for_none(slots.drop_last(), k);
    }
}

proof fn lemma_key_index_at(slots: Seq<CacheSlot>, k: Seq<char>, i: int)
    requires
        0 <= i < slots.len(),
        slots[i].key@ == k,
        forall|a: int| 0 <= a < i ==> slots[a].key@ != k,
    ensures
        key_index(slots, k) == i,
    decreases slots.len(),
{
    if i > 0 {
        assert(forall|a: int|
            0 <= a < i - 1 ==> slots.drop_first()[a].key@ == slots[a + 1].key@);
        lemma_key_index_at(slots.drop_first(), k, i - 1);
    }
}

proof fn lemma_key_index_none(slots: Seq<CacheSlot>, k: Seq<char>)
    requires
        forall|a: int| 0 <= a < slots.len() ==> slots[a].key@ != k,
    ensures
        key_index(slots, k) == -1,
    decreases slots.len(),
{
    if slots.len() > 0 {
        lemma_key_index_none(slots.drop_first(), k);
    }
}

impl RedirectCache {
    pub closed spec fn slots(self) -> Seq<CacheSlot> {
        self.entries@
    }

    pub closed spec fn spec_capacity(self) -> int {
        self.capacity as int
    }

    pub closed spec fn spec_ttl(self) -> Option<u64> {
        self.ttl
    }

    /// At most `capacity` slots, pairwise distinct keys.
    pub open spec fn well_formed(self) -> bool {
        &&& self.spec_capacity() >= 1
        &&& self.slots().len() <= self.spec_capacity()
        &&& forall|a: int, b: int|
            0 <= a < b < self.slots().len() ==> self.slots()[a].key@ != self.slots()[b].key@
    }

    /// What a lookup of `k` at time `now` yields.
    pub open spec fn spec_lookup(self, k: Seq<char>, now: u64) -> Option<Seq<char>> {
        lookup_slots(self.slots(), k, self.spec_ttl(), now)
    }

    /// An empty cache with the given bounds.
    pub fn new(capacity: usize, ttl: Option<u64>) -> (r: RedirectCache)
        requires
            capacity >= 1,
        ensures
            r.well_formed(),
            r.slots() == Seq::<CacheSlot>::empty(),
            r.spec_capacity() == capacity,
            r.spec_ttl() == ttl,
    {
        let r = RedirectCache { entries: Vec::new(), capacity, ttl };
        proof {
            assert(r.slots() =~= Seq::<CacheSlot>::empty());
        }
        r
    }

    fn slot_live_now(&self, i: usize, now: u64) -> (r: bool)
        requires
            i < self.slots().len(),
        ensures
            r == slot_live(self.slots()[i as int], self.spec_ttl(), now),
    {
        match &self.ttl {
            Option::None => true,
            Option::Some(t) => (now as u128) < (self.entries[i].stored_at as u128) + (*t as u128),
        }
    }

    /// The cached redirect for `key`, when one is stored and still live.
    pub fn get(&self, key: &String, now: u64) -> (r: Option<String>)
        requires
            self.well_formed(),
        ensures
            match r {
                Some(v) => self.spec_lookup(key@, now) == Some(v@),
                None => self.spec_lookup(key@, now) is None,
            },
    {
        let n = self.entries.len();
        let mut i: usize = 0;
        while i < n
            invariant
                self.well_formed(),
                n == self.slots().len(),
                i <= n,
                forall|a: int| 0 <= a < i ==> self.slots()[a].key@ != key@,
            decreases n - i,
        {
            if self.entries[i].key == *key {
                proof {
                    lemma_slot_for_at(self.slots(), key@, i as int);
                }
                if self.slot_live_now(i, now) {
                    return Some(self.entries[i].value.clone());
                } else {
                    return None;
                }
            }
            i = i + 1;
        }
        proof {
            lemma_slot_for_none(self.slots(), key@);
        }
        None
    }

    fn find_key_index(&self, key: &String) -> (r: Option<usize>)
        ensures
            match r {
                Some(i) => i < self.slots().len() && self.slots()[i as int].key@ == key@ && (forall|
                    a: int,
                |
                    0 <= a < i ==> self.slots()[a].key@ != key@),
                None => forall|a: int| 0 <= a < self.slots().len() ==> self.slots()[a].key@ != key@,
            },
    {
        let n = self.entries.len();
        let mut i: usize = 0;
        while i < n
            invariant
                n == self.slots().len(),
                i <= n,
                forall|a: int| 0 <= a < i ==> self.slots()[a].key@ != key@,
            decreases n - i,
        {
            if self.entries[i].key == *key {
                return Some(i);
            }
            i = i + 1;
        }
        None
    }

    /// Stores `value` under `key` at time `now`: replaces the slot with the
    /// same key if one is there, evicts the oldest slot if the cache is full,
    /// and appends the new slot as the newest.
    pub fn insert(&mut self, key: String, value: String, now: u64)
        requires
            old(self).well_formed(),
        ensures
            final(self).well_formed(),
            final(self).spec_capacity() == old(self).spec_capacity(),
            final(self).spec_ttl() == old(self).spec_ttl(),
            final(self).slots() == spec_insert_slots(
                old(self).slots(),
                (CacheSlot { key, value, stored_at: now }),
                old(self).spec_capacity(),
            ),
    {
        let ghost orig = self.slots();
        let ghost kv = key@;
        match self.find_key_index(&key) {
            Option::Some(i) => {
                proof {
                    lemma_key_index_at(orig, kv, i as int);
                }
                self.entries.remove(i);
            },
            Option::None => {
                proof {
                    lemma_key_index_none(orig, kv);
                }
            },
        }
        let ghost without = self.slots();
        if self.entries.len() >= self.capacity {
            self.entries.remove(0);
            proof {
                assert(self.slots() =~= without.drop_first());
            }
        }
        let ghost bounded = self.slots();
        self.entries.push(CacheSlot { key, value, stored_at: now });
        proof {
            assert(final(self).slots() == spec_insert_slots(
                orig,
                (CacheSlot { key, value, stored_at: now }),
                old(self).spec_capacity(),
            ));
            assert forall|a: int, b: int|
                0 <= a < b < self.slots().len() implies self.slots()[a].key@
                != self.slots()[b].key@ by {
                if b < self.slots().len() - 1 {
                    assert(bounded[a].key@ != bounded[b].key@);
                } else {
                    assert(bounded[a].key@ != kv);
                }
            }
        }
    }
}

/// The cache-aside lookup: with no parameter value there is no cache key and
/// no hit; otherwise the stored, still-live redirect for the literal value.
pub fn cache_check(cache: &RedirectCache, key: &Option<String>, now: u64) -> (r: Option<String>)
    requires
        cache.well_formed(),
    ensures
        match *key {
            Some(k) => match r {
                Some(v) => cache.spec_lookup(k@, now) == Some(v@),
                None => cache.spec_lookup(k@, now) is None,
            },
            None => r is None,
        },
{
    match key {
        Option::Some(k) => cache.get(k, now),
        Option::None => None,
    }
}

/// The cache-aside store: a temporary-redirect response (status 307) with a
/// location, produced for a request that carried the parameter, is stored
/// under the literal parameter value; any other response leaves the cache
/// unchanged.
pub fn cache_store_response(
    cache: &mut RedirectCache,
    key: &Option<String>,
    status: u16,
    location: &Option<String>,
    now: u64,
)
    requires
        old(cache).well_formed(),
    ensures
        final(cache).well_formed(),
        final(cache).spec_capacity() == old(cache).spec_capacity(),
        final(cache).spec_ttl() == old(cache).spec_ttl(),
        match *key {
            Some(k) => match *location {
                Some(loc) => if status == 307 {
                    final(cache).slots() == spec_insert_slots(
                        old(cache).slots(),
                        (CacheSlot { key: k, value: loc, stored_at: now }),
                        old(cache).spec_capacity(),
                    )
                } else {
                    final(cache).slots() == old(cache).slots()
                },
                None => final(cache).slots() == old(cache).slots(),
            },
            None => final(cache).slots() == old(cache).slots(),
        },
{
    if status == 307 {
        match key {
            Option::Some(k) => match location {
                Option::Some(loc) => {
                    cache.insert(k.clone(), loc.clone(), now);
                },
                Option::None => {},
            },
            Option::None => {},
        }
    }
}

/// Law: the cache-aside round trip. A redirect stored under key `k` is served
/// for `k` by any lookup that happens before the time bound runs out (and by
/// an immediate one in particular), so the wrapped operation is not invoked
/// again for that key.
pub proof fn lemma_cache_aside_round_trip(
    slots: Seq<CacheSlot>,
    slot: CacheSlot,
    capacity: int,
    ttl: Option<u64>,
    later: u64,
)
    requires
        match ttl {
            Some(t) => (later as int) < slot.stored_at + t,
            None => true,
        },
    ensures
        lookup_slots(spec_insert_slots(slots, slot, capacity), slot.key@, ttl, later) == Some(
            slot.value@,
        ),
{
    let inserted = spec_insert_slots(slots, slot, capacity);
    assert(inserted.last() == slot);
}

} // verus!
