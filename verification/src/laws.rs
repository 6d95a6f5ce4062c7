//! What follows from the contracts of [`LruStore::insert`](crate::store::LruStore::insert)
//! and [`LruStore::get`](crate::store::LruStore::get), proved once over the relations those
//! contracts are written in: [`inserted`] and [`fetched`].

use crate::store::{bounded, displaced, fetched, inserted, is_lru, names, Slot};
use vstd::prelude::*;
use vstd::std_specs::hash::*;

verus! {

/// A lookup by the key type itself reads as a plain map lookup: it hits exactly when the key
/// is present, returns the stored value, and moves that one stamp to `now`.
pub proof fn law_lookup_by_key<K, V>(
    pre: Map<K, Slot<V>>,
    k: K,
    now: u64,
    found: Option<V>,
    post: Map<K, Slot<V>>,
)
    ensures
        fetched(pre, &k, now, found, post) <==> if pre.contains_key(k) {
            &&& found == Some(pre[k].value)
            &&& post == pre.insert(k, Slot { last_access: now, value: pre[k].value })
        } else {
            &&& found is None
            &&& post == pre
        },
{
    broadcast use group_hash_axioms;

    if pre.contains_key(k) && found == Some(pre[k].value) && post == pre.insert(
        k,
        Slot { last_access: now, value: pre[k].value },
    ) {
        assert(names(pre.dom(), &k, k));
    }
}

/// An insertion never takes the store over its capacity.
pub proof fn law_capacity_is_kept<K, V>(
    pre: Map<K, Slot<V>>,
    limit: nat,
    k: K,
    slot: Slot<V>,
    post: Map<K, Slot<V>>,
)
    requires
        bounded(pre, limit),
        inserted(pre, limit, k, slot, post),
    ensures
        bounded(post, limit),
{
    if !(pre.contains_key(k) || pre.len() < limit) {
        let victim = choose|victim: K| #[trigger]
            is_lru(pre, victim) && post == pre.remove(victim).insert(k, slot);
        assert(pre.remove(victim).len() == pre.len() - 1);
    }
}

/// A lookup leaves the set of keys alone, and with it the size of the store.
pub proof fn law_lookup_keeps_keys<K, V, Q: ?Sized>(
    pre: Map<K, Slot<V>>,
    q: &Q,
    now: u64,
    found: Option<V>,
    post: Map<K, Slot<V>>,
)
    requires
        fetched(pre, q, now, found, post),
    ensures
        post.dom() == pre.dom(),
{
    assert(post.dom() =~= pre.dom());
}

/// Looking up a key that the store does not hold returns nothing and changes nothing.
pub proof fn law_absent_key_misses<K, V>(
    pre: Map<K, Slot<V>>,
    k: K,
    now: u64,
    found: Option<V>,
    post: Map<K, Slot<V>>,
)
    requires
        !pre.contains_key(k),
        fetched(pre, &k, now, found, post),
    ensures
        found is None,
        post == pre,
{
    law_lookup_by_key(pre, k, now, found, post);
}

/// The only key an insertion can add is its own: a key that is neither stored nor inserted
/// stays absent.
pub proof fn law_insert_adds_only_its_key<K, V>(
    pre: Map<K, Slot<V>>,
    limit: nat,
    k: K,
    slot: Slot<V>,
    post: Map<K, Slot<V>>,
    other: K,
)
    requires
        inserted(pre, limit, k, slot, post),
        other != k,
        !pre.contains_key(other),
    ensures
        !post.contains_key(other),
{
}

/// A new key arriving at a full store pushes out exactly one entry, a least recently used
/// one, and that key is absent afterwards. Every other entry stays as it was.
pub proof fn law_full_store_evicts_lru<K, V>(
    pre: Map<K, Slot<V>>,
    limit: nat,
    k: K,
    slot: Slot<V>,
    post: Map<K, Slot<V>>,
)
    requires
        bounded(pre, limit),
        pre.len() == limit,
        !pre.contains_key(k),
        inserted(pre, limit, k, slot, post),
    ensures
        exists|victim: K|
            {
                &&& #[trigger] is_lru(pre, victim)
                &&& !post.contains_key(victim)
                &&& post.dom() == pre.dom().remove(victim).insert(k)
                &&& forall|other: K|
                    pre.contains_key(other) && other != victim ==> post[other] == pre[other]
            },
{
    let victim = choose|victim: K| #[trigger]
        is_lru(pre, victim) && post == pre.remove(victim).insert(k, slot);
    assert(post.dom() =~= pre.dom().remove(victim).insert(k));
}

/// When one entry is strictly older than every other, it is the one that a new key pushes
/// out of a full store, and all the others stay.
pub proof fn law_strictly_oldest_leaves<K, V>(
    pre: Map<K, Slot<V>>,
    limit: nat,
    k: K,
    slot: Slot<V>,
    post: Map<K, Slot<V>>,
    oldest: K,
)
    requires
        bounded(pre, limit),
        pre.len() == limit,
        !pre.contains_key(k),
        inserted(pre, limit, k, slot, post),
        pre.contains_key(oldest),
        forall|other: K|
            pre.contains_key(other) && other != oldest ==> pre[oldest].last_access
                < pre[other].last_access,
    ensures
        post == pre.remove(oldest).insert(k, slot),
{
    let victim = choose|victim: K| #[trigger]
        is_lru(pre, victim) && post == pre.remove(victim).insert(k, slot);
    assert(pre.contains_key(oldest));
    if victim != oldest {
        assert(pre[oldest].last_access < pre[victim].last_access);
        assert(pre[victim].last_access <= pre[oldest].last_access);
    }
}

/// Right after `insert(k, v)`, a lookup of `k` returns `v`.
pub proof fn law_inserted_value_is_found<K, V>(
    pre: Map<K, Slot<V>>,
    limit: nat,
    k: K,
    slot: Slot<V>,
    mid: Map<K, Slot<V>>,
    now: u64,
    found: Option<V>,
    post: Map<K, Slot<V>>,
)
    requires
        inserted(pre, limit, k, slot, mid),
        fetched(mid, &k, now, found, post),
    ensures
        found == Some(slot.value),
        post == mid.insert(k, Slot { last_access: now, value: slot.value }),
{
    law_lookup_by_key(mid, k, now, found, post);
}

/// Inserting a key that is already present replaces its entry where it stands: no entry is
/// evicted, the set of keys and the size stay the same, and the value handed back is the
/// one that was stored before.
pub proof fn law_replacement_is_not_growth<K, V>(
    pre: Map<K, Slot<V>>,
    limit: nat,
    k: K,
    slot: Slot<V>,
    post: Map<K, Slot<V>>,
)
    requires
        pre.contains_key(k),
        inserted(pre, limit, k, slot, post),
    ensures
        post == pre.insert(k, slot),
        post.dom() == pre.dom(),
        post.len() == pre.len(),
        displaced(pre, k) == Some(pre[k].value),
{
    assert(post.dom() =~= pre.dom());
}

/// A successful lookup protects its entry: as long as some other entry carries a stamp
/// below the lookup's, the next eviction takes that older entry or another, never the one
/// just read.
pub proof fn law_refreshed_key_survives<K, V>(
    pre: Map<K, Slot<V>>,
    k: K,
    now: u64,
    found: Option<V>,
    mid: Map<K, Slot<V>>,
    limit: nat,
    n: K,
    slot: Slot<V>,
    post: Map<K, Slot<V>>,
    older: K,
)
    requires
        pre.contains_key(k),
        fetched(pre, &k, now, found, mid),
        pre.contains_key(older),
        older != k,
        pre[older].last_access < now,
        inserted(mid, limit, n, slot, post),
    ensures
        post.contains_key(k),
        n != k ==> post[k] == (Slot { last_access: now, value: pre[k].value }),
{
    law_lookup_by_key(pre, k, now, found, mid);
    if !(mid.contains_key(n) || mid.len() < limit) {
        let victim = choose|victim: K| #[trigger]
            is_lru(mid, victim) && post == mid.remove(victim).insert(n, slot);
        assert(mid.contains_key(older));
        assert(mid[victim].last_access <= mid[older].last_access);
    }
}

} // verus!
