//! The bounded map on its own: one owner, every stamp handed in by the caller.
//!
//! Everything the cache decides is decided here: which entry a lookup refreshes, when an
//! insertion has to make room, and which entry then leaves. The contracts are stated over a
//! plain `Map` from keys to [`Slot`]s, so they can be read without knowing how the entries
//! are kept.

use std::borrow::Borrow;
use std::collections::hash_map::Entry;
use std::collections::HashMap;
use std::hash::Hash;
use std::sync::Arc;
use vstd::prelude::*;
use vstd::std_specs::hash::*;
use vstd::std_specs::iter::IteratorSpec;

verus! {

/// What the store remembers about one key, as the contracts see it: the stamp of the last
/// insertion or successful lookup, and the value behind the shared handle.
pub struct Slot<V> {
    pub last_access: u64,
    pub value: V,
}

/// What the key type has to deliver for the contracts below to mean anything: hashing and
/// `==` that agree with equality of values (vstd's key model), and a `clone` that hands back
/// the key it was given. Every primitive integer type qualifies.
pub open spec fn key_model<K: Clone>() -> bool {
    &&& obeys_key_model::<K>()
    &&& forall|key: K, copy: K| #[trigger] cloned(key, copy) ==> copy == key
}

/// A store with these contents respects the capacity `limit`.
pub open spec fn bounded<K, V>(m: Map<K, Slot<V>>, limit: nat) -> bool {
    &&& 1 <= limit
    &&& m.dom().finite()
    &&& m.len() <= limit
}

/// `key` is least recently used in `m`: it is present and no entry carries a smaller stamp.
/// Several keys can qualify when stamps are equal.
pub open spec fn is_lru<K, V>(m: Map<K, Slot<V>>, key: K) -> bool {
    &&& m.contains_key(key)
    &&& forall|other: K| #[trigger]
        m.contains_key(other) ==> m[key].last_access <= m[other].last_access
}

/// The value that an insertion at `k` overwrites, if there is one.
pub open spec fn displaced<K, V>(m: Map<K, Slot<V>>, k: K) -> Option<V> {
    if m.contains_key(k) {
        Some(m[k].value)
    } else {
        None
    }
}

/// `post` is what inserting `slot` at `k` makes of `pre` under the capacity `limit`.
///
/// A key that is already present is overwritten in place, and so is anything while there
/// is room. Only a new key arriving at a full store evicts, and then exactly one entry that
/// is least recently used.
pub open spec fn inserted<K, V>(
    pre: Map<K, Slot<V>>,
    limit: nat,
    k: K,
    slot: Slot<V>,
    post: Map<K, Slot<V>>,
) -> bool {
    if pre.contains_key(k) || pre.len() < limit {
        post == pre.insert(k, slot)
    } else {
        exists|victim: K| #[trigger]
            is_lru(pre, victim) && post == pre.remove(victim).insert(k, slot)
    }
}

/// The stored key `key` is the one that the borrowed form `q` stands for.
pub open spec fn names<K, Q: ?Sized>(keys: Set<K>, q: &Q, key: K) -> bool {
    keys.contains(key) && sets_borrowed_key_to_key(keys, q, &key)
}

/// A lookup of `q` at time `now` finds `found` in `pre` and leaves `post`.
///
/// A hit hands out the stored value and moves that entry's stamp to `now`; nothing else
/// changes. A miss changes nothing at all.
pub open spec fn fetched<K, V, Q: ?Sized>(
    pre: Map<K, Slot<V>>,
    q: &Q,
    now: u64,
    found: Option<V>,
    post: Map<K, Slot<V>>,
) -> bool {
    match found {
        Some(value) => {
            &&& set_contains_borrowed_key(pre.dom(), q)
            &&& exists|key: K| #[trigger]
                names(pre.dom(), q, key) && value == pre[key].value && post == pre.insert(
                    key,
                    Slot { last_access: now, value },
                )
        },
        None => !set_contains_borrowed_key(pre.dom(), q) && post == pre,
    }
}

/// The value behind an optional handle.
pub open spec fn pointee<V>(handle: Option<Arc<V>>) -> Option<V> {
    match handle {
        Some(arc) => Some(*arc),
        None => None,
    }
}

struct CacheEntry<V> {
    last_access: u64,
    arc: Arc<V>,
}

impl<V> CacheEntry<V> {
    spec fn slot(self) -> Slot<V> {
        Slot { last_access: self.last_access, value: *self.arc }
    }
}

/// A map from keys to shared values that never holds more than `limit` entries and gives up
/// its least recently used entry to stay within that bound.
pub struct LruStore<K, V> {
    limit: usize,
    map: HashMap<K, CacheEntry<V>>,
}

impl<K, V> View for LruStore<K, V> {
    type V = Map<K, Slot<V>>;

    closed spec fn view(&self) -> Map<K, Slot<V>> {
        self.map@.map_values(|entry: CacheEntry<V>| entry.slot())
    }
}

/// `HashMap::get_mut`: a mutable reference to the value stored under the key that `k`
/// borrows from, or `None` when the map holds no such key.
///
/// Trusted. It claims of the outside call that it answers `Some` exactly when the key set
/// contains `k` in vstd's sense, that the reference starts out at the stored value of the
/// one key `k` stands for, and that whatever is written through it ends up under that key
/// while every other entry stays as it was.
#[verifier::external_body]
fn slot_mut<'a, K, V, Q>(m: &'a mut HashMap<K, V>, k: &Q) -> (slot: Option<&'a mut V>) where
    K: Borrow<Q> + Hash + Eq,
    Q: Hash + Eq + ?Sized,

    ensures
        obeys_key_model::<K>() ==> match slot {
            Some(value) => {
                &&& set_contains_borrowed_key(old(m)@.dom(), k)
                &&& exists|key: K| #[trigger]
                    names(old(m)@.dom(), k, key) && *value == old(m)@[key] && final(m)@ == old(
                        m,
                    )@.insert(key, *final(value))
            },
            None => !set_contains_borrowed_key(old(m)@.dom(), k) && final(m)@ == old(m)@,
        },
{
    m.get_mut(k)
}

impl<K: Clone + Hash + Eq, V> LruStore<K, V> {
    /// The capacity fixed at construction.
    pub closed spec fn limit(&self) -> usize {
        self.limit
    }

    /// The key type is fit for hashing and the contents respect the capacity.
    pub open spec fn wf(&self) -> bool {
        &&& key_model::<K>()
        &&& bounded(self@, self.limit() as nat)
    }

    /// An empty store that will hold up to `limit` entries.
    pub fn with_limit(limit: usize) -> (store: Self)
        requires
            limit != 0,
            key_model::<K>(),
        ensures
            store.wf(),
            store.limit() == limit,
            store@ == Map::<K, Slot<V>>::empty(),
    {
        let store = LruStore { limit, map: HashMap::with_capacity(limit) };
        assert(store@ =~= Map::<K, Slot<V>>::empty());
        store
    }

    /// Looks `k` up at time `now`. A hit refreshes the entry's stamp to `now` and returns
    /// another handle to its value; a miss returns `None` and leaves the store untouched.
    pub fn get<Q: ?Sized>(&mut self, k: &Q, now: u64) -> (found: Option<Arc<V>>) where
        K: Borrow<Q>,
        Q: Hash + Eq,

        requires
            old(self).wf(),
        ensures
            final(self).wf(),
            final(self).limit() == old(self).limit(),
            fetched(old(self)@, k, now, pointee(found), final(self)@),
    {
        broadcast use group_hash_axioms;

        assert(self@.dom() =~= self.map@.dom());
        match slot_mut(&mut self.map, k) {
            Some(entry) => {
                entry.last_access = now;
                let handle = entry.arc.clone();
                proof {
                    let key = choose|key: K| #[trigger]
                        names(old(self).map@.dom(), k, key) && old(self).map@[key].arc == handle
                            && self.map@ == old(self).map@.insert(
                            key,
                            CacheEntry { last_access: now, arc: handle },
                        );
                    assert(self@ =~= old(self)@.insert(
                        key,
                        Slot { last_access: now, value: *handle },
                    ));
                }
                Some(handle)
            },
            None => {
                assert(self@ =~= old(self)@);
                None
            },
        }
    }

    /// Stores `v` under `k` with the stamp `now` and returns the handle that this
    /// overwrites, if `k` was present. A new key arriving at a full store first evicts one
    /// least recently used entry; that entry is dropped, not returned.
    pub fn insert(&mut self, k: K, v: V, now: u64) -> (prior: Option<Arc<V>>)
        requires
            old(self).wf(),
        ensures
            final(self).wf(),
            final(self).limit() == old(self).limit(),
            pointee(prior) == displaced(old(self)@, k),
            inserted(
                old(self)@,
                old(self).limit() as nat,
                k,
                Slot { last_access: now, value: v },
                final(self)@,
            ),
    {
        broadcast use group_hash_axioms;

        let new_entry = CacheEntry { last_access: now, arc: Arc::new(v) };
        assert(self@.dom() =~= self.map@.dom());
        if self.map.len() == self.limit && !self.map.contains_key(&k) {
            match self.oldest() {
                Some(oldest) => {
                    self.map.remove(&oldest);
                    assert(self@ =~= old(self)@.remove(oldest));
                },
                None => {},
            }
        }
        let ghost before = self@;
        let old_entry = match self.map.entry(k) {
            Entry::Occupied(mut occupied) => Some(occupied.insert(new_entry)),
            Entry::Vacant(vacant) => {
                vacant.insert(new_entry);
                None
            },
        };
        assert(self@ =~= before.insert(k, Slot { last_access: now, value: v }));
        match old_entry {
            Some(entry) => Some(entry.arc),
            None => None,
        }
    }

    /// The eviction scan: walks every entry and picks the first one with the smallest
    /// stamp. `None` only for an empty store.
    fn oldest(&self) -> (victim: Option<K>)
        requires
            self.wf(),
        ensures
            match victim {
                Some(key) => is_lru(self@, key),
                None => self@.len() == 0,
            },
    {
        broadcast use group_hash_axioms;

        assert(self@.dom() =~= self.map@.dom());
        let mut best: Option<(&K, u64)> = None;
        for (key, entry) in it: self.map.iter()
            invariant
                key_model::<K>(),
                it.seq() == spec_hash_map_iter(&self.map).remaining(),
                best is None <==> it.index() == 0,
                best matches Some((key, stamp)) ==> exists|j: int|
                    0 <= j < it.index() && it.seq()[j].0 == key && it.seq()[j].1.last_access
                        == stamp,
                best matches Some((_, stamp)) ==> forall|j: int|
                    0 <= j < it.index() ==> stamp <= it.seq()[j].1.last_access,
        {
            match best {
                Some((_, stamp)) => {
                    if entry.last_access < stamp {
                        best = Some((key, entry.last_access));
                    }
                },
                None => {
                    best = Some((key, entry.last_access));
                },
            }
        }
        match best {
            Some((key, stamp)) => {
                let victim = key.clone();
                proof {
                    let seq = spec_hash_map_iter(&self.map).remaining();
                    let j = choose|j: int|
                        0 <= j < seq.len() && seq[j].0 == key && seq[j].1.last_access == stamp;
                    assert(self.map@.contains_key(*seq[j].0));
                    assert(cloned(*key, victim));
                    assert forall|other: K| #[trigger]
                        self@.contains_key(other) implies self@[victim].last_access
                        <= self@[other].last_access by {
                        assert(seq.contains((&other, &self.map@[other])));
                        let i = choose|i: int|
                            0 <= i < seq.len() && seq[i] == (&other, &self.map@[other]);
                        assert(stamp <= seq[i].1.last_access);
                    }
                }
                Some(victim)
            },
            None => None,
        }
    }
}

} // verus!
