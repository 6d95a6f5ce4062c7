//! The cache that threads share: an [`LruStore`] behind one exclusive lock, stamped by the
//! clock.
//!
//! Every operation takes the lock, does one step of the store, and gives the lock back. The
//! lock accepts a store only if it is well-formed and of the capacity chosen at
//! construction, so no thread ever finds more than `limit` entries.

use crate::clock::precise_time_ns;
use crate::store::{bounded, displaced, fetched, inserted, key_model, pointee, LruStore, Slot};
use std::borrow::Borrow;
use std::hash::Hash;
use std::sync::Arc;
use vstd::prelude::*;
use vstd::rwlock::{RwLock, RwLockPredicate};

verus! {

/// What the lock demands of a store before it takes it back, and so what it can promise of
/// the store it hands out: well-formed, and of this capacity.
struct Capacity {
    limit: usize,
}

impl<K: Clone + Hash + Eq, V> RwLockPredicate<LruStore<K, V>> for Capacity {
    closed spec fn inv(self, store: LruStore<K, V>) -> bool {
        store.wf() && store.limit() == self.limit
    }
}

/// A bounded, least-recently-used cache that any number of threads may read and fill
/// through a shared reference.
pub struct LruCache<K: Clone + Hash + Eq, V: Send> {
    store: RwLock<LruStore<K, V>, Capacity>,
}

impl<K: Clone + Hash + Eq, V: Send> LruCache<K, V> {
    /// The capacity fixed at construction.
    pub closed spec fn limit(&self) -> usize {
        self.store.pred().limit
    }

    /// An empty cache that will hold up to `limit` entries.
    pub fn with_limit(limit: usize) -> (cache: LruCache<K, V>)
        requires
            limit != 0,
            key_model::<K>(),
        ensures
            cache.limit() == limit,
    {
        let store = LruStore::with_limit(limit);
        LruCache { store: RwLock::new(store, Ghost(Capacity { limit })) }
    }

    /// Looks `k` up and, on a hit, refreshes the entry's stamp to the clock's reading and
    /// returns another handle to its value.
    ///
    /// Other threads may have changed the cache since the caller last looked, so the
    /// contract cannot name the contents that the lookup meets. It says what holds of
    /// every outcome: the result is the one that [`LruStore::get`] gives on some store
    /// within the capacity, at some reading of the clock.
    pub fn get<Q: ?Sized>(&self, k: &Q) -> (found: Option<Arc<V>>) where
        K: Borrow<Q>,
        Q: Hash + Eq,

        ensures
            exists|pre: Map<K, Slot<V>>, now: u64, post: Map<K, Slot<V>>|
                {
                    &&& bounded(pre, self.limit() as nat)
                    &&& bounded(post, self.limit() as nat)
                    &&& #[trigger] fetched(pre, k, now, pointee(found), post)
                },
    {
        let (mut store, handle) = self.store.acquire_write();
        let ghost pre = store@;
        let now = precise_time_ns();
        let found = store.get(k, now);
        assert(fetched(pre, k, now, pointee(found), store@));
        handle.release_write(store);
        found
    }

    /// Stores `v` under `k`, stamped with the clock's reading, and returns the handle that
    /// this overwrites, if `k` was present.
    ///
    /// As with [`get`](Self::get), the contents that the insertion meets are not the
    /// caller's to know. What holds of every outcome: the result is the one that
    /// [`LruStore::insert`] gives on some store within the capacity, at some reading of the
    /// clock, and the store it leaves is within the capacity again.
    pub fn insert(&self, k: K, v: V) -> (prior: Option<Arc<V>>)
        ensures
            exists|pre: Map<K, Slot<V>>, now: u64, post: Map<K, Slot<V>>|
                {
                    &&& bounded(pre, self.limit() as nat)
                    &&& bounded(post, self.limit() as nat)
                    &&& pointee(prior) == displaced(pre, k)
                    &&& #[trigger] inserted(
                        pre,
                        self.limit() as nat,
                        k,
                        Slot { last_access: now, value: v },
                        post,
                    )
                },
    {
        let now = precise_time_ns();
        let (mut store, handle) = self.store.acquire_write();
        let ghost pre = store@;
        let prior = store.insert(k, v, now);
        assert(inserted(
            pre,
            self.limit() as nat,
            k,
            Slot { last_access: now, value: v },
            store@,
        ));
        handle.release_write(store);
        prior
    }
}

} // verus!
