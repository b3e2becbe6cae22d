use vstd::prelude::*;
use vstd::rwlock::{RwLock, RwLockPredicate};

use crate::store::StoreState;

verus! {

/// The invariant the store's lock maintains: whoever acquires the lock
/// receives a well-formed store carrying this configuration, and must hand
/// such a store back.
pub struct StorePred {
    pub lifetime: u64,
    pub cascade_refresh: bool,
}

impl RwLockPredicate<StoreState> for StorePred {
    open spec fn inv(self, v: StoreState) -> bool {
        &&& v@.wf()
        &&& v@.lifetime == self.lifetime
        &&& v@.cascade_refresh == self.cascade_refresh
    }
}

/// A shareable handle on one store engine.  Every entry point runs under a
/// single exclusive critical section over the whole engine state — even a
/// read mutates expiry state, so there is no read-only fast path — and the
/// lock's invariant keeps the store well-formed and its configuration
/// fixed.
#[derive(Clone)]
pub struct Store {
    state: std::sync::Arc<RwLock<StoreState, StorePred>>,
}

impl Store {
    /// The configuration the engine behind this handle was built with and
    /// keeps for its whole life.
    pub closed spec fn config(self) -> StorePred {
        self.state.pred()
    }

    /// A fresh handle on an empty engine with the given configuration: how
    /// many seconds an entity survives untouched, and whether a read
    /// refreshes descendant-path entities as well.
    pub fn new(lifetime: u64, cascade_refresh: bool) -> (s: Self)
        ensures
            s.config() == (StorePred { lifetime, cascade_refresh }),
    {
        let engine = StoreState::new(lifetime, cascade_refresh);
        Store {
            state: std::sync::Arc::new(
                RwLock::new(engine, Ghost(StorePred { lifetime, cascade_refresh })),
            ),
        }
    }

    /// Stores `value` under `path` at the wall-clock instant, returning the
    /// fresh entity's identifier — `None` only in the practically
    /// unreachable case that the identifier space is exhausted.
    pub fn create_entity(&self, path: String, value: serde_json::Value) -> Option<u64> {
        let (mut engine, handle) = self.state.acquire_write();
        let id = if engine.has_capacity() {
            Some(engine.create_entity(path, value))
        } else {
            None
        };
        handle.release_write(engine);
        id
    }

    /// Reads every entity at or beneath `path` at the wall-clock instant,
    /// refreshing lifetimes as configured.
    pub fn get_entities(&self, path: &str) -> Vec<serde_json::Value> {
        let (mut engine, handle) = self.state.acquire_write();
        let out = engine.get_entities(path);
        handle.release_write(engine);
        out
    }
}

} // verus!
