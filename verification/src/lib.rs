//! An in-memory, time-to-live, hierarchical entity store.  Clients write
//! structured values under slash-delimited paths and read them back by
//! path, together with everything nested beneath it.  Every entity is
//! ephemeral: it expires a configured number of seconds after the last
//! write or read that touched it, and expired entities are swept out
//! lazily at the start of each operation rather than by a background
//! timer.

pub mod entity;
pub mod handle;
pub mod laws;
pub mod paths;
pub mod store;
