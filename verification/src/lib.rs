//! Core of a screen-window indexing worker: content fingerprints, the shared
//! snapshot store, change detection across capture cycles, the cycle schedule,
//! and the bookkeeping that turns changed windows into embedding requests and
//! index rows.

pub mod diff;
pub mod dispatch;
pub mod hash;
pub mod index;
pub mod schedule;
pub mod store;
pub mod types;
