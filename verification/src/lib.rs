//! Bridge from a single upstream entity-state source to many downstream
//! subscribers, each with its own entity filter.
//!
//! The crate keeps one authoritative cache of the latest snapshot per
//! entity, fans each upstream change event out to every matching
//! subscription through a broadcast hub, and gives each client session a
//! consistent initial snapshot followed by live filtered updates.

pub mod cache;
pub mod connector;
pub mod hub;
pub mod session;
pub mod snapshot;
