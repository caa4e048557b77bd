//! A verified entity-registration engine.
//!
//! The engine mints content-addressed records: it derives each record's
//! attributes from a randomness-beacon output, hashes the finished content
//! into a fixed-width identity, and keeps three structures in lock step —
//! a key→record store, a capacity-bounded per-owner index of identities,
//! and a global count of live records.  Every `create` and `remove` is
//! all-or-nothing: a rejected operation leaves all three structures
//! exactly as they were.

pub mod attributes;
pub mod counter;
pub mod hashing;
pub mod index;
pub mod laws;
pub mod registry;
pub mod store;
