//! Core of a decentralized oracle: a registry of executors, an append-only
//! ledger of numbered data requests with secondary indexes, a threshold
//! admission gate, and a Merkle-proof verifier against committed roots.
//!
//! All state lives in [`state::State`], an in-memory model of the persistent
//! key-value store that a host passes through every entry point. Mutating
//! entry points are all-or-nothing: they either commit their whole effect or
//! leave the state untouched and return an error.

pub mod contract;
pub mod error;
pub mod gate;
pub mod executors;
pub mod keys;
pub mod ledger;
pub mod merkle;
pub mod msg;
pub mod pagination;
pub mod state;

pub use pagination::Order;
