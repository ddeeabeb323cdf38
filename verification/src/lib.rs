//! A minimal on-chain record-keeping library: each owner identity gets one
//! record store, located at an address derived deterministically from the
//! owner's public key, created exactly once, and appended to only by its
//! authority, up to a fixed capacity.

pub mod addressing;
pub mod errors;
pub mod identity;
pub mod ledger;
pub mod store;
