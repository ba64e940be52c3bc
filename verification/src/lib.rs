//! Cryptographic core of an end-to-end-verifiable voting protocol.
//!
//! Voters cast Pedersen commitments to their choices into a hash-chained
//! append-only log; at close, the log is anonymized by a verifiable shuffle
//! and the shuffled, opened votes plus a zero-knowledge proof are published
//! for universal verification.

pub mod group;
pub mod sums;
pub mod bytes;
pub mod utils;
pub mod types;
pub mod pedersen;
pub mod transcript;
pub mod shuffler;
pub mod shuffle_verifier;
pub mod completeness;
pub mod keys;
pub mod e2easy;
pub mod groups;
