//! Client-side state engine of a shielded ledger.
//!
//! The crate keeps the local view of an append-only commitment tree, tracks
//! spent coins through a nullifier set, trial-decrypts incoming notes, and
//! assembles new shielded transactions.  Zero-knowledge proving, elliptic-curve
//! hashing and persistent storage are collaborators behind narrow interfaces;
//! everything that decides or computes here is verified.

pub mod bytes;
pub mod client;
pub mod error;
pub mod keys;
pub mod merkle;
pub mod note;
pub mod serial;
pub mod state;
pub mod tx;
pub mod vm2;
pub mod wallet;
pub mod zkas;
