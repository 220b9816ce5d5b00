//! A one-time, Merkle-proof-gated token distribution.
//!
//! A fixed allocation list `(index, recipient, amount)` is committed as a
//! Merkle root. Each allocation may be claimed once, by presenting the
//! sibling digests that lead from its leaf to the root. Claims are tracked in
//! a growable bitmap keyed by allocation index.

pub mod bitmap;
pub mod distributor;
pub mod merkle;
pub mod supply;
pub mod tree;
