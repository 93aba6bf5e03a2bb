//! A content-addressed, cryptographically verified object store with
//! append-only per-stream update histories.
//!
//! Clients push signed commands that transform a named stream's current
//! value; a verifier authenticates the caller, validates the command
//! against the stream's allow-list and staleness policy, applies a
//! deterministic transition, writes the resulting block, and advances the
//! stream tip.

pub mod block;
pub mod codec;
pub mod http;
pub mod router;
pub mod session;
pub mod ltime;
pub mod persist;
pub mod signed;
pub mod store;
pub mod update;
pub mod verify;
pub mod vmap;
