//! Verified core of an oracle proof-packet bridge.
//!
//! The library decodes binary oracle proof packets against a fixed schema,
//! derives a deterministic content address for the embedded request by
//! hashing its canonical encoding, and persists the raw packet bytes under
//! that address in a key-value store, behind a one-time initialization gate.

pub mod api;
pub mod codec;
pub mod digest;
pub mod error;
pub mod gate;
pub mod store;
