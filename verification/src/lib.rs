//! A risk-tiered lending ledger and a continuous salary-streaming engine,
//! sharing one pattern: counter-assigned records, secondary indices over an
//! append-only id space, and an audit trail of every state change.
//!
//! The host environment — the authorization primitive, the ledger clock and
//! the persistent store — is out of scope and modeled at its interface:
//! every operation takes the authenticated caller and the current timestamp
//! as plain values and works on in-memory state.

pub mod errors;
pub mod store;
pub mod lending;
pub mod streaming;
pub mod profile;
