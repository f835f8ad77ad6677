//! Session drift detection over per-user event histories.
//!
//! Events carry open metadata, of which four fields describe the device a
//! session came from: `ip`, `browser`, `os` and `dev_type`. From a user's
//! history two signals are derived: a drift score that compares the two
//! newest events, and a profile that hashes the newest device signature and
//! rates how stable the whole history has been.
//!
//! The [`store`] keeps the histories, [`drift`] and [`fingerprint`] derive the
//! signals, and [`document`] turns a store into the document it is persisted
//! as and back. Files, sockets and locks are the caller's business.

pub mod clock;
pub mod digest;
pub mod document;
pub mod drift;
pub mod event;
pub mod fingerprint;
pub mod json;
pub mod risk;
pub mod store;
