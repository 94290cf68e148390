//! Core of a multi-board task tracker: boards hold cards, each card carries a
//! workflow status, and every operation must first pass a bearer-token
//! authentication gate.  This crate holds the verified logic: the header
//! parser and authentication gate, the store semantics (idempotent deletes,
//! cascading board deletion, atomic card updates, per-status summaries), and
//! the uniform error envelope.  Transport and persistence plumbing live
//! outside the crate and call into it with plain values.

pub mod api;
pub mod auth;
pub mod errors;
pub mod http_error;
pub mod models;
pub mod store;
