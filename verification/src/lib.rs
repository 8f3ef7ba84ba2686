//! A small RESP-style key-value server library.
//!
//! The crate holds the verified core of the server: the wire codec that turns
//! byte streams into requests and replies back into bytes, the grammar that
//! maps token lists to requests, the expiring key-value store, and the
//! per-request dispatch step.  All values on the wire are binary-safe byte
//! strings.  Listening sockets, threads and clocks live outside the library;
//! callers hand in raw bytes and a current time in milliseconds.

pub mod bytes;
pub mod proto;
pub mod session;
pub mod store;
