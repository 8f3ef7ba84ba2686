//! The wire protocol: the codec trait and its RESP-style implementation.

pub mod base;
pub mod resp2;
