//! A directory-backed file index.
//!
//! The crate scans a root directory tree into an in-memory catalog of
//! servable files, resolves client-supplied relative paths against the root
//! with traversal protection, and turns an open file into a bounded sequence
//! of byte chunks for a transport layer to stream.

pub mod auth;
pub mod fsops;
pub mod listing;
pub mod paths;
pub mod stream;
pub mod switch;
