//! Client-side query protocol for a remote graph-scoring service.
//!
//! The service answers one reply per request over a request/reply socket.
//! Requests are queries in a compact binary tuple format: a sequence of
//! filter clauses plus a trailing options element, optionally wrapped in a
//! named-context envelope.  Replies are either an encoded list of typed
//! result rows or an encoded error string.
//!
//! This crate builds the request payloads and decodes the replies, both
//! verified down to the exact bytes.  The socket itself is left to the
//! caller: every function here maps plain values to plain values.
pub mod enc;
pub mod dec;
pub mod rows;
pub mod payload;
pub mod service;
