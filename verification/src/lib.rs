//! A minimal static-file HTTP server library.
//!
//! The server maps each request path onto a file beneath a configured
//! document root and streams the file back as the response body. The two
//! pieces of logic worth getting right live here, fully verified:
//!
//! - [`resolve`]: path normalization and sandboxing, which guarantees that a
//!   resolved path can never escape the document root;
//! - [`handler`]: the request-to-response decision rules (method check,
//!   directory policy, status-code mapping).
//!
//! Listening on a socket, parsing HTTP, probing the filesystem and streaming
//! bytes are left to an unverified front end that calls into this crate with
//! plain values.

pub mod handler;
pub mod resolve;
