//! Core of a minimal HTTP/1.1 static file server.
//!
//! The library holds everything that decides or computes: incremental
//! request-header acquisition ([`reader`]), request-head parsing
//! ([`request`]), response-head serialization ([`response`]) and the
//! request-handling decisions ([`handler`]). Network and file I/O stay
//! outside; callers feed bytes in and write the returned bytes back.

pub mod ascii;
pub mod handler;
pub mod reader;
pub mod request;
pub mod response;
