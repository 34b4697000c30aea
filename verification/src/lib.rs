//! Core of a small anonymous file-exchange server: delimiting and parsing
//! requests read byte by byte, naming and guarding stored uploads, routing,
//! admission of connections and expiry of old uploads.
//!
//! The library performs no input or output. A caller owns the socket and the
//! disk, hands the library what it read and carries out what the library
//! decides.

pub mod admission;
pub mod bytes;
pub mod collector;
pub mod diagnostics;
pub mod handlers;
pub mod headers;
pub mod inbox;
pub mod request;
pub mod router;
pub mod separator;
pub mod storage;
pub mod transfer;
pub mod utf8;
