//! Byte-range negotiation for read-only file serving.
//!
//! Given the raw value of an HTTP `Range` request header and the size of the
//! resource, the library parses the header, selects a single satisfiable
//! range (or rejects the request), and builds the status code, headers and
//! body plan of the response. File I/O and the HTTP framework live outside;
//! the library works on plain values and is verified end to end.

pub mod digits;
pub mod laws;
pub mod media;
pub mod ranges;
pub mod respond;
