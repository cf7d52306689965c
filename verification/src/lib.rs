//! A minimal HTTP/1.1 server core: request parsing and response
//! serialization, with a fixed route table.
//!
//! The library turns an in-memory byte buffer, accumulated from a
//! connection until the blank-line terminator, into a typed request; decides
//! one of a small set of routes per request; and turns a typed response back
//! into wire bytes, declaring buffered bodies by length and leaving streamed
//! bodies to be written chunk by chunk behind the head. All I/O — accepting
//! connections, reading sockets, opening files — stays with the caller.
pub mod ascii;
pub mod dispatch;
pub mod grammar;
pub mod gzip;
pub mod request;
pub mod response;
