//! Parsing of the preamble of an HTTP/1.x request: the request line and the
//! header fields that follow it, up to the blank line before the body.
//!
//! [`grammar`] says what a preamble is, as a machine that is given one line
//! after another. [`parser`] is that machine in executable form, for a
//! caller that reads the lines itself, from a socket for one.
//! [`request::Request::create`] runs it over a text held in memory, which
//! [`reader`] cuts into lines. [`laws`] holds what follows for every input.
//! The body of a request is never read.

pub mod error;
pub mod grammar;
pub mod headers;
pub mod laws;
pub mod method;
pub mod parser;
pub mod reader;
pub mod request;
pub mod response;
pub mod text;
