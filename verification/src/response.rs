//! The answer that every connection gets.

use crate::error::RequestParseError;
use crate::request::Request;
use vstd::prelude::*;

verus! {

/// The answer, as text: a status line, one header field, a blank line and
/// a greeting.
pub open spec fn response_text() -> Seq<char> {
    "HTTP/1.1 200 Ok\r\nContent-Type: text/plain\r\n\r\nHello World!\r\n"@
}

/// The bytes of the answer: one byte for each character of
/// [`response_text`], all of which are ASCII.
pub open spec fn fixed_response() -> Seq<u8> {
    Seq::new(response_text().len(), |i: int| response_text()[i] as u8)
}

/// The bytes to send back once parsing has come to an end. They are the
/// same whether a request was parsed or not, and whatever it holds.
pub fn response<B>(outcome: &Result<Request<B>, RequestParseError>) -> (bytes: &'static [u8])
    ensures
        bytes@ == fixed_response(),
{
    let text = "HTTP/1.1 200 Ok\r\nContent-Type: text/plain\r\n\r\nHello World!\r\n";
    proof {
        reveal_strlit("HTTP/1.1 200 Ok\r\nContent-Type: text/plain\r\n\r\nHello World!\r\n");
        assert(text.is_ascii());
        vstd::string::is_ascii_spec_bytes(text);
    }
    text.as_bytes()
}

} // verus!
