//! A parsed request.

use crate::error::RequestParseError;
use crate::grammar::{accepted, parsed, run, wants_line, ParserState, Preamble};
use crate::headers::Headers;
use crate::method::{verb_of, Method};
use crate::parser::RequestParser;
use crate::reader::{lemma_line_end, LineReader};
use vstd::prelude::*;

verus! {

/// A request: its preamble, and a handle on its body. The body is whatever
/// the caller has behind the preamble, the rest of a stream or of a text;
/// parsing does not read it.
pub struct Request<B> {
    pub method: Method,
    pub version: String,
    pub path: String,
    pub headers: Headers,
    pub body: B,
}

/// How a request is written out in one line.
pub open spec fn summary_of(preamble: Preamble) -> Seq<char> {
    "Method: "@ + verb_of(preamble.method) + " Path: "@ + preamble.path + " Version: "@
        + preamble.version
}

impl<B> Request<B> {
    /// The request line and the header fields.
    pub open spec fn preamble(&self) -> Preamble {
        Preamble {
            method: self.method@,
            path: self.path@,
            version: self.version@,
            headers: self.headers@,
        }
    }

    /// The method, the path and the version in one line.
    pub fn summary(&self) -> (line: String)
        ensures
            line@ == summary_of(self.preamble()),
    {
        let mut line = "Method: ".to_string();
        line.append(self.method.as_str());
        line.append(" Path: ");
        line.append(self.path.as_str());
        line.append(" Version: ");
        line.append(self.version.as_str());
        line
    }
}

impl<'a> Request<LineReader<'a>> {
    /// Parses the request that stands at the reader's position: its request
    /// line, then header lines up to the first blank line or the end of the
    /// text. The reader, which then stands where the body starts, becomes
    /// the body of the request.
    ///
    /// The parse fails only where the text has ended already or its next
    /// line holds fewer than three pieces. Nothing in the header lines makes
    /// it fail.
    pub fn create(reader: LineReader<'a>) -> (result: Result<
        Request<LineReader<'a>>,
        RequestParseError,
    >)
        ensures
            result is Ok <==> accepted(reader.input(), reader.position()),
            match result {
                Ok(request) => {
                    &&& parsed(reader.input(), reader.position()) == Some(
                        (request.preamble(), request.body.position()),
                    )
                    &&& request.body.input() == reader.input()
                },
                Err(_) => parsed(reader.input(), reader.position()) is None,
            },
    {
        let ghost input = reader.input();
        let start = reader.consumed();
        let mut reader = reader;
        let mut parser = RequestParser::new();
        proof {
            crate::grammar::lemma_accepted(input, start as int);
        }
        while parser.wants_line()
            invariant
                reader.input() == input,
                0 <= reader.position() <= input.len(),
                run(parser@, input, reader.position()) == run(
                    ParserState::Start,
                    input,
                    start as int,
                ),
            decreases input.len() - reader.position() + if wants_line(parser@) {
                1int
            } else {
                0int
            },
        {
            let ghost pos = reader.position();
            let line = reader.read_line();
            proof {
                if pos < input.len() {
                    lemma_line_end(input, pos);
                }
            }
            parser = parser.feed(line);
        }
        parser.finish(reader)
    }
}

} // verus!
