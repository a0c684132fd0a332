//! The parser: it is given the lines of a request one by one and builds the
//! preamble from them.

use crate::error::RequestParseError;
use crate::grammar::{step, wants_line, ParserState, Preamble};
use crate::headers::Headers;
use crate::method::Method;
use crate::request::Request;
use crate::text::{texts, trimmed_end, Text};
use vstd::prelude::*;

verus! {

/// The parts of a request that the lines give.
struct Head {
    method: Method,
    path: String,
    version: String,
    headers: Headers,
}

impl Head {
    spec fn preamble(&self) -> Preamble {
        Preamble {
            method: self.method@,
            path: self.path@,
            version: self.version@,
            headers: self.headers@,
        }
    }

    /// The request that these parts and `body` make up.
    fn with_body<B>(self, body: B) -> (request: Request<B>)
        ensures
            request.preamble() == self.preamble(),
            request.body == body,
    {
        Request {
            method: self.method,
            version: self.version,
            path: self.path,
            headers: self.headers,
            body,
        }
    }
}

enum State {
    Start,
    Headers { head: Head, last: Option<String> },
    Done { head: Head },
    Failed,
}

/// A parser of request preambles that is driven from outside: whoever
/// holds the input gives it line after line, for as long as the parser
/// wants one, and then asks for the request.
pub struct RequestParser {
    state: State,
}

impl View for RequestParser {
    type V = ParserState;

    closed spec fn view(&self) -> ParserState {
        match self.state {
            State::Start => ParserState::Start,
            State::Headers { head, last } => ParserState::Headers {
                so_far: head.preamble(),
                last: match last {
                    Some(name) => Some(name@),
                    None => None,
                },
            },
            State::Done { head } => ParserState::Done { preamble: head.preamble() },
            State::Failed => ParserState::Failed,
        }
    }
}

/// Reads the request line.
fn read_request_line(text: &str) -> (state: State)
    ensures
        (RequestParser { state })@ == step(ParserState::Start, Some(text@)),
{
    let line = Text::new(text);
    let bounds = line.trim(0, line.len());
    let pieces = line.split(bounds.0, bounds.1);
    proof {
        assert(line@.subrange(0, line@.len() as int) == line@);
        assert(texts(pieces@).len() == pieces@.len());
    }
    if pieces.len() >= 3 {
        proof {
            assert(texts(pieces@)[0] == pieces@[0]@);
            assert(texts(pieces@)[1] == pieces@[1]@);
            assert(texts(pieces@)[2] == pieces@[2]@);
        }
        let head = Head {
            method: Method::from_token(pieces[0]),
            path: pieces[1].to_string(),
            version: pieces[2].to_string(),
            headers: Headers::new(),
        };
        State::Headers { head, last: None }
    } else {
        State::Failed
    }
}

/// Reads a header line, or the blank line that ends the headers.
fn read_header_line(head: Head, last: Option<String>, text: &str) -> (state: State)
    ensures
        (RequestParser { state })@ == step(
            (RequestParser { state: State::Headers { head, last } })@,
            Some(text@),
        ),
{
    let line = Text::new(text);
    let end = line.trim_end(0, line.len());
    let ghost content = trimmed_end(text@);
    proof {
        assert(line@.subrange(0, line@.len() as int) == line@);
    }
    if end == 0 {
        return State::Done { head };
    }
    let mut head = head;
    let first = line.char_at(0);
    if first == ' ' || first == '\t' {
        let bounds = line.trim(0, end);
        match &last {
            Some(name) => {
                head.headers.append(name.as_str(), line.slice(bounds.0, bounds.1));
            },
            None => {},
        }
        State::Headers { head, last }
    } else {
        let colon = line.find(':', 0, end);
        let name = line.slice(0, colon).to_string();
        let value = if colon < end {
            let bounds = line.trim(colon + 1, end);
            line.slice(bounds.0, bounds.1).to_string()
        } else {
            String::new()
        };
        proof {
            assert(content.take(colon as int) == line@.subrange(0, colon as int));
            if colon < end {
                assert(content.skip(colon + 1) == line@.subrange(colon + 1, end as int));
            }
        }
        head.headers.insert(name.clone(), value);
        State::Headers { head, last: Some(name) }
    }
}

impl RequestParser {
    /// A parser that has read nothing.
    pub fn new() -> (parser: RequestParser)
        ensures
            parser@ == ParserState::Start,
    {
        RequestParser { state: State::Start }
    }

    /// Whether the parser is to be given another line.
    pub fn wants_line(&self) -> (wanted: bool)
        ensures
            wanted == wants_line(self@),
    {
        match &self.state {
            State::Start => true,
            State::Headers { .. } => true,
            _ => false,
        }
    }

    /// Gives the parser the next line of the input, with or without the
    /// line feed that ends it, or tells it with `None` that the input has
    /// ended. A parser that wants no line stays as it is.
    pub fn feed(self, line: Option<&str>) -> (next: RequestParser)
        ensures
            next@ == step(
                self@,
                match line {
                    Some(text) => Some(text@),
                    None => None,
                },
            ),
    {
        let state = match self.state {
            State::Start => match line {
                Some(text) => read_request_line(text),
                None => State::Failed,
            },
            State::Headers { head, last } => match line {
                Some(text) => read_header_line(head, last, text),
                None => State::Done { head },
            },
            State::Done { head } => State::Done { head },
            State::Failed => State::Failed,
        };
        RequestParser { state }
    }

    /// Ends the parse and hands out the request, with `body` as its body.
    /// A parser that still wants a line takes the input to have ended.
    pub fn finish<B>(self, body: B) -> (result: Result<Request<B>, RequestParseError>)
        ensures
            result is Ok <==> step(self@, None) is Done,
            match result {
                Ok(request) => {
                    &&& step(self@, None) == (ParserState::Done { preamble: request.preamble() })
                    &&& request.body == body
                },
                Err(_) => step(self@, None) is Failed,
            },
    {
        match self.state {
            State::Headers { head, last: _ } => Ok(head.with_body(body)),
            State::Done { head } => Ok(head.with_body(body)),
            _ => Err(RequestParseError::new()),
        }
    }
}

} // verus!
