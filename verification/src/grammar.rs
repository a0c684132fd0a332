//! What a request preamble is: the request line, the header lines after it,
//! and the states that a parser goes through as it is given line after line.

use crate::method::{resolved, MethodView};
use crate::reader::{line_at, line_end};
use crate::text::{fields, first_of, trimmed, trimmed_end};
use vstd::prelude::*;

verus! {

/// The request line and the header fields of a request.
pub struct Preamble {
    pub method: MethodView,
    pub path: Seq<char>,
    pub version: Seq<char>,
    pub headers: Map<Seq<char>, Seq<char>>,
}

/// The preamble that a request line opens. The line is taken without the
/// white space at its ends and cut at every white space character: the
/// first three pieces are the method, the path and the version, and a line
/// of fewer pieces is no request line. Pieces after the third are ignored.
pub open spec fn request_line(line: Seq<char>) -> Option<Preamble> {
    let pieces = fields(trimmed(line));
    if pieces.len() >= 3 {
        Some(
            Preamble {
                method: resolved(pieces[0]),
                path: pieces[1],
                version: pieces[2],
                headers: Map::empty(),
            },
        )
    } else {
        None
    }
}

/// A header line that begins with a space or a tab continues the field
/// before it.
pub open spec fn is_continuation(line: Seq<char>) -> bool {
    line.len() > 0 && (line[0] == ' ' || line[0] == '\t')
}

/// The name that a header line gives: what stands before its first colon,
/// as it is written, or the whole line where it has no colon.
pub open spec fn header_name(line: Seq<char>) -> Seq<char> {
    line.take(first_of(line, ':'))
}

/// The value that a header line gives: what stands after its first colon,
/// without the white space at its ends. A line without a colon gives the
/// empty value.
pub open spec fn header_value(line: Seq<char>) -> Seq<char> {
    let colon = first_of(line, ':');
    if 0 <= colon < line.len() {
        trimmed(line.skip(colon + 1))
    } else {
        Seq::empty()
    }
}

/// The header fields after one more header line. `last` is the name that
/// the line before gave, if any did. A continuation is put, without the
/// white space at its ends, directly behind the value of that name; where
/// there is no such name it is dropped. Any other line sets the name it
/// gives to the value it gives.
pub open spec fn headers_after(
    headers: Map<Seq<char>, Seq<char>>,
    last: Option<Seq<char>>,
    line: Seq<char>,
) -> Map<Seq<char>, Seq<char>> {
    if is_continuation(line) {
        if last is Some && headers.contains_key(last->0) {
            headers.insert(last->0, headers[last->0] + trimmed(line))
        } else {
            headers
        }
    } else {
        headers.insert(header_name(line), header_value(line))
    }
}

/// The name that a continuation would add to, after one more header line.
pub open spec fn last_after(last: Option<Seq<char>>, line: Seq<char>) -> Option<Seq<char>> {
    if is_continuation(line) {
        last
    } else {
        Some(header_name(line))
    }
}

/// How far a parser has come.
pub enum ParserState {
    /// Nothing has been read; the request line is awaited.
    Start,
    /// The request line has been read; header lines are awaited.
    Headers { so_far: Preamble, last: Option<Seq<char>> },
    /// The preamble is complete.
    Done { preamble: Preamble },
    /// There was no request line.
    Failed,
}

/// Whether the parser is to be given another line.
pub open spec fn wants_line(state: ParserState) -> bool {
    state is Start || state is Headers
}

/// The state after the parser has been given a line, or has been told, by
/// `None`, that the input has ended.
///
/// Only the request line can fail: it must be there and hold three pieces.
/// The headers end at a line that is empty once the white space at its end
/// is left off, or where the input ends.
pub open spec fn step(state: ParserState, line: Option<Seq<char>>) -> ParserState {
    match state {
        ParserState::Start => match line {
            Some(text) => match request_line(text) {
                Some(preamble) => ParserState::Headers { so_far: preamble, last: None },
                None => ParserState::Failed,
            },
            None => ParserState::Failed,
        },
        ParserState::Headers { so_far, last } => match line {
            Some(text) => {
                let content = trimmed_end(text);
                if content.len() == 0 {
                    ParserState::Done { preamble: so_far }
                } else {
                    ParserState::Headers {
                        so_far: Preamble {
                            headers: headers_after(so_far.headers, last, content),
                            ..so_far
                        },
                        last: last_after(last, content),
                    }
                }
            },
            None => ParserState::Done { preamble: so_far },
        },
        ParserState::Done { .. } => state,
        ParserState::Failed => state,
    }
}

/// The state in which a parser comes to rest, and the position up to which
/// it has then read, when it starts in `state` and is given the lines of
/// `input` from `pos` on.
pub open spec fn run(state: ParserState, input: Seq<char>, pos: int) -> (ParserState, int)
    decreases input.len() - pos,
{
    if !wants_line(state) {
        (state, pos)
    } else if 0 <= pos < input.len() {
        run(step(state, Some(line_at(input, pos))), input, line_end(input, pos))
    } else {
        (step(state, None), pos)
    }
}

/// The preamble of the request that `input` holds from `pos` on, and the
/// position at which its body starts; `None` where there is no request.
pub open spec fn parsed(input: Seq<char>, pos: int) -> Option<(Preamble, int)> {
    let end = run(ParserState::Start, input, pos);
    match end.0 {
        ParserState::Done { preamble } => Some((preamble, end.1)),
        _ => None,
    }
}

/// Whether `input` holds a request from `pos` on: it has not ended there,
/// and its first line is a request line.
pub open spec fn accepted(input: Seq<char>, pos: int) -> bool {
    0 <= pos < input.len() && request_line(line_at(input, pos)) is Some
}

/// The moves that the parser makes. The start leads on to the headers or
/// to failure, the headers to themselves or to completion, and a parser that
/// has failed or is done stays as it is. Nothing but the request line leads
/// to failure.
pub proof fn lemma_moves(state: ParserState, line: Option<Seq<char>>)
    ensures
        state is Start ==> step(state, line) is Headers || step(state, line) is Failed,
        state is Start ==> (step(state, line) is Failed <==> line is None || request_line(line->0)
            is None),
        state is Headers ==> step(state, line) is Headers || step(state, line) is Done,
        state is Headers ==> (step(state, line) is Done <==> line is None || trimmed_end(
            line->0,
        ).len() == 0),
        !wants_line(state) ==> step(state, line) == state,
{
}

/// Once the request line has been read, the parser comes to rest with a
/// complete preamble, whatever the rest of the input holds.
pub proof fn lemma_headers_never_fail(
    so_far: Preamble,
    last: Option<Seq<char>>,
    input: Seq<char>,
    pos: int,
)
    requires
        0 <= pos <= input.len(),
    ensures
        run(ParserState::Headers { so_far, last }, input, pos).0 is Done,
        pos <= run(ParserState::Headers { so_far, last }, input, pos).1 <= input.len(),
    decreases input.len() - pos,
{
    reveal_with_fuel(run, 2);
    if pos < input.len() {
        crate::reader::lemma_line_end(input, pos);
        let next = step(ParserState::Headers { so_far, last }, Some(line_at(input, pos)));
        if next is Headers {
            lemma_headers_never_fail(
                next->Headers_so_far,
                next->Headers_last,
                input,
                line_end(input, pos),
            );
        }
    }
}

/// There is a parsed request exactly where the input is accepted: where
/// it has not ended and its first line is a request line.
pub proof fn lemma_accepted(input: Seq<char>, pos: int)
    requires
        0 <= pos <= input.len(),
    ensures
        parsed(input, pos) is Some <==> accepted(input, pos),
        parsed(input, pos) is None ==> run(ParserState::Start, input, pos).0 is Failed,
        parsed(input, pos) is Some ==> pos < parsed(input, pos).unwrap().1 <= input.len(),
{
    reveal_with_fuel(run, 2);
    if pos < input.len() {
        crate::reader::lemma_line_end(input, pos);
        let next = step(ParserState::Start, Some(line_at(input, pos)));
        if next is Headers {
            lemma_headers_never_fail(
                next->Headers_so_far,
                next->Headers_last,
                input,
                line_end(input, pos),
            );
        }
    }
}

} // verus!
