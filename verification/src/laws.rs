//! What holds of every parse: which request a request line alone gives,
//! what every preamble that comes out of the parser looks like, and what a
//! header line of each kind does to the fields.

use crate::grammar::{
    header_value, headers_after, last_after, parsed, request_line, run, step, wants_line,
    ParserState, Preamble,
};
use crate::method::{lemma_verb_kept, resolved, verb_of};
use crate::reader::{lemma_line_end, line_at, line_end};
use crate::text::{
    fields, first_space, is_space, lemma_first_of_is, lemma_first_space, lemma_first_space_is,
    lemma_trimmed_end, lemma_trimmed_end_behind, lemma_trimmed_end_is, lemma_trimmed_is,
    lemma_trimmed_of_trimmed_end, lemma_trimmed_start, trimmed, trimmed_end, trimmed_start,
};
use vstd::prelude::*;

verus! {

/// A word of a request line: it is not empty and holds no white space.
pub open spec fn is_token(word: Seq<char>) -> bool {
    word.len() > 0 && forall|i: int| 0 <= i < word.len() ==> !is_space(#[trigger] word[i])
}

/// The request that consists of a request line of three words, each set off
/// from the next by one space, and the blank line after it.
pub open spec fn bare_request(method: Seq<char>, path: Seq<char>, version: Seq<char>) -> Seq<
    char,
> {
    method + " "@ + path + " "@ + version + "\r\n\r\n"@
}

/// A sequence without white space is its own single piece.
pub proof fn lemma_fields_of_word(word: Seq<char>)
    requires
        forall|i: int| 0 <= i < word.len() ==> !is_space(#[trigger] word[i]),
    ensures
        fields(word) == seq![word],
{
    lemma_first_space_is(word, word.len() as int);
}

/// The pieces of a word, a space and more text are the word and the pieces
/// of that text.
pub proof fn lemma_fields_after_word(word: Seq<char>, rest: Seq<char>)
    requires
        forall|i: int| 0 <= i < word.len() ==> !is_space(#[trigger] word[i]),
    ensures
        fields(word + " "@ + rest) == seq![word] + fields(rest),
{
    reveal_strlit(" ");
    let whole = word + " "@ + rest;
    let n = word.len() as int;
    assert(whole[n] == ' ');
    assert forall|i: int| 0 <= i < n implies !is_space(#[trigger] whole[i]) by {
        assert(whole[i] == word[i]);
    }
    lemma_first_space_is(whole, n);
    assert(whole.take(n) == word);
    assert(whole.skip(n + 1) == rest);
}

/// A request line of three words and the blank line after it are a
/// request: its method is the one that the first word names, its path is
/// the second word and its version the third, it has no header field, and
/// its body starts where the text ends.
pub proof fn lemma_bare_request(method: Seq<char>, path: Seq<char>, version: Seq<char>)
    requires
        is_token(method),
        is_token(path),
        is_token(version),
    ensures
        parsed(bare_request(method, path, version), 0) == Some(
            (
                Preamble {
                    method: resolved(method),
                    path,
                    version,
                    headers: Map::empty(),
                },
                bare_request(method, path, version).len() as int,
            ),
        ),
{
    reveal_strlit(" ");
    reveal_strlit("\r\n\r\n");
    let input = bare_request(method, path, version);
    let words = method + " "@ + path + " "@ + version;
    let n = words.len() as int;
    assert(input == words + "\r\n\r\n"@);
    assert(input.len() == n + 4);

    // The request line runs up to the first line feed.
    assert forall|j: int| 0 <= j < n + 1 implies #[trigger] input[j] != '\n' by {
        if j < n {
            assert(input[j] == words[j]);
            let a = method.len() as int;
            let b = a + 1 + path.len();
            if j < a {
                assert(words[j] == method[j]);
            } else if j == a {
            } else if j < b {
                assert(words[j] == path[j - a - 1]);
            } else if j == b {
            } else {
                assert(words[j] == version[j - b - 1]);
            }
        }
    }
    assert(input.skip(0) == input);
    lemma_first_of_is(input, '\n', n + 1);
    assert(line_end(input, 0) == n + 2);
    let line = line_at(input, 0);
    assert(line.len() == n + 2);
    assert(line[0] == method[0]);
    assert(line[n - 1] == version[version.len() - 1]);
    assert(line[n] == '\r' && line[n + 1] == '\n');
    lemma_trimmed_is(line, 0, n);
    assert(line.subrange(0, n) == words);
    assert(trimmed(line) == words);

    // It falls into the three words.
    lemma_fields_of_word(version);
    lemma_fields_after_word(path, version);
    lemma_fields_after_word(method, path + " "@ + version);
    assert(words == method + " "@ + (path + " "@ + version));
    assert(fields(words) == seq![method, path, version]);
    let preamble = Preamble { method: resolved(method), path, version, headers: Map::empty() };
    assert(request_line(line) == Some(preamble));

    // The line after it is blank.
    let rest = input.skip(n + 2);
    assert(rest.len() == 2 && rest[0] == '\r' && rest[1] == '\n');
    lemma_first_of_is(rest, '\n', 1);
    assert(line_end(input, n + 2) == n + 4);
    let blank = line_at(input, n + 2);
    assert(blank.len() == 2 && blank[0] == '\r' && blank[1] == '\n');
    lemma_trimmed_end_is(blank, 0);
    assert(trimmed_end(blank).len() == 0);

    let second = ParserState::Headers { so_far: preamble, last: None };
    let third = ParserState::Done { preamble };
    assert(step(ParserState::Start, Some(line)) == second);
    assert(step(second, Some(blank)) == third);
    assert(run(third, input, n + 4) == (third, n + 4));
    assert(run(second, input, n + 2) == run(third, input, n + 4));
    assert(run(ParserState::Start, input, 0) == run(second, input, n + 2));
}

/// `text` holds no white space.
pub open spec fn has_no_space(text: Seq<char>) -> bool {
    forall|i: int| 0 <= i < text.len() ==> !is_space(#[trigger] text[i])
}

/// `text` neither begins nor ends with white space.
pub open spec fn is_bare(text: Seq<char>) -> bool {
    text.len() > 0 ==> !is_space(text.first()) && !is_space(text.last())
}

/// The verb, the path and the version hold no white space, and no value of
/// a header field begins or ends with white space.
pub open spec fn is_tidy(preamble: Preamble) -> bool {
    &&& has_no_space(verb_of(preamble.method))
    &&& has_no_space(preamble.path)
    &&& has_no_space(preamble.version)
    &&& forall|name: Seq<char>| #[trigger]
        preamble.headers.contains_key(name) ==> is_bare(preamble.headers[name])
}

/// What the parser has built so far is tidy, and the name that a
/// continuation would add to is the name of a field.
pub open spec fn is_settled(state: ParserState) -> bool {
    match state {
        ParserState::Start => true,
        ParserState::Headers { so_far, last } => is_tidy(so_far) && (last is Some
            ==> so_far.headers.contains_key(last->0)),
        ParserState::Done { preamble } => is_tidy(preamble),
        ParserState::Failed => true,
    }
}

/// A trimmed text neither begins nor ends with white space.
pub proof fn lemma_trimmed_is_bare(text: Seq<char>)
    ensures
        is_bare(trimmed(text)),
{
    let inner = trimmed_start(text);
    lemma_trimmed_start(text);
    lemma_trimmed_end(inner);
    if trimmed(text).len() > 0 {
        assert(trimmed(text).first() == inner.first());
    }
}

/// The pieces of a text hold no white space, and there is at least one.
pub proof fn lemma_fields_have_no_space(text: Seq<char>)
    ensures
        fields(text).len() >= 1,
        forall|k: int| 0 <= k < fields(text).len() ==> has_no_space(#[trigger] fields(text)[k]),
    decreases text.len(),
{
    lemma_first_space(text);
    let i = first_space(text);
    if i < text.len() {
        let rest = text.skip(i + 1);
        lemma_fields_have_no_space(rest);
        assert forall|k: int| 0 <= k < fields(text).len() implies has_no_space(
            #[trigger] fields(text)[k],
        ) by {
            if k == 0 {
                assert(fields(text)[0] == text.take(i));
            } else {
                assert(fields(text)[k] == fields(rest)[k - 1]);
            }
        }
    }
}

/// One step of a settled parser leaves it settled.
pub proof fn lemma_step_settled(state: ParserState, line: Option<Seq<char>>)
    requires
        is_settled(state),
    ensures
        is_settled(step(state, line)),
{
    match state {
        ParserState::Start => {
            if line is Some && request_line(line->0) is Some {
                let pieces = fields(trimmed(line->0));
                lemma_fields_have_no_space(trimmed(line->0));
                lemma_verb_kept(pieces[0]);
                assert(has_no_space(pieces[0]) && has_no_space(pieces[1]) && has_no_space(
                    pieces[2],
                ));
            }
        },
        ParserState::Headers { so_far, last } => {
            if line is Some && trimmed_end(line->0).len() > 0 {
                let content = trimmed_end(line->0);
                let after = headers_after(so_far.headers, last, content);
                lemma_trimmed_is_bare(content);
                lemma_trimmed_is_bare(content.skip(crate::text::first_of(content, ':') + 1));
                assert(is_bare(header_value(content)));
                assert forall|name: Seq<char>| #[trigger] after.contains_key(name) implies is_bare(
                    after[name],
                ) by {
                    if so_far.headers.contains_key(name) {
                        assert(is_bare(so_far.headers[name]));
                    }
                }
                assert(last_after(last, content) is Some ==> after.contains_key(
                    last_after(last, content)->0,
                ));
            }
        },
        ParserState::Done { .. } => {},
        ParserState::Failed => {},
    }
}

/// A settled parser comes to rest settled, whatever it is given.
pub proof fn lemma_run_settled(state: ParserState, input: Seq<char>, pos: int)
    requires
        is_settled(state),
        0 <= pos <= input.len(),
    ensures
        is_settled(run(state, input, pos).0),
    decreases input.len() - pos,
{
    if !wants_line(state) {
    } else if pos < input.len() {
        lemma_line_end(input, pos);
        lemma_step_settled(state, Some(line_at(input, pos)));
        lemma_run_settled(step(state, Some(line_at(input, pos))), input, line_end(input, pos));
    } else {
        lemma_step_settled(state, None);
    }
}

/// Every preamble that is parsed is tidy: its verb, path and version hold
/// no white space, and no header value begins or ends with white space.
pub proof fn lemma_parsed_is_tidy(input: Seq<char>, pos: int)
    requires
        0 <= pos <= input.len(),
    ensures
        parsed(input, pos) is Some ==> is_tidy(parsed(input, pos).unwrap().0),
{
    lemma_run_settled(ParserState::Start, input, pos);
}

/// The parser, reading headers, is given a line that names a field: the
/// name, a colon, and the value with any white space around it. The name
/// holds no colon and does not begin with a space or a tab. Then the field
/// of that name is set to the value without the white space at its ends, in
/// place of any value it had, and a continuation would now add to it.
pub proof fn lemma_field_line(
    so_far: Preamble,
    last: Option<Seq<char>>,
    name: Seq<char>,
    value: Seq<char>,
)
    requires
        forall|i: int| 0 <= i < name.len() ==> #[trigger] name[i] != ':',
        name.len() > 0 ==> name[0] != ' ' && name[0] != '\t',
    ensures
        step(ParserState::Headers { so_far, last }, Some(name + ":"@ + value))
            == (ParserState::Headers {
            so_far: Preamble { headers: so_far.headers.insert(name, trimmed(value)), ..so_far },
            last: Some(name),
        }),
{
    reveal_strlit(":");
    let start = name + ":"@;
    let n = name.len() as int;
    assert(start.last() == ':');
    lemma_trimmed_end_behind(start, value);
    let content = start + trimmed_end(value);
    assert(content == trimmed_end(name + ":"@ + value));
    assert(content[0] == if n > 0 {
        name[0]
    } else {
        ':'
    });
    assert forall|j: int| 0 <= j < n implies #[trigger] content[j] != ':' by {
        assert(content[j] == name[j]);
    }
    assert(content[n] == ':');
    lemma_first_of_is(content, ':', n);
    assert(content.take(n) == name);
    assert(content.skip(n + 1) == trimmed_end(value));
    lemma_trimmed_of_trimmed_end(value);
}

/// The parser, reading headers, is given a line that begins with a space
/// or a tab and holds more than white space, after a line that named a
/// field. Then what the line holds between the white space at its ends is
/// put directly behind the value of that field, and nothing else changes.
pub proof fn lemma_continuation_line(so_far: Preamble, name: Seq<char>, line: Seq<char>)
    requires
        so_far.headers.contains_key(name),
        line.len() > 0,
        line[0] == ' ' || line[0] == '\t',
        trimmed(line).len() > 0,
    ensures
        step(ParserState::Headers { so_far, last: Some(name) }, Some(line))
            == (ParserState::Headers {
            so_far: Preamble {
                headers: so_far.headers.insert(name, so_far.headers[name] + trimmed(line)),
                ..so_far
            },
            last: Some(name),
        }),
{
    let content = trimmed_end(line);
    lemma_trimmed_of_trimmed_end(line);
    lemma_trimmed_end(line);
    assert(content.len() > 0) by {
        if content.len() == 0 {
            assert(trimmed_start(content) == content);
        }
    }
    assert(content[0] == line[0]);
}

/// The parser, reading headers, is given a line that begins with a space
/// or a tab before any line has named a field. Then the line is dropped.
pub proof fn lemma_orphan_line(so_far: Preamble, line: Seq<char>)
    requires
        line.len() > 0,
        line[0] == ' ' || line[0] == '\t',
        trimmed(line).len() > 0,
    ensures
        step(ParserState::Headers { so_far, last: None }, Some(line)) == (ParserState::Headers {
            so_far,
            last: None,
        }),
{
    let content = trimmed_end(line);
    lemma_trimmed_of_trimmed_end(line);
    lemma_trimmed_end(line);
    assert(content.len() > 0) by {
        if content.len() == 0 {
            assert(trimmed_start(content) == content);
        }
    }
    assert(content[0] == line[0]);
}

} // verus!
