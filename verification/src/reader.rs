//! Reading a text line by line.

use crate::text::{first_of, lemma_first_of, Text};
use vstd::prelude::*;

verus! {

/// Where the line that starts at `pos` ends: behind the next line feed, or
/// at the end of `input` where no line feed follows.
pub open spec fn line_end(input: Seq<char>, pos: int) -> int {
    let k = first_of(input.skip(pos), '\n');
    if 0 <= k && pos + k < input.len() {
        pos + k + 1
    } else {
        input.len() as int
    }
}

/// The line that starts at `pos`, its line feed included.
pub open spec fn line_at(input: Seq<char>, pos: int) -> Seq<char> {
    input.subrange(pos, line_end(input, pos))
}

/// A line that starts inside `input` is not empty and ends inside `input`.
pub proof fn lemma_line_end(input: Seq<char>, pos: int)
    requires
        0 <= pos < input.len(),
    ensures
        pos < line_end(input, pos) <= input.len(),
{
    lemma_first_of(input.skip(pos), '\n');
}

/// A text held in memory, read one line at a time.
pub struct LineReader<'a> {
    input: Text<'a>,
    pos: usize,
}

impl<'a> LineReader<'a> {
    #[verifier::type_invariant]
    spec fn in_bounds(self) -> bool {
        self.pos <= self.input@.len()
    }

    /// The whole text, read or not.
    pub closed spec fn input(&self) -> Seq<char> {
        self.input@
    }

    /// How many characters have been read.
    pub closed spec fn position(&self) -> int {
        self.pos as int
    }

    /// What is left to read.
    pub open spec fn remaining(&self) -> Seq<char> {
        self.input().skip(self.position())
    }

    /// A reader at the start of `input`.
    pub fn new(input: &'a str) -> (reader: Self)
        ensures
            reader.input() == input@,
            reader.position() == 0,
    {
        LineReader { input: Text::new(input), pos: 0 }
    }

    /// How many characters have been read.
    pub fn consumed(&self) -> (n: usize)
        ensures
            n == self.position(),
            0 <= self.position() <= self.input().len(),
    {
        proof {
            use_type_invariant(self);
        }
        self.pos
    }

    /// What is left to read.
    pub fn rest(&self) -> (text: &'a str)
        ensures
            text@ == self.remaining(),
    {
        proof {
            use_type_invariant(self);
        }
        self.input.slice(self.pos, self.input.len())
    }

    /// Reads the next line, with the line feed that ends it. At the end of
    /// the text there is no line, and nothing changes.
    pub fn read_line(&mut self) -> (line: Option<&'a str>)
        ensures
            final(self).input() == old(self).input(),
            0 <= old(self).position() <= old(self).input().len(),
            old(self).position() == old(self).input().len() ==> {
                &&& line is None
                &&& final(self).position() == old(self).position()
            },
            old(self).position() < old(self).input().len() ==> {
                &&& line is Some
                &&& line->0@ == line_at(old(self).input(), old(self).position())
                &&& final(self).position() == line_end(old(self).input(), old(self).position())
            },
    {
        proof {
            use_type_invariant(&*self);
        }
        let len = self.input.len();
        if self.pos == len {
            return None;
        }
        let start = self.pos;
        let feed = self.input.find('\n', start, len);
        let end = if feed < len {
            feed + 1
        } else {
            len
        };
        proof {
            assert(self.input@.subrange(start as int, len as int) == self.input@.skip(start as int));
            lemma_first_of(self.input@.skip(start as int), '\n');
        }
        let line = self.input.slice(start, end);
        self.pos = end;
        Some(line)
    }
}

} // verus!
