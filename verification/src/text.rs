//! Character and line handling that the request parser is built on.
//!
//! The specifications speak of sequences of characters. The executable
//! functions work on a [`Text`], a string slice kept together with its
//! decoded characters, and answer with positions inside it.

use vstd::prelude::*;

verus! {

/// Whether `c` has the Unicode property `White_Space`.
pub open spec fn is_space(c: char) -> bool {
    ||| '\u{9}' <= c <= '\u{D}'
    ||| c == ' '
    ||| c == '\u{85}'
    ||| c == '\u{A0}'
    ||| c == '\u{1680}'
    ||| '\u{2000}' <= c <= '\u{200A}'
    ||| c == '\u{2028}'
    ||| c == '\u{2029}'
    ||| c == '\u{202F}'
    ||| c == '\u{205F}'
    ||| c == '\u{3000}'
}

/// `s` without the white space at its end.
pub open spec fn trimmed_end(s: Seq<char>) -> Seq<char>
    decreases s.len(),
{
    if s.len() > 0 && is_space(s.last()) {
        trimmed_end(s.drop_last())
    } else {
        s
    }
}

/// `s` without the white space at its start.
pub open spec fn trimmed_start(s: Seq<char>) -> Seq<char>
    decreases s.len(),
{
    if s.len() > 0 && is_space(s.first()) {
        trimmed_start(s.drop_first())
    } else {
        s
    }
}

/// `s` without the white space at either end.
pub open spec fn trimmed(s: Seq<char>) -> Seq<char> {
    trimmed_end(trimmed_start(s))
}

/// The position of the first white space character of `s`, or the length of
/// `s` where it has none.
pub open spec fn first_space(s: Seq<char>) -> int
    decreases s.len(),
{
    if s.len() == 0 || is_space(s.first()) {
        0
    } else {
        1 + first_space(s.drop_first())
    }
}

/// The position of the first `c` in `s`, or the length of `s` where `c` does
/// not occur in it.
pub open spec fn first_of(s: Seq<char>, c: char) -> int
    decreases s.len(),
{
    if s.len() == 0 || s.first() == c {
        0
    } else {
        1 + first_of(s.drop_first(), c)
    }
}

/// The pieces that `s` falls into when it is cut at every white space
/// character. Two such characters in a row enclose an empty piece, and a
/// sequence without white space is its own single piece.
pub open spec fn fields(s: Seq<char>) -> Seq<Seq<char>>
    decreases s.len(),
{
    let i = first_space(s);
    if 0 <= i < s.len() {
        seq![s.take(i)] + fields(s.skip(i + 1))
    } else {
        seq![s]
    }
}

/// What each of the string slices holds.
pub open spec fn texts(pieces: Seq<&str>) -> Seq<Seq<char>> {
    Seq::new(pieces.len(), |i: int| pieces[i]@)
}

/// `first_space(s)` is a position of `s` or its length, no character before
/// it is white space, and the character at it is.
pub proof fn lemma_first_space(s: Seq<char>)
    ensures
        0 <= first_space(s) <= s.len(),
        forall|j: int| 0 <= j < first_space(s) ==> !is_space(#[trigger] s[j]),
        first_space(s) < s.len() ==> is_space(s[first_space(s)]),
    decreases s.len(),
{
    if s.len() == 0 || is_space(s.first()) {
    } else {
        let rest = s.drop_first();
        lemma_first_space(rest);
        assert forall|j: int| 0 <= j < first_space(s) implies !is_space(#[trigger] s[j]) by {
            if j > 0 {
                assert(s[j] == rest[j - 1]);
            }
        }
        assert(first_space(s) < s.len() ==> s[first_space(s)] == rest[first_space(rest)]);
    }
}

/// A position at which white space stands, with none before it, is
/// `first_space(s)`; so is the length of a sequence free of white space.
pub proof fn lemma_first_space_is(s: Seq<char>, i: int)
    requires
        0 <= i <= s.len(),
        forall|j: int| 0 <= j < i ==> !is_space(#[trigger] s[j]),
        i < s.len() ==> is_space(s[i]),
    ensures
        first_space(s) == i,
    decreases s.len(),
{
    if s.len() == 0 {
    } else if i == 0 {
    } else {
        assert(!is_space(s[0]));
        let rest = s.drop_first();
        assert forall|j: int| 0 <= j < i - 1 implies !is_space(#[trigger] rest[j]) by {
            assert(rest[j] == s[j + 1]);
        }
        lemma_first_space_is(rest, i - 1);
    }
}

/// `first_of(s, c)` is a position of `s` or its length, `c` does not stand
/// before it, and does stand at it.
pub proof fn lemma_first_of(s: Seq<char>, c: char)
    ensures
        0 <= first_of(s, c) <= s.len(),
        forall|j: int| 0 <= j < first_of(s, c) ==> #[trigger] s[j] != c,
        first_of(s, c) < s.len() ==> s[first_of(s, c)] == c,
    decreases s.len(),
{
    if s.len() == 0 || s.first() == c {
    } else {
        let rest = s.drop_first();
        lemma_first_of(rest, c);
        assert forall|j: int| 0 <= j < first_of(s, c) implies #[trigger] s[j] != c by {
            if j > 0 {
                assert(s[j] == rest[j - 1]);
            }
        }
        assert(first_of(s, c) < s.len() ==> s[first_of(s, c)] == rest[first_of(rest, c)]);
    }
}

/// A position at which `c` stands, with none before it, is `first_of(s, c)`;
/// so is the length of a sequence in which `c` does not occur.
pub proof fn lemma_first_of_is(s: Seq<char>, c: char, i: int)
    requires
        0 <= i <= s.len(),
        forall|j: int| 0 <= j < i ==> #[trigger] s[j] != c,
        i < s.len() ==> s[i] == c,
    ensures
        first_of(s, c) == i,
    decreases s.len(),
{
    if s.len() == 0 {
    } else if i == 0 {
    } else {
        assert(s[0] != c);
        let rest = s.drop_first();
        assert forall|j: int| 0 <= j < i - 1 implies #[trigger] rest[j] != c by {
            assert(rest[j] == s[j + 1]);
        }
        lemma_first_of_is(rest, c, i - 1);
    }
}

/// `trimmed_end(s)` is the start of `s` up to its last character that is not
/// white space.
pub proof fn lemma_trimmed_end(s: Seq<char>)
    ensures
        trimmed_end(s).len() <= s.len(),
        trimmed_end(s) == s.take(trimmed_end(s).len() as int),
        trimmed_end(s).len() > 0 ==> !is_space(trimmed_end(s).last()),
        forall|j: int| trimmed_end(s).len() <= j < s.len() ==> is_space(#[trigger] s[j]),
    decreases s.len(),
{
    if s.len() > 0 && is_space(s.last()) {
        let front = s.drop_last();
        lemma_trimmed_end(front);
        let n = trimmed_end(front).len() as int;
        assert(front.take(n) == s.take(n));
        assert forall|j: int| n <= j < s.len() implies is_space(#[trigger] s[j]) by {
            if j < s.len() - 1 {
                assert(s[j] == front[j]);
            }
        }
    } else {
        assert(s.take(s.len() as int) == s);
    }
}

/// A start of `s` that does not end in white space, and after which `s`
/// holds white space only, is `trimmed_end(s)`.
pub proof fn lemma_trimmed_end_is(s: Seq<char>, n: int)
    requires
        0 <= n <= s.len(),
        n > 0 ==> !is_space(s[n - 1]),
        forall|j: int| n <= j < s.len() ==> is_space(#[trigger] s[j]),
    ensures
        trimmed_end(s) == s.take(n),
    decreases s.len(),
{
    if n == s.len() {
        assert(s.take(n) == s);
    } else {
        assert(is_space(s[s.len() - 1]));
        let front = s.drop_last();
        assert forall|j: int| n <= j < front.len() implies is_space(#[trigger] front[j]) by {
            assert(front[j] == s[j]);
        }
        lemma_trimmed_end_is(front, n);
        assert(front.take(n) == s.take(n));
    }
}

/// `trimmed_start(s)` is the rest of `s` from its first character that is
/// not white space.
pub proof fn lemma_trimmed_start(s: Seq<char>)
    ensures
        trimmed_start(s).len() <= s.len(),
        trimmed_start(s) == s.skip(s.len() - trimmed_start(s).len()),
        trimmed_start(s).len() > 0 ==> !is_space(trimmed_start(s).first()),
        forall|j: int| 0 <= j < s.len() - trimmed_start(s).len() ==> is_space(#[trigger] s[j]),
    decreases s.len(),
{
    if s.len() > 0 && is_space(s.first()) {
        let rest = s.drop_first();
        lemma_trimmed_start(rest);
        let k = rest.len() - trimmed_start(rest).len();
        assert(rest.skip(k) == s.skip(k + 1));
        assert forall|j: int| 0 <= j < s.len() - trimmed_start(s).len() implies is_space(
            #[trigger] s[j],
        ) by {
            if j > 0 {
                assert(s[j] == rest[j - 1]);
            }
        }
    } else {
        assert(s.skip(0) == s);
    }
}

/// A rest of `s` that does not begin with white space, and before which `s`
/// holds white space only, is `trimmed_start(s)`.
pub proof fn lemma_trimmed_start_is(s: Seq<char>, k: int)
    requires
        0 <= k <= s.len(),
        k < s.len() ==> !is_space(s[k]),
        forall|j: int| 0 <= j < k ==> is_space(#[trigger] s[j]),
    ensures
        trimmed_start(s) == s.skip(k),
    decreases s.len(),
{
    if k == 0 {
        assert(s.skip(0) == s);
    } else {
        assert(is_space(s[0]));
        let rest = s.drop_first();
        assert forall|j: int| 0 <= j < k - 1 implies is_space(#[trigger] rest[j]) by {
            assert(rest[j] == s[j + 1]);
        }
        lemma_trimmed_start_is(rest, k - 1);
        assert(rest.skip(k - 1) == s.skip(k));
    }
}

/// A stretch of `s` that neither begins nor ends with white space, and
/// around which `s` holds white space only, is `trimmed(s)`. The empty
/// stretch at the end of `s` is `trimmed(s)` where `s` is all white space.
pub proof fn lemma_trimmed_is(s: Seq<char>, a: int, b: int)
    requires
        0 <= a <= b <= s.len(),
        forall|j: int| 0 <= j < a ==> is_space(#[trigger] s[j]),
        forall|j: int| b <= j < s.len() ==> is_space(#[trigger] s[j]),
        a < b ==> !is_space(s[a]) && !is_space(s[b - 1]),
        a == b ==> a == s.len(),
    ensures
        trimmed(s) == s.subrange(a, b),
{
    lemma_trimmed_start_is(s, a);
    let rest = s.skip(a);
    assert forall|j: int| b - a <= j < rest.len() implies is_space(#[trigger] rest[j]) by {
        assert(rest[j] == s[j + a]);
    }
    lemma_trimmed_end_is(rest, b - a);
    assert(rest.take(b - a) == s.subrange(a, b));
}

/// White space at the end of a text does not change what is left of it
/// once both ends are trimmed.
pub proof fn lemma_trimmed_of_trimmed_end(s: Seq<char>)
    ensures
        trimmed(trimmed_end(s)) == trimmed(s),
{
    lemma_trimmed_end(s);
    lemma_trimmed_start(s);
    let n = trimmed_end(s).len() as int;
    let k = s.len() - trimmed_start(s).len();
    let front = s.take(n);
    if k == s.len() {
        assert(n == 0) by {
            if n > 0 {
                assert(is_space(s[n - 1]));
                assert(front.last() == s[n - 1]);
            }
        }
        assert(trimmed_start(front) == front);
    } else {
        assert(trimmed_start(s).first() == s[k]);
        assert(k < n) by {
            if n <= k {
                assert(is_space(s[k]));
            }
        }
        assert(front.last() == s[n - 1]);
        let rest = s.skip(k);
        assert forall|j: int| n - k <= j < rest.len() implies is_space(#[trigger] rest[j]) by {
            assert(rest[j] == s[j + k]);
        }
        assert(rest[n - k - 1] == s[n - 1]);
        lemma_trimmed_end_is(rest, n - k);
        assert(rest.take(n - k) == s.subrange(k, n));
        assert forall|j: int| 0 <= j < k implies is_space(#[trigger] front[j]) by {
            assert(front[j] == s[j]);
        }
        lemma_trimmed_is(front, k, n);
        assert(front.subrange(k, n) == s.subrange(k, n));
    }
}

/// Trimming the end of a text stops short of a start of it that does not
/// end in white space.
pub proof fn lemma_trimmed_end_behind(start: Seq<char>, s: Seq<char>)
    requires
        start.len() > 0,
        !is_space(start.last()),
    ensures
        trimmed_end(start + s) == start + trimmed_end(s),
{
    lemma_trimmed_end(s);
    let n = trimmed_end(s).len() as int;
    let whole = start + s;
    let m = start.len() + n;
    assert(whole[m - 1] == if n > 0 {
        trimmed_end(s).last()
    } else {
        start.last()
    }) by {
        if n > 0 {
            assert(trimmed_end(s).last() == s[n - 1]);
        }
    }
    assert forall|j: int| m <= j < whole.len() implies is_space(#[trigger] whole[j]) by {
        assert(whole[j] == s[j - start.len()]);
    }
    lemma_trimmed_end_is(whole, m);
    assert(whole.take(m) == start + s.take(n));
}

/// Tells whether a character is white space.
pub fn is_whitespace(c: char) -> (r: bool)
    ensures
        r == is_space(c),
{
    ('\u{9}' <= c && c <= '\u{D}') || c == ' ' || c == '\u{85}' || c == '\u{A0}' || c
        == '\u{1680}' || ('\u{2000}' <= c && c <= '\u{200A}') || c == '\u{2028}' || c
        == '\u{2029}' || c == '\u{202F}' || c == '\u{205F}' || c == '\u{3000}'
}

/// Tells whether two string slices hold the same characters.
pub fn same_text(a: &str, b: &str) -> (r: bool)
    ensures
        r == (a@ == b@),
{
    let x = a.as_bytes();
    let y = b.as_bytes();
    proof {
        vstd::utf8::encode_utf8_decode_utf8(a@);
        vstd::utf8::encode_utf8_decode_utf8(b@);
    }
    if x.len() != y.len() {
        return false;
    }
    let mut i: usize = 0;
    while i < x.len()
        invariant
            i <= x.len() == y.len(),
            x@ == vstd::utf8::encode_utf8(a@),
            y@ == vstd::utf8::encode_utf8(b@),
            x@.take(i as int) == y@.take(i as int),
        decreases x.len() - i,
    {
        if x[i] != y[i] {
            assert(x@[i as int] != y@[i as int]);
            return false;
        }
        assert(x@.take(i + 1) == x@.take(i as int).push(x@[i as int]));
        assert(y@.take(i + 1) == y@.take(i as int).push(y@[i as int]));
        i += 1;
    }
    assert(x@ == x@.take(i as int));
    assert(y@ == y@.take(i as int));
    true
}

/// A string slice together with its characters, so that a position in it is
/// reached in constant time.
pub struct Text<'a> {
    text: &'a str,
    chars: Vec<char>,
}

impl<'a> View for Text<'a> {
    type V = Seq<char>;

    closed spec fn view(&self) -> Seq<char> {
        self.text@
    }
}

impl<'a> Text<'a> {
    #[verifier::type_invariant]
    spec fn decoded(self) -> bool {
        self.chars@ == self.text@
    }

    /// Decodes `text`.
    pub fn new(text: &'a str) -> (line: Self)
        ensures
            line@ == text@,
    {
        let mut chars: Vec<char> = Vec::new();
        for c in it: text.chars()
            invariant
                chars@ == it.seq().take(it.index() as int),
                it.seq() == text@,
        {
            chars.push(c);
        }
        assert(chars@ =~= text@);
        Text { text, chars }
    }

    /// The number of characters.
    pub fn len(&self) -> (n: usize)
        ensures
            n == self@.len(),
    {
        proof {
            use_type_invariant(self);
        }
        self.chars.len()
    }

    /// The character at position `i`.
    pub fn char_at(&self, i: usize) -> (c: char)
        requires
            i < self@.len(),
        ensures
            c == self@[i as int],
    {
        proof {
            use_type_invariant(self);
        }
        self.chars[i]
    }

    /// The characters from position `from` up to, not including, `to`.
    pub fn slice(&self, from: usize, to: usize) -> (part: &'a str)
        requires
            from <= to <= self@.len(),
        ensures
            part@ == self@.subrange(from as int, to as int),
    {
        self.text.substring_char(from, to)
    }

    /// The first position at or after `from` and before `to` that holds white
    /// space, or `to` where there is none.
    pub fn find_space(&self, from: usize, to: usize) -> (i: usize)
        requires
            from <= to <= self@.len(),
        ensures
            from <= i <= to,
            i - from == first_space(self@.subrange(from as int, to as int)),
    {
        let ghost part = self@.subrange(from as int, to as int);
        let mut i: usize = from;
        while i < to && !is_whitespace(self.char_at(i))
            invariant
                from <= i <= to <= self@.len(),
                part == self@.subrange(from as int, to as int),
                forall|j: int| 0 <= j < i - from ==> !is_space(#[trigger] part[j]),
            decreases to - i,
        {
            i += 1;
        }
        proof {
            lemma_first_space_is(part, i - from);
        }
        i
    }

    /// The first position at or after `from` and before `to` that holds `c`,
    /// or `to` where there is none.
    pub fn find(&self, c: char, from: usize, to: usize) -> (i: usize)
        requires
            from <= to <= self@.len(),
        ensures
            from <= i <= to,
            i - from == first_of(self@.subrange(from as int, to as int), c),
    {
        let ghost part = self@.subrange(from as int, to as int);
        let mut i: usize = from;
        while i < to && self.char_at(i) != c
            invariant
                from <= i <= to <= self@.len(),
                part == self@.subrange(from as int, to as int),
                forall|j: int| 0 <= j < i - from ==> #[trigger] part[j] != c,
            decreases to - i,
        {
            i += 1;
        }
        proof {
            lemma_first_of_is(part, c, i - from);
        }
        i
    }

    /// Where the stretch from `from` to `to` ends once the white space at its
    /// end is left off.
    pub fn trim_end(&self, from: usize, to: usize) -> (end: usize)
        requires
            from <= to <= self@.len(),
        ensures
            from <= end <= to,
            self@.subrange(from as int, end as int) == trimmed_end(
                self@.subrange(from as int, to as int),
            ),
    {
        let ghost part = self@.subrange(from as int, to as int);
        let mut end: usize = to;
        while end > from && is_whitespace(self.char_at(end - 1))
            invariant
                from <= end <= to <= self@.len(),
                part == self@.subrange(from as int, to as int),
                forall|j: int| end - from <= j < part.len() ==> is_space(#[trigger] part[j]),
            decreases end,
        {
            end -= 1;
        }
        proof {
            lemma_trimmed_end_is(part, end - from);
            assert(part.take(end - from) == self@.subrange(from as int, end as int));
        }
        end
    }

    /// Where the stretch from `from` to `to` starts once the white space at
    /// its start is left off.
    pub fn trim_start(&self, from: usize, to: usize) -> (start: usize)
        requires
            from <= to <= self@.len(),
        ensures
            from <= start <= to,
            self@.subrange(start as int, to as int) == trimmed_start(
                self@.subrange(from as int, to as int),
            ),
    {
        let ghost part = self@.subrange(from as int, to as int);
        let mut start: usize = from;
        while start < to && is_whitespace(self.char_at(start))
            invariant
                from <= start <= to <= self@.len(),
                part == self@.subrange(from as int, to as int),
                forall|j: int| 0 <= j < start - from ==> is_space(#[trigger] part[j]),
            decreases to - start,
        {
            start += 1;
        }
        proof {
            lemma_trimmed_start_is(part, start - from);
            assert(part.skip(start - from) == self@.subrange(start as int, to as int));
        }
        start
    }

    /// The stretch from `from` to `to` without the white space at either end.
    pub fn trim(&self, from: usize, to: usize) -> (bounds: (usize, usize))
        requires
            from <= to <= self@.len(),
        ensures
            from <= bounds.0 <= bounds.1 <= to,
            self@.subrange(bounds.0 as int, to as int) == trimmed_start(
                self@.subrange(from as int, to as int),
            ),
            self@.subrange(bounds.0 as int, bounds.1 as int) == trimmed(
                self@.subrange(from as int, to as int),
            ),
    {
        let start = self.trim_start(from, to);
        let end = self.trim_end(start, to);
        (start, end)
    }

    /// The pieces into which the stretch from `from` to `to` falls when it is
    /// cut at every white space character.
    pub fn split(&self, from: usize, to: usize) -> (pieces: Vec<&'a str>)
        requires
            from <= to <= self@.len(),
        ensures
            texts(pieces@) == fields(self@.subrange(from as int, to as int)),
    {
        let ghost whole = self@.subrange(from as int, to as int);
        let mut pieces: Vec<&'a str> = Vec::new();
        let mut start: usize = from;
        let mut stop: usize = self.find_space(start, to);
        assert(texts(pieces@) + fields(whole) == fields(whole));
        while stop < to
            invariant
                from <= start <= stop <= to <= self@.len(),
                whole == self@.subrange(from as int, to as int),
                stop - start == first_space(self@.subrange(start as int, to as int)),
                texts(pieces@) + fields(self@.subrange(start as int, to as int)) == fields(whole),
            decreases to - start,
        {
            let ghost before = pieces@;
            let ghost rest = self@.subrange(start as int, to as int);
            pieces.push(self.slice(start, stop));
            proof {
                assert(rest.take(stop - start) == self@.subrange(start as int, stop as int));
                assert(rest.skip(stop - start + 1) == self@.subrange(stop + 1, to as int));
                assert(texts(pieces@) == texts(before) + seq![rest.take(stop - start)]);
            }
            start = stop + 1;
            stop = self.find_space(start, to);
        }
        let ghost before = pieces@;
        pieces.push(self.slice(start, stop));
        proof {
            assert(texts(pieces@) == texts(before) + seq![self@.subrange(start as int, to as int)]);
        }
        pieces
    }
}

} // verus!
