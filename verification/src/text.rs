//! Text of declaration files as sequences of characters: white space, lines,
//! and the scanning primitives that the parsers are built from.
//!
//! The `spec` functions say what a line or a trimmed piece of text is;
//! the executable functions work on a `Vec<char>` by index and are proved to
//! compute exactly those.

use vstd::prelude::*;

verus! {

/// Whether `c` is white space: the characters that Unicode gives the
/// property `White_Space`.
pub open spec fn is_whitespace(c: char) -> bool {
    ||| '\u{9}' <= c <= '\u{D}'
    ||| c == ' '
    ||| c == '\u{85}'
    ||| c == '\u{A0}'
    ||| c == '\u{1680}'
    ||| '\u{2000}' <= c <= '\u{200A}'
    ||| c == '\u{2028}'
    ||| c == '\u{2029}'
    ||| c == '\u{202F}'
    ||| c == '\u{205F}'
    ||| c == '\u{3000}'
}

/// Length of the longest prefix of `s` in which `c` does not occur: the index
/// of the first `c`, or `s.len()` where there is none.
pub open spec fn index_of(s: Seq<char>, c: char) -> int
    decreases s.len(),
{
    if s.len() == 0 || s[0] == c {
        0
    } else {
        1 + index_of(s.drop_first(), c)
    }
}

/// `s` without the carriage return that it ends in, if it ends in one.
pub open spec fn strip_cr(s: Seq<char>) -> Seq<char> {
    if s.len() > 0 && s.last() == '\r' {
        s.drop_last()
    } else {
        s
    }
}

/// The lines of `s`. A line ends at a line feed, or at a carriage return
/// directly followed by a line feed; neither belongs to the line. Text after
/// the last line feed is a line of its own unless it is empty.
pub open spec fn lines_of(s: Seq<char>) -> Seq<Seq<char>>
    decreases s.len(),
{
    if s.len() == 0 {
        Seq::empty()
    } else {
        let n = index_of(s, '\n');
        if 0 <= n < s.len() {
            seq![strip_cr(s.take(n))] + lines_of(s.skip(n + 1))
        } else {
            seq![s]
        }
    }
}

/// `s` without the white space that it starts with.
pub open spec fn trim_start(s: Seq<char>) -> Seq<char>
    decreases s.len(),
{
    if s.len() > 0 && is_whitespace(s[0]) {
        trim_start(s.drop_first())
    } else {
        s
    }
}

/// `s` without the white space that it ends in.
pub open spec fn trim_end(s: Seq<char>) -> Seq<char>
    decreases s.len(),
{
    if s.len() > 0 && is_whitespace(s.last()) {
        trim_end(s.drop_last())
    } else {
        s
    }
}

/// `s` without the white space at either end.
pub open spec fn trim(s: Seq<char>) -> Seq<char> {
    trim_end(trim_start(s))
}

/// The first word of `s`: its characters up to the first white space. Empty
/// where `s` is empty or starts with white space.
pub open spec fn first_word(s: Seq<char>) -> Seq<char>
    decreases s.len(),
{
    if s.len() == 0 || is_whitespace(s[0]) {
        Seq::empty()
    } else {
        seq![s[0]] + first_word(s.drop_first())
    }
}

/// `index_of(s, c)` is the one position `n` before which `c` does not occur
/// and at which the sequence ends or holds `c`.
pub proof fn lemma_index_of(s: Seq<char>, c: char, n: int)
    requires
        0 <= n <= s.len(),
        forall|i: int| 0 <= i < n ==> s[i] != c,
        n == s.len() || s[n] == c,
    ensures
        index_of(s, c) == n,
    decreases s.len(),
{
    if n > 0 {
        let rest = s.drop_first();
        assert forall|i: int| 0 <= i < n - 1 implies rest[i] != c by {
            assert(rest[i] == s[i + 1]);
        }
        lemma_index_of(rest, c, n - 1);
    }
}

/// `index_of(s, c)` lies within `s`, nothing before it is `c`, and it is the
/// end of `s` or a position that holds `c`.
pub proof fn lemma_index_of_bounds(s: Seq<char>, c: char)
    ensures
        0 <= index_of(s, c) <= s.len(),
        forall|i: int| 0 <= i < index_of(s, c) ==> s[i] != c,
        index_of(s, c) == s.len() || s[index_of(s, c)] == c,
    decreases s.len(),
{
    if s.len() == 0 || s[0] == c {
    } else {
        let rest = s.drop_first();
        lemma_index_of_bounds(rest, c);
        assert forall|i: int| 0 <= i < index_of(s, c) implies s[i] != c by {
            if i > 0 {
                assert(rest[i - 1] == s[i]);
            }
        }
    }
}

/// Trimming the start removes exactly the leading run of white space.
pub proof fn lemma_trim_start(s: Seq<char>, n: int)
    requires
        0 <= n <= s.len(),
        forall|i: int| 0 <= i < n ==> is_whitespace(s[i]),
        n == s.len() || !is_whitespace(s[n]),
    ensures
        trim_start(s) == s.skip(n),
    decreases s.len(),
{
    if n > 0 {
        let rest = s.drop_first();
        assert forall|i: int| 0 <= i < n - 1 implies is_whitespace(rest[i]) by {
            assert(rest[i] == s[i + 1]);
        }
        lemma_trim_start(rest, n - 1);
        assert(rest.skip(n - 1) =~= s.skip(n));
    } else {
        assert(s.skip(0) =~= s);
    }
}

/// Trimming the end removes exactly the trailing run of white space.
pub proof fn lemma_trim_end(s: Seq<char>, n: int)
    requires
        0 <= n <= s.len(),
        forall|i: int| n <= i < s.len() ==> is_whitespace(s[i]),
        n == 0 || !is_whitespace(s[n - 1]),
    ensures
        trim_end(s) == s.take(n),
    decreases s.len(),
{
    if n < s.len() {
        let rest = s.drop_last();
        lemma_trim_end(rest, n);
        assert(rest.take(n) =~= s.take(n));
    } else {
        assert(s.take(n) =~= s);
    }
}

/// Trimming the end of a text leaves a prefix of the text.
pub proof fn lemma_trim_end_prefix(s: Seq<char>)
    ensures
        trim_end(s).len() <= s.len(),
        trim_end(s) == s.take(trim_end(s).len() as int),
    decreases s.len(),
{
    if s.len() > 0 && is_whitespace(s.last()) {
        lemma_trim_end_prefix(s.drop_last());
        let t = trim_end(s.drop_last());
        assert(s.drop_last().take(t.len() as int) =~= s.take(t.len() as int));
    } else {
        assert(s.take(s.len() as int) =~= s);
    }
}

/// The first word ends at the first white space, or with the text.
pub proof fn lemma_first_word(s: Seq<char>, n: int)
    requires
        0 <= n <= s.len(),
        forall|i: int| 0 <= i < n ==> !is_whitespace(s[i]),
        n == s.len() || is_whitespace(s[n]),
    ensures
        first_word(s) == s.take(n),
    decreases s.len(),
{
    if n > 0 {
        let rest = s.drop_first();
        assert forall|i: int| 0 <= i < n - 1 implies !is_whitespace(rest[i]) by {
            assert(rest[i] == s[i + 1]);
        }
        lemma_first_word(rest, n - 1);
        assert(seq![s[0]] + rest.take(n - 1) =~= s.take(n));
    } else {
        assert(s.take(0) =~= Seq::<char>::empty());
    }
}

/// A piece of a text: the characters from index `from` up to, not including,
/// index `to`.
#[derive(Clone, Copy, Debug)]
pub struct Span {
    /// The index of the first character of the piece.
    pub from: usize,
    /// The index after the last character of the piece.
    pub to: usize,
}

impl Span {
    /// Whether the span lies within a text of `len` characters.
    pub open spec fn within(self, len: nat) -> bool {
        self.from <= self.to <= len
    }

    /// The characters of `text` that the span covers.
    pub open spec fn of(self, text: Seq<char>) -> Seq<char> {
        text.subrange(self.from as int, self.to as int)
    }
}

/// The pieces of `text` that the spans of `spans` cover, in order.
pub open spec fn pieces(spans: Seq<Span>, text: Seq<char>) -> Seq<Seq<char>> {
    spans.map_values(|span: Span| span.of(text))
}

/// Whether every span of `spans` lies within a text of `len` characters.
pub open spec fn all_within(spans: Seq<Span>, len: nat) -> bool {
    forall|i: int| 0 <= i < spans.len() ==> (#[trigger] spans[i]).within(len)
}

/// Whether `c` is white space.
pub fn char_is_whitespace(c: char) -> (r: bool)
    ensures
        r == is_whitespace(c),
{
    ('\u{9}' <= c && c <= '\u{D}') || c == ' ' || c == '\u{85}' || c == '\u{A0}' || c
        == '\u{1680}' || ('\u{2000}' <= c && c <= '\u{200A}') || c == '\u{2028}' || c
        == '\u{2029}' || c == '\u{202F}' || c == '\u{205F}' || c == '\u{3000}'
}

/// The characters of `s`, in order.
pub fn chars_of(s: &str) -> (v: Vec<char>)
    ensures
        v@ == s@,
{
    let mut v: Vec<char> = Vec::new();
    for c in it: s.chars()
        invariant
            v@ == it.seq().take(it.index() as int),
    {
        v.push(c);
    }
    v
}

/// The position of the first `c` in `span`, or the span's end where it holds
/// none.
pub fn find_char(text: &Vec<char>, span: Span, c: char) -> (at: usize)
    requires
        span.within(text@.len()),
    ensures
        span.from <= at <= span.to,
        at == span.from + index_of(span.of(text@), c),
{
    let mut at: usize = span.from;
    while at < span.to && text[at] != c
        invariant
            span.within(text@.len()),
            span.from <= at <= span.to,
            forall|i: int| span.from <= i < at ==> text@[i] != c,
        decreases span.to - at,
    {
        at += 1;
    }
    proof {
        lemma_index_of(span.of(text@), c, at - span.from);
    }
    at
}

/// The piece of `span` that is left when the white space at both of its ends
/// is taken away.
pub fn trim_span(text: &Vec<char>, span: Span) -> (inner: Span)
    requires
        span.within(text@.len()),
    ensures
        inner.within(text@.len()),
        span.from <= inner.from,
        inner.to <= span.to,
        inner.of(text@) == trim(span.of(text@)),
{
    let mut from: usize = span.from;
    while from < span.to && char_is_whitespace(text[from])
        invariant
            span.within(text@.len()),
            span.from <= from <= span.to,
            forall|i: int| span.from <= i < from ==> is_whitespace(text@[i]),
        decreases span.to - from,
    {
        from += 1;
    }
    let mut to: usize = span.to;
    while from < to && char_is_whitespace(text[to - 1])
        invariant
            span.within(text@.len()),
            span.from <= from <= to <= span.to,
            forall|i: int| to <= i < span.to ==> is_whitespace(text@[i]),
        decreases to - from,
    {
        to -= 1;
    }
    let inner = Span { from, to };
    proof {
        let whole = span.of(text@);
        let tail = Span { from, to: span.to }.of(text@);
        lemma_trim_start(whole, from - span.from);
        assert(whole.skip(from - span.from) =~= tail);
        lemma_trim_end(tail, to - from);
        assert(tail.take(to - from) =~= inner.of(text@));
    }
    inner
}

/// The first word of `span`: the piece up to its first white space.
pub fn first_word_span(text: &Vec<char>, span: Span) -> (word: Span)
    requires
        span.within(text@.len()),
    ensures
        word.within(text@.len()),
        word.from == span.from,
        word.to <= span.to,
        word.of(text@) == first_word(span.of(text@)),
{
    let mut to: usize = span.from;
    while to < span.to && !char_is_whitespace(text[to])
        invariant
            span.within(text@.len()),
            span.from <= to <= span.to,
            forall|i: int| span.from <= i < to ==> !is_whitespace(text@[i]),
        decreases span.to - to,
    {
        to += 1;
    }
    let word = Span { from: span.from, to };
    proof {
        lemma_first_word(span.of(text@), to - span.from);
        assert(span.of(text@).take(to - span.from) =~= word.of(text@));
    }
    word
}

/// `String::push` of the standard library: the string afterwards is the
/// string before with `ch` appended as its last character.
pub assume_specification[ String::push ](s: &mut String, ch: char)
    ensures
        final(s)@ == old(s)@.push(ch),
;

/// `Hash::hash` of the standard library for `String`: it feeds the string to
/// the hasher `state`. Nothing is claimed of the hasher afterwards.
pub assume_specification<H: core::hash::Hasher>[ <String as core::hash::Hash>::hash ](
    s: &String,
    state: &mut H,
)
;

/// The characters of `span` as a string of their own.
pub fn string_of(text: &Vec<char>, span: Span) -> (s: String)
    requires
        span.within(text@.len()),
    ensures
        s@ == span.of(text@),
{
    let mut s = String::new();
    let mut at: usize = span.from;
    while at < span.to
        invariant
            span.within(text@.len()),
            span.from <= at <= span.to,
            s@ == text@.subrange(span.from as int, at as int),
        decreases span.to - at,
    {
        s.push(text[at]);
        proof {
            assert(text@.subrange(span.from as int, at + 1) =~= text@.subrange(
                span.from as int,
                at as int,
            ).push(text@[at as int]));
        }
        at += 1;
    }
    s
}

/// The lines of `text`, each as the span that it covers.
pub fn split_lines(text: &Vec<char>) -> (spans: Vec<Span>)
    ensures
        all_within(spans@, text@.len()),
        pieces(spans@, text@) == lines_of(text@),
{
    let len = text.len();
    let mut spans: Vec<Span> = Vec::new();
    let mut pos: usize = 0;
    let ghost mut done: Seq<Seq<char>> = Seq::empty();
    proof {
        assert(pieces(spans@, text@) =~= done);
        assert(text@.skip(0) =~= text@);
        assert(done + lines_of(text@) =~= lines_of(text@));
    }
    while pos < len
        invariant
            len == text@.len(),
            pos <= len,
            all_within(spans@, text@.len()),
            pieces(spans@, text@) == done,
            lines_of(text@) == done + lines_of(text@.skip(pos as int)),
        decreases len - pos,
    {
        let ghost rest = text@.skip(pos as int);
        let end = find_char(text, Span { from: pos, to: len }, '\n');
        proof {
            assert(Span { from: pos, to: len }.of(text@) =~= rest);
        }
        let mut line = Span { from: pos, to: end };
        let ghost raw = line.of(text@);
        proof {
            assert(raw =~= rest.take(end - pos));
        }
        if end < len {
            if pos < end && text[end - 1] == '\r' {
                line = Span { from: pos, to: end - 1 };
                proof {
                    assert(line.of(text@) =~= raw.drop_last());
                }
            }
            proof {
                assert(line.of(text@) == strip_cr(raw));
                assert(rest.skip(end - pos + 1) =~= text@.skip(end + 1));
                assert(done + (seq![strip_cr(raw)] + lines_of(text@.skip(end + 1))) =~= done.push(
                    strip_cr(raw),
                ) + lines_of(text@.skip(end + 1)));
                done = done.push(strip_cr(raw));
                assert(pieces(spans@.push(line), text@) =~= done);
            }
            spans.push(line);
            pos = end + 1;
        } else {
            proof {
                assert(raw =~= rest);
                assert(text@.skip(len as int) =~= Seq::<char>::empty());
                assert(done + seq![rest] =~= done.push(rest) + Seq::<Seq<char>>::empty());
                done = done.push(rest);
                assert(pieces(spans@.push(line), text@) =~= done);
            }
            spans.push(line);
            pos = len;
        }
    }
    proof {
        assert(text@.skip(pos as int) =~= Seq::<char>::empty());
        assert(done + Seq::<Seq<char>>::empty() =~= done);
    }
    spans
}

} // verus!
