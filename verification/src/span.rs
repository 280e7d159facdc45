//! Half-open ranges of indices into a source text.

use vstd::prelude::*;
use crate::chars::string_from_chars;

verus! {

/// The characters of a source from `start` up to, but not reaching, `end`.
#[derive(Clone, Copy, Debug, PartialEq, Eq, Structural)]
pub struct Span {
    pub start: usize,
    pub end: usize,
}

impl Span {
    /// Whether the span is ordered and lies within a source of `len` characters.
    pub open spec fn fits(self, len: nat) -> bool {
        self.start <= self.end <= len
    }

    /// The characters that the span covers.
    pub open spec fn content(self, source: Seq<char>) -> Seq<char> {
        source.subrange(self.start as int, self.end as int)
    }

    /// Create a span from its two ends.
    pub fn new(start: usize, end: usize) -> (span: Span)
        requires
            start <= end,
        ensures
            span == (Span { start, end }),
    {
        Span { start, end }
    }

    /// Create a span from its start and its length.
    pub fn new_with_len(start: usize, len: usize) -> (span: Span)
        requires
            start + len <= usize::MAX,
        ensures
            span.start == start,
            span.end == start + len,
    {
        Span { start, end: start + len }
    }

    /// How many characters the span covers.
    pub fn len(&self) -> (len: usize)
        requires
            self.start <= self.end,
        ensures
            len == self.end - self.start,
    {
        self.end - self.start
    }

    /// Whether the two spans share a position. A span that covers nothing shares the position
    /// it stands at with a span that reaches past it on both sides.
    #[verifier::allow_in_spec]
    pub fn overlaps_with(&self, other: Span) -> bool
        returns
            self.start < other.end && other.start < self.end,
    {
        self.start < other.end && other.start < self.end
    }

    /// The characters of `source` that the span covers.
    pub fn get_content<'a>(&self, source: &'a [char]) -> (content: &'a [char])
        requires
            self.fits(source@.len()),
        ensures
            content@ == self.content(source@),
    {
        &source[self.start..self.end]
    }

    /// The characters of `source` that the span covers, as a string.
    pub fn get_content_string(&self, source: &[char]) -> (content: String)
        requires
            self.fits(source@.len()),
        ensures
            content@ == self.content(source@),
    {
        string_from_chars(self.get_content(source))
    }
}

} // verus!
