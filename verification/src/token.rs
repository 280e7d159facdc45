//! Tokens, and what holds of a sequence of them.

use vstd::prelude::*;
use crate::chars::{copy_chars, string_from_chars};
use crate::span::Span;
use crate::token_kind::TokenKind;

verus! {

/// A piece of a source text, with what it was recognized as.
#[derive(Clone, Copy, Debug, PartialEq, Eq, Structural)]
pub struct Token {
    pub span: Span,
    pub kind: TokenKind,
}

/// A token that owns its characters.
#[derive(Clone, Debug, PartialEq, Eq)]
pub struct FatToken {
    pub content: Vec<char>,
    pub kind: TokenKind,
}

/// A token that owns its characters as a string.
#[derive(Clone, Debug, PartialEq, Eq)]
pub struct FatStringToken {
    pub content: String,
    pub kind: TokenKind,
}

impl FatToken {
    /// Whether this is `token` with the characters that it covers in `source`.
    pub open spec fn holds(self, token: Token, source: Seq<char>) -> bool {
        self.content@ == token.span.content(source) && self.kind == token.kind
    }

    /// The token with its characters gathered into a string.
    pub fn into_string_token(self) -> (token: FatStringToken)
        ensures
            token.content@ == self.content@,
            token.kind == self.kind,
    {
        FatStringToken { content: string_from_chars(self.content.as_slice()), kind: self.kind }
    }
}

impl FatStringToken {
    /// Whether this is `token` with the characters that it covers in `source`.
    pub open spec fn holds(self, token: Token, source: Seq<char>) -> bool {
        self.content@ == token.span.content(source) && self.kind == token.kind
    }
}

impl Token {
    /// The token with its own copy of the characters that it covers.
    pub fn to_fat(&self, source: &[char]) -> (fat: FatToken)
        requires
            self.span.fits(source@.len()),
        ensures
            fat.holds(*self, source@),
    {
        FatToken { content: copy_chars(self.span.get_content(source)), kind: self.kind }
    }
}

/// Whether `found` is a reference to the expected token, or nothing where none is expected.
pub open spec fn refers_to(found: Option<&Token>, expected: Option<Token>) -> bool {
    match expected {
        Some(token) => found is Some && *found->0 == token,
        None => found is None,
    }
}

/// Whether every span lies within a source of `len` characters and no token starts before the
/// one in front of it has ended.
pub open spec fn well_formed(tokens: Seq<Token>, len: nat) -> bool {
    &&& forall|i: int| 0 <= i < tokens.len() ==> (#[trigger] tokens[i]).span.fits(len)
    &&& forall|i: int, j: int|
        0 <= i < j < tokens.len() ==> (#[trigger] tokens[i]).span.end <= (
        #[trigger] tokens[j]).span.start
}

/// Whether the tokens cover the characters from `from` to `to`, each of them once and in order.
pub open spec fn tiles(tokens: Seq<Token>, from: int, to: int) -> bool {
    &&& forall|i: int|
        0 <= i < tokens.len() ==> (#[trigger] tokens[i]).span.start <= tokens[i].span.end
    &&& tokens.len() == 0 ==> from == to
    &&& tokens.len() > 0 ==> tokens[0].span.start == from && tokens.last().span.end == to
    &&& forall|i: int, j: int|
        0 <= i && j == i + 1 && j < tokens.len() ==> (#[trigger] tokens[i]).span.end == (
        #[trigger] tokens[j]).span.start
}

/// The characters of the tokens, one token after the other.
pub open spec fn spelled(tokens: Seq<Token>, source: Seq<char>) -> Seq<char>
    decreases tokens.len(),
{
    if tokens.len() == 0 {
        Seq::empty()
    } else {
        tokens[0].span.content(source) + spelled(tokens.drop_first(), source)
    }
}

/// How many blanks and line ends the tokens stand for.
pub open spec fn blanks(tokens: Seq<Token>) -> nat
    decreases tokens.len(),
{
    if tokens.len() == 0 {
        0
    } else {
        tokens[0].kind.blanks() + blanks(tokens.drop_first())
    }
}

/// A single token stands for its own blanks.
pub proof fn lemma_blanks_one(token: Token)
    ensures
        blanks(seq![token]) == token.kind.blanks(),
{
    assert(seq![token].drop_first() == Seq::<Token>::empty());
    assert(blanks(Seq::<Token>::empty()) == 0);
}

/// What the tokens of two sequences stand for adds up.
pub proof fn lemma_blanks_concat(a: Seq<Token>, b: Seq<Token>)
    ensures
        blanks(a + b) == blanks(a) + blanks(b),
    decreases a.len(),
{
    if a.len() == 0 {
        assert(a + b == b);
    } else {
        assert((a + b).drop_first() == a.drop_first() + b);
        lemma_blanks_concat(a.drop_first(), b);
    }
}

/// Tokens that stand for no more blanks one by one stand for no more blanks together.
pub proof fn lemma_blanks_pointwise(a: Seq<Token>, b: Seq<Token>)
    requires
        a.len() == b.len(),
        forall|i: int| 0 <= i < a.len() ==> (#[trigger] b[i]).kind.blanks() <= a[i].kind.blanks(),
    ensures
        blanks(b) <= blanks(a),
    decreases a.len(),
{
    if a.len() > 0 {
        assert(b[0].kind.blanks() <= a[0].kind.blanks());
        let rest_a = a.drop_first();
        let rest_b = b.drop_first();
        assert forall|i: int| 0 <= i < rest_a.len() implies (#[trigger] rest_b[i]).kind.blanks()
            <= rest_a[i].kind.blanks() by {
            assert(b[i + 1].kind.blanks() <= a[i + 1].kind.blanks());
        }
        lemma_blanks_pointwise(rest_a, rest_b);
    }
}

/// A stretch of a sequence stands for no more blanks than the sequence.
pub proof fn lemma_blanks_stretch(tokens: Seq<Token>, from: int, to: int)
    requires
        0 <= from <= to <= tokens.len(),
    ensures
        blanks(tokens.subrange(from, to)) <= blanks(tokens),
{
    let front = tokens.subrange(0, from);
    let middle = tokens.subrange(from, to);
    let back = tokens.subrange(to, tokens.len() as int);
    assert(tokens == front + middle + back);
    lemma_blanks_concat(front, middle);
    lemma_blanks_concat(front + middle, back);
}

/// Without their first token, tokens that cover a stretch of a text cover what is left of it.
pub proof fn lemma_rest_tiles(tokens: Seq<Token>, from: int, to: int)
    requires
        tokens.len() > 0,
        tiles(tokens, from, to),
    ensures
        tiles(tokens.drop_first(), tokens[0].span.end as int, to),
{
    let rest = tokens.drop_first();
    assert forall|i: int, j: int| 0 <= i && j == i + 1 && j < rest.len() implies (
    #[trigger] rest[i]).span.end == (#[trigger] rest[j]).span.start by {
        assert(tokens[i + 1].span.end == tokens[j + 1].span.start);
    }
    if rest.len() > 0 {
        assert(tokens[0].span.end == tokens[1].span.start);
    }
}

/// Tokens that cover a text from its start to its end spell that text.
pub proof fn lemma_tiles_spell(tokens: Seq<Token>, source: Seq<char>, from: int)
    requires
        0 <= from,
        tiles(tokens, from, source.len() as int),
    ensures
        from <= source.len(),
        spelled(tokens, source) == source.subrange(from, source.len() as int),
    decreases tokens.len(),
{
    if tokens.len() == 0 {
        assert(source.subrange(from, source.len() as int) == Seq::<char>::empty());
    } else {
        let rest = tokens.drop_first();
        let next: int = tokens[0].span.end as int;
        lemma_rest_tiles(tokens, from, source.len() as int);
        lemma_tiles_spell(rest, source, next);
        assert(source.subrange(from, source.len() as int) == source.subrange(from, next)
            + source.subrange(next, source.len() as int));
    }
}

/// Tokens that cover a stretch of a text lie in order within it.
pub proof fn lemma_tiles_well_formed(tokens: Seq<Token>, from: int, to: int)
    requires
        0 <= from,
        tiles(tokens, from, to),
    ensures
        from <= to,
        well_formed(tokens, to as nat),
        forall|i: int| 0 <= i < tokens.len() ==> from <= (#[trigger] tokens[i]).span.start,
    decreases tokens.len(),
{
    if tokens.len() > 0 {
        let rest = tokens.drop_first();
        let next: int = tokens[0].span.end as int;
        lemma_rest_tiles(tokens, from, to);
        lemma_tiles_well_formed(rest, next, to);
        assert forall|i: int| 0 <= i < tokens.len() implies (
        #[trigger] tokens[i]).span.fits(to as nat) && from <= tokens[i].span.start by {
            if i > 0 {
                assert(tokens[i] == rest[i - 1]);
            }
        }
        assert forall|i: int, j: int| 0 <= i < j < tokens.len() implies (
        #[trigger] tokens[i]).span.end <= (#[trigger] tokens[j]).span.start by {
            assert(tokens[j] == rest[j - 1]);
            if i > 0 {
                assert(tokens[i] == rest[i - 1]);
            }
        }
    }
}

} // verus!
