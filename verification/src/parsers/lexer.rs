//! Cutting a text into tokens from its start to its end.

use vstd::prelude::*;
use crate::quotes::{is_twinned, untwinned};
use crate::span::Span;
use crate::token::{
    blanks, lemma_blanks_concat, lemma_blanks_one, lemma_tiles_well_formed, tiles, well_formed,
    Token,
};
use crate::token_kind::TokenKind;

verus! {

/// The next piece of a text.
pub struct Lexeme {
    pub len: nat,
    pub kind: TokenKind,
}

/// Something that recognizes the next piece of a text.
pub trait Lexer: Sized {
    /// The piece of the text that starts at `at`.
    spec fn lexeme(&self, source: Seq<char>, at: int) -> Lexeme;

    /// A piece holds a character, ends within the text, stands for no more blanks than it has
    /// characters, and knows no other quotation mark.
    proof fn lexeme_fits(&self, source: Seq<char>, at: int)
        requires
            0 <= at < source.len() <= usize::MAX,
        ensures
            1 <= self.lexeme(source, at).len <= source.len() - at,
            self.lexeme(source, at).kind.blanks() <= self.lexeme(source, at).len,
            !is_twinned(self.lexeme(source, at).kind),
    ;

    /// Recognizes the piece of the text that starts at `at`.
    fn next_lexeme(&self, source: &[char], at: usize) -> (found: (usize, TokenKind))
        requires
            at < source@.len(),
        ensures
            found.0 == self.lexeme(source@, at as int).len,
            found.1 == self.lexeme(source@, at as int).kind,
    ;
}

/// The pieces of the text from `at` on.
pub open spec fn lexed_from<L: Lexer>(lexer: L, source: Seq<char>, at: int) -> Seq<Token>
    decreases source.len() - at,
{
    let lexeme = lexer.lexeme(source, at);
    if at < 0 || at >= source.len() || lexeme.len < 1 || at + lexeme.len > source.len() {
        Seq::empty()
    } else {
        let end: int = at + lexeme.len;
        seq![Token { span: Span { start: at as usize, end: end as usize }, kind: lexeme.kind }]
            + lexed_from(lexer, source, end)
    }
}

/// The pieces of the text.
pub open spec fn lexed<L: Lexer>(lexer: L, source: Seq<char>) -> Seq<Token> {
    lexed_from(lexer, source, 0)
}

/// The pieces cover the text, are no more than it has characters, and stand for no more blanks.
pub proof fn lemma_lexed_tiles<L: Lexer>(lexer: L, source: Seq<char>, at: int)
    requires
        0 <= at <= source.len() <= usize::MAX,
    ensures
        tiles(lexed_from(lexer, source, at), at, source.len() as int),
        blanks(lexed_from(lexer, source, at)) <= source.len() - at,
        lexed_from(lexer, source, at).len() <= source.len() - at,
    decreases source.len() - at,
{
    let out = lexed_from(lexer, source, at);
    if at < source.len() {
        lexer.lexeme_fits(source, at);
        let lexeme = lexer.lexeme(source, at);
        let end: int = at + lexeme.len;
        let first = Token { span: Span { start: at as usize, end: end as usize }, kind: lexeme.kind };
        let rest = lexed_from(lexer, source, end);
        lemma_lexed_tiles(lexer, source, end);
        assert(out == seq![first] + rest);
        lemma_blanks_one(first);
        lemma_blanks_concat(seq![first], rest);
        assert forall|i: int, j: int|
            0 <= i && j == i + 1 && j < out.len() implies (#[trigger] out[i]).span.end == (
        #[trigger] out[j]).span.start by {
            assert(out[j] == rest[j - 1]);
            if i > 0 {
                assert(out[i] == rest[i - 1]);
            }
        }
        assert forall|i: int| 0 <= i < out.len() implies (#[trigger] out[i]).span.start
            <= out[i].span.end by {
            if i > 0 {
                assert(out[i] == rest[i - 1]);
            }
        }
        if rest.len() > 0 {
            assert(out.last() == rest.last());
        }
    }
}

/// No quotation mark among the pieces knows another one.
pub proof fn lemma_lexed_untwinned<L: Lexer>(lexer: L, source: Seq<char>, at: int)
    requires
        0 <= at <= source.len() <= usize::MAX,
    ensures
        untwinned(lexed_from(lexer, source, at)),
    decreases source.len() - at,
{
    let out = lexed_from(lexer, source, at);
    if at < source.len() {
        lexer.lexeme_fits(source, at);
        let end: int = at + lexer.lexeme(source, at).len;
        let rest = lexed_from(lexer, source, end);
        lemma_lexed_untwinned(lexer, source, end);
        assert forall|i: int| 0 <= i < out.len() implies !is_twinned((#[trigger] out[i]).kind) by {
            if i > 0 {
                assert(out[i] == rest[i - 1]);
            }
        }
    }
}

/// Cuts a text into its pieces.
pub fn lex<L: Lexer>(lexer: &L, source: &[char]) -> (tokens: Vec<Token>)
    ensures
        tokens@ == lexed(*lexer, source@),
        tiles(tokens@, 0, source@.len() as int),
        well_formed(tokens@, source@.len()),
        blanks(tokens@) <= usize::MAX,
{
    let count: usize = source.len();
    let mut tokens: Vec<Token> = Vec::new();
    let mut at: usize = 0;
    while at < count
        invariant
            at <= count,
            count == source@.len(),
            tokens@ + lexed_from(*lexer, source@, at as int) == lexed(*lexer, source@),
        decreases count - at,
    {
        proof {
            lexer.lexeme_fits(source@, at as int);
        }
        let ghost before = tokens@;
        let (len, kind) = lexer.next_lexeme(source, at);
        let token = Token { span: Span { start: at, end: at + len }, kind };
        tokens.push(token);
        assert(tokens@ + lexed_from(*lexer, source@, at + len) == before + lexed_from(
            *lexer,
            source@,
            at as int,
        ));
        at = at + len;
    }
    proof {
        lemma_lexed_tiles(*lexer, source@, 0);
        lemma_tiles_well_formed(tokens@, 0, source@.len() as int);
    }
    tokens
}

} // verus!
