//! Parsers, which make tokens of a text.

mod lexer;
mod markdown;
mod plain_english;

use vstd::prelude::*;
use crate::token::{blanks, well_formed, Token};

pub use lexer::{lemma_lexed_tiles, lemma_lexed_untwinned, lexed, lexed_from, Lexeme, Lexer};
pub use markdown::{first_of, Markdown, MarkdownOptions};
pub use plain_english::{is_blank, is_digit, is_letter, CharClass, PlainEnglish};

verus! {

/// Something that makes tokens of a text.
pub trait Parser {
    /// The tokens that the parser makes of a text.
    spec fn tokens(&self, source: Seq<char>) -> Seq<Token>;

    /// Makes tokens of a text. They lie in order within the text, and the blanks and line ends
    /// that they stand for can be counted.
    fn parse(&self, source: &[char]) -> (tokens: Vec<Token>)
        ensures
            tokens@ == self.tokens(source@),
            well_formed(tokens@, source@.len()),
            blanks(tokens@) <= usize::MAX,
    ;
}

} // verus!
