//! English text without any markup.

use vstd::prelude::*;
use crate::number::Number;
use crate::parsers::lexer::{lex, lexed, Lexeme, Lexer};
use crate::parsers::Parser;
use crate::punctuation::Punctuation;
use crate::token::Token;
use crate::token_kind::TokenKind;

verus! {

/// Whether the character is a blank within a line.
#[verifier::allow_in_spec]
pub fn is_blank(c: char) -> bool
    returns
        c == ' ' || c == '\t' || c == '\r' || c == '\u{a0}',
{
    c == ' ' || c == '\t' || c == '\r' || c == '\u{a0}'
}

/// Whether the character is a decimal digit.
#[verifier::allow_in_spec]
pub fn is_digit(c: char) -> bool
    returns
        '0' <= c && c <= '9',
{
    '0' <= c && c <= '9'
}

/// Whether the character is a letter that English is written with.
#[verifier::allow_in_spec]
pub fn is_letter(c: char) -> bool
    returns
        ('a' <= c && c <= 'z') || ('A' <= c && c <= 'Z') || ('\u{c0}' <= c && c <= '\u{24f}' && c
            != '\u{d7}' && c != '\u{f7}') || ('\u{1e00}' <= c && c <= '\u{1eff}'),
{
    ('a' <= c && c <= 'z') || ('A' <= c && c <= 'Z') || ('\u{c0}' <= c && c <= '\u{24f}' && c
        != '\u{d7}' && c != '\u{f7}') || ('\u{1e00}' <= c && c <= '\u{1eff}')
}

/// The characters that make up the longer pieces of a text.
#[derive(Clone, Copy)]
pub enum CharClass {
    Blank,
    LineEnd,
    Digit,
    /// The letters and digits that words are made of.
    Word,
}

impl CharClass {
    /// Whether the class holds the character.
    pub open spec fn holds(self, c: char) -> bool {
        match self {
            CharClass::Blank => is_blank(c),
            CharClass::LineEnd => c == '\n',
            CharClass::Digit => is_digit(c),
            CharClass::Word => is_letter(c) || is_digit(c),
        }
    }

    fn has(&self, c: char) -> (yes: bool)
        ensures
            yes == self.holds(c),
    {
        match self {
            CharClass::Blank => is_blank(c),
            CharClass::LineEnd => c == '\n',
            CharClass::Digit => is_digit(c),
            CharClass::Word => is_letter(c) || is_digit(c),
        }
    }

    /// How many characters of the class follow each other from `at` on.
    pub open spec fn run(self, source: Seq<char>, at: int) -> nat
        decreases source.len() - at,
    {
        if 0 <= at < source.len() && self.holds(source[at]) {
            1 + self.run(source, at + 1)
        } else {
            0
        }
    }

    proof fn lemma_run_fits(self, source: Seq<char>, at: int)
        requires
            0 <= at <= source.len(),
        ensures
            at + self.run(source, at) <= source.len(),
        decreases source.len() - at,
    {
        if at < source.len() && self.holds(source[at]) {
            self.lemma_run_fits(source, at + 1);
        }
    }

    fn end_of_run(&self, source: &[char], at: usize) -> (end: usize)
        requires
            at <= source@.len(),
        ensures
            end == at + self.run(source@, at as int),
            end <= source@.len(),
    {
        let mut end: usize = at;
        while end < source.len() && self.has(source[end])
            invariant
                at <= end <= source@.len(),
                self.run(source@, at as int) == end - at + self.run(source@, end as int),
            decreases source@.len() - end,
        {
            end = end + 1;
        }
        end
    }
}

/// The parser for English text without any markup.
pub struct PlainEnglish;

impl PlainEnglish {
    /// The number that starts at `at`: digits, with a decimal point between them or without.
    pub open spec fn number(source: Seq<char>, at: int) -> Lexeme {
        let whole = CharClass::Digit.run(source, at);
        let point: int = at + whole;
        let part = CharClass::Digit.run(source, point + 1);
        if point < source.len() && source[point] == '.' && part > 0 {
            Lexeme {
                len: whole + 1 + part,
                kind: TokenKind::Number(Number { suffix: None, precision: part as usize }),
            }
        } else {
            Lexeme {
                len: whole,
                kind: TokenKind::Number(Number { suffix: None, precision: 0 }),
            }
        }
    }

    fn next_number(source: &[char], at: usize) -> (found: (usize, TokenKind))
        requires
            at < source@.len(),
        ensures
            found.0 == PlainEnglish::number(source@, at as int).len,
            found.1 == PlainEnglish::number(source@, at as int).kind,
    {
        let class = CharClass::Digit;
        let point: usize = class.end_of_run(source, at);
        if point < source.len() && source[point] == '.' {
            let end: usize = class.end_of_run(source, point + 1);
            if end > point + 1 {
                let number = Number { suffix: None, precision: end - (point + 1) };
                return (end - at, TokenKind::Number(number));
            }
        }
        (point - at, TokenKind::Number(Number { suffix: None, precision: 0 }))
    }
}

impl Lexer for PlainEnglish {
    open spec fn lexeme(&self, source: Seq<char>, at: int) -> Lexeme {
        let c = source[at];
        if CharClass::Blank.holds(c) {
            let len = CharClass::Blank.run(source, at);
            Lexeme { len, kind: TokenKind::Space(len as usize) }
        } else if CharClass::LineEnd.holds(c) {
            let len = CharClass::LineEnd.run(source, at);
            Lexeme { len, kind: TokenKind::Newline(len as usize) }
        } else if CharClass::Digit.holds(c) {
            PlainEnglish::number(source, at)
        } else if CharClass::Word.holds(c) {
            Lexeme { len: CharClass::Word.run(source, at), kind: TokenKind::Word(None) }
        } else {
            match Punctuation::from_char(c) {
                Some(mark) => Lexeme { len: 1, kind: TokenKind::Punctuation(mark) },
                None => Lexeme { len: 1, kind: TokenKind::Unlintable },
            }
        }
    }

    proof fn lexeme_fits(&self, source: Seq<char>, at: int) {
        CharClass::Blank.lemma_run_fits(source, at);
        CharClass::LineEnd.lemma_run_fits(source, at);
        CharClass::Word.lemma_run_fits(source, at);
        CharClass::Digit.lemma_run_fits(source, at);
        let point: int = at + CharClass::Digit.run(source, at);
        if point < source.len() {
            CharClass::Digit.lemma_run_fits(source, point + 1);
        }
    }

    fn next_lexeme(&self, source: &[char], at: usize) -> (found: (usize, TokenKind)) {
        let c: char = source[at];
        if CharClass::Blank.has(c) {
            let len: usize = CharClass::Blank.end_of_run(source, at) - at;
            (len, TokenKind::Space(len))
        } else if CharClass::LineEnd.has(c) {
            let len: usize = CharClass::LineEnd.end_of_run(source, at) - at;
            (len, TokenKind::Newline(len))
        } else if CharClass::Digit.has(c) {
            PlainEnglish::next_number(source, at)
        } else if CharClass::Word.has(c) {
            let len: usize = CharClass::Word.end_of_run(source, at) - at;
            (len, TokenKind::Word(None))
        } else {
            match Punctuation::from_char(c) {
                Some(mark) => (1, TokenKind::Punctuation(mark)),
                None => (1, TokenKind::Unlintable),
            }
        }
    }
}

impl Parser for PlainEnglish {
    open spec fn tokens(&self, source: Seq<char>) -> Seq<Token> {
        lexed(*self, source)
    }

    fn parse(&self, source: &[char]) -> (tokens: Vec<Token>) {
        lex(self, source)
    }
}

} // verus!
