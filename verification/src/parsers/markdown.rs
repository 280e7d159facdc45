//! English text with Markdown markup.

use vstd::prelude::*;
use crate::parsers::lexer::{lex, lexed, Lexeme, Lexer};
use crate::parsers::plain_english::PlainEnglish;
use crate::parsers::Parser;
use crate::token::Token;
use crate::token_kind::TokenKind;

verus! {

/// How Markdown is read.
#[derive(Clone, Copy, Debug, PartialEq, Eq, Structural)]
pub struct MarkdownOptions {
    /// Whether the title of a link is left out of the prose.
    pub ignore_link_title: bool,
}

impl Default for MarkdownOptions {
    fn default() -> (options: MarkdownOptions)
        ensures
            options == (MarkdownOptions { ignore_link_title: false }),
    {
        MarkdownOptions { ignore_link_title: false }
    }
}

/// The parser for English text in which code spans, the destinations of links and, where the
/// options ask for it, the titles of links are not prose.
pub struct Markdown {
    pub options: MarkdownOptions,
}

/// Where the character `c` stands first from `from` on, or the length of the text where it
/// does not.
pub open spec fn first_of(source: Seq<char>, c: char, from: int) -> int
    decreases source.len() - from,
{
    if from < 0 || from >= source.len() {
        source.len() as int
    } else if source[from] == c {
        from
    } else {
        first_of(source, c, from + 1)
    }
}

proof fn lemma_first_of_fits(source: Seq<char>, c: char, from: int)
    requires
        0 <= from <= source.len(),
    ensures
        from <= first_of(source, c, from) <= source.len(),
    decreases source.len() - from,
{
    if from < source.len() && source[from] != c {
        lemma_first_of_fits(source, c, from + 1);
    }
}

fn find(source: &[char], c: char, from: usize) -> (at: usize)
    requires
        from <= source@.len(),
    ensures
        at == first_of(source@, c, from as int),
        from <= at <= source@.len(),
{
    let mut at: usize = from;
    while at < source.len() && source[at] != c
        invariant
            from <= at <= source@.len(),
            first_of(source@, c, from as int) == first_of(source@, c, at as int),
        decreases source@.len() - at,
    {
        at = at + 1;
    }
    at
}

impl Markdown {
    /// How long the code span is that starts at `at`, or 0 where none starts.
    pub open spec fn code_span(source: Seq<char>, at: int) -> nat {
        let close = first_of(source, '`', at + 1);
        if source[at] == '`' && close < source.len() {
            (close + 1 - at) as nat
        } else {
            0
        }
    }

    /// How long the end of a link is that starts at `at` with the closing bracket of its title,
    /// or 0 where none starts.
    pub open spec fn link_end(source: Seq<char>, at: int) -> nat {
        let close = first_of(source, ')', at + 2);
        if at + 1 < source.len() && source[at] == ']' && source[at + 1] == '(' && close
            < source.len() {
            (close + 1 - at) as nat
        } else {
            0
        }
    }

    /// How long the link is that starts at `at`, or 0 where none starts.
    pub open spec fn link(source: Seq<char>, at: int) -> nat {
        let title_end = first_of(source, ']', at + 1);
        if source[at] == '[' && title_end < source.len() && Markdown::link_end(source, title_end)
            > 0 {
            (title_end - at + Markdown::link_end(source, title_end)) as nat
        } else {
            0
        }
    }

    /// How much of the text at `at` is not prose.
    pub open spec fn markup(self, source: Seq<char>, at: int) -> nat {
        if Markdown::code_span(source, at) > 0 {
            Markdown::code_span(source, at)
        } else if Markdown::link_end(source, at) > 0 {
            Markdown::link_end(source, at)
        } else if self.options.ignore_link_title {
            Markdown::link(source, at)
        } else {
            0
        }
    }

    /// A parser with the given options.
    pub fn new(options: MarkdownOptions) -> (markdown: Markdown)
        ensures
            markdown == (Markdown { options }),
    {
        Markdown { options }
    }

    proof fn lemma_markup_fits(self, source: Seq<char>, at: int)
        requires
            0 <= at < source.len(),
        ensures
            self.markup(source, at) <= source.len() - at,
    {
        lemma_first_of_fits(source, '`', at + 1);
        lemma_first_of_fits(source, ']', at + 1);
        if at + 1 < source.len() {
            lemma_first_of_fits(source, ')', at + 2);
        }
        let title_end = first_of(source, ']', at + 1);
        if title_end + 1 < source.len() {
            lemma_first_of_fits(source, ')', title_end + 2);
        }
    }

    fn code_span_at(source: &[char], at: usize) -> (len: usize)
        requires
            at < source@.len(),
        ensures
            len == Markdown::code_span(source@, at as int),
            len <= source@.len() - at,
    {
        if source[at] != '`' {
            return 0;
        }
        let close: usize = find(source, '`', at + 1);
        if close < source.len() {
            close - at + 1
        } else {
            0
        }
    }

    fn link_end_at(source: &[char], at: usize) -> (len: usize)
        requires
            at < source@.len(),
        ensures
            len == Markdown::link_end(source@, at as int),
            len <= source@.len() - at,
    {
        if source.len() - at < 2 || source[at] != ']' || source[at + 1] != '(' {
            return 0;
        }
        let close: usize = find(source, ')', at + 2);
        if close < source.len() {
            close - at + 1
        } else {
            0
        }
    }

    fn link_at(source: &[char], at: usize) -> (len: usize)
        requires
            at < source@.len(),
        ensures
            len == Markdown::link(source@, at as int),
    {
        if source[at] != '[' {
            return 0;
        }
        let title_end: usize = find(source, ']', at + 1);
        if title_end == source.len() {
            return 0;
        }
        let rest: usize = Markdown::link_end_at(source, title_end);
        if rest > 0 {
            title_end - at + rest
        } else {
            0
        }
    }
}

impl Lexer for Markdown {
    open spec fn lexeme(&self, source: Seq<char>, at: int) -> Lexeme {
        let markup = self.markup(source, at);
        if markup > 0 {
            Lexeme { len: markup, kind: TokenKind::Unlintable }
        } else {
            PlainEnglish.lexeme(source, at)
        }
    }

    proof fn lexeme_fits(&self, source: Seq<char>, at: int) {
        self.lemma_markup_fits(source, at);
        PlainEnglish.lexeme_fits(source, at);
    }

    fn next_lexeme(&self, source: &[char], at: usize) -> (found: (usize, TokenKind)) {
        let code: usize = Markdown::code_span_at(source, at);
        if code > 0 {
            return (code, TokenKind::Unlintable);
        }
        let end: usize = Markdown::link_end_at(source, at);
        if end > 0 {
            return (end, TokenKind::Unlintable);
        }
        if self.options.ignore_link_title {
            let link: usize = Markdown::link_at(source, at);
            if link > 0 {
                return (link, TokenKind::Unlintable);
            }
        }
        PlainEnglish.next_lexeme(source, at)
    }
}

impl Parser for Markdown {
    open spec fn tokens(&self, source: Seq<char>) -> Seq<Token> {
        lexed(*self, source)
    }

    fn parse(&self, source: &[char]) -> (tokens: Vec<Token>) {
        lex(self, source)
    }
}

} // verus!
