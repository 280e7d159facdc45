//! The pieces that the parsers cut a text into.

use vstd::prelude::*;
use crate::laws::characters::{lemma_marks_read, writes};
use crate::parsers::{
    first_of, lemma_lexed_tiles, lexed, lexed_from, CharClass,
    Lexer, Markdown, PlainEnglish,
};
use crate::punctuation::Punctuation;
use crate::token::tiles;
use crate::token_kind::TokenKind;

verus! {

/// Whether words are made of the character: letters of the Latin script, and digits.
pub open spec fn is_word_char(c: char) -> bool {
    ||| 'a' <= c <= 'z'
    ||| 'A' <= c <= 'Z'
    ||| '\u{c0}' <= c <= '\u{24f}' && c != '\u{d7}' && c != '\u{f7}'
    ||| '\u{1e00}' <= c <= '\u{1eff}'
    ||| '0' <= c <= '9'
}

/// Whether the character is a blank within a line.
pub open spec fn is_blank_char(c: char) -> bool {
    c == ' ' || c == '\t' || c == '\r' || c == '\u{a0}'
}

/// The sorts of characters that the longer pieces of a text are made of.
pub enum Sort {
    Blank,
    LineEnd,
    Digit,
    Word,
}

/// Whether the character is of the sort.
pub open spec fn is_of_sort(sort: Sort, c: char) -> bool {
    match sort {
        Sort::Blank => is_blank_char(c),
        Sort::LineEnd => c == '\n',
        Sort::Digit => '0' <= c <= '9',
        Sort::Word => is_word_char(c),
    }
}

/// Whether all characters from `a` to `b` are of the sort, and the one at `b` is not.
pub open spec fn is_run(source: Seq<char>, a: int, b: int, sort: Sort) -> bool {
    &&& 0 <= a <= b <= source.len()
    &&& forall|i: int| a <= i < b ==> is_of_sort(sort, #[trigger] source[i])
    &&& b < source.len() ==> !is_of_sort(sort, source[b])
}

/// Whether a point with a digit behind it stands at `at`.
pub open spec fn is_point(source: Seq<char>, at: int) -> bool {
    &&& 0 <= at
    &&& at + 1 < source.len()
    &&& source[at] == '.'
    &&& '0' <= source[at + 1] <= '9'
}

/// Whether the characters from `a` to `b` are a number: digits as far as they go, and behind them
/// a point with `precision` digits where a digit follows the point.
pub open spec fn is_number(source: Seq<char>, a: int, b: int, precision: int) -> bool {
    exists|end: int| #[trigger]
        is_run(source, a, end, Sort::Digit) && a < end && if is_point(source, end) {
            is_run(source, end + 1, b, Sort::Digit) && precision == b - (end + 1)
        } else {
            b == end && precision == 0
        }
}

/// Whether the characters from `a` to `b` are a piece of plain text of the kind: a run of blanks,
/// of line ends or of the characters of a word, as long as it gets, a number, or a single
/// character that is a mark or anything else.
pub open spec fn is_plain_piece(source: Seq<char>, a: int, b: int, kind: TokenKind) -> bool {
    &&& 0 <= a < b <= source.len()
    &&& if is_blank_char(source[a]) {
        is_run(source, a, b, Sort::Blank) && (kind matches TokenKind::Space(n) && n
            == b - a)
    } else if source[a] == '\n' {
        is_run(source, a, b, Sort::LineEnd) && (kind matches TokenKind::Newline(n) && n == b
            - a)
    } else if '0' <= source[a] <= '9' {
        kind matches TokenKind::Number(number) && number.suffix is None && is_number(
            source,
            a,
            b,
            number.precision as int,
        )
    } else if is_word_char(source[a]) {
        is_run(source, a, b, Sort::Word) && kind == TokenKind::Word(None)
    } else {
        b == a + 1 && match kind {
            TokenKind::Punctuation(mark) => writes(source[a], mark),
            TokenKind::Unlintable => forall|mark: Punctuation| !#[trigger] writes(source[a], mark),
            _ => false,
        }
    }
}

/// The class of the characters of a sort.
spec fn class_of(sort: Sort) -> CharClass {
    match sort {
        Sort::Blank => CharClass::Blank,
        Sort::LineEnd => CharClass::LineEnd,
        Sort::Digit => CharClass::Digit,
        Sort::Word => CharClass::Word,
    }
}

/// The counted characters are of the sort, and no more of them follow.
proof fn lemma_run(source: Seq<char>, a: int, sort: Sort)
    requires
        0 <= a <= source.len(),
    ensures
        is_run(source, a, a + class_of(sort).run(source, a), sort),
    decreases source.len() - a,
{
    if a < source.len() && is_of_sort(sort, source[a]) {
        lemma_run(source, a + 1, sort);
    }
}

/// What is recognized at a character of a plain text is a piece of it.
proof fn lemma_plain_lexeme(source: Seq<char>, at: int)
    requires
        0 <= at < source.len() <= usize::MAX,
    ensures
        is_plain_piece(
            source,
            at,
            at + PlainEnglish.lexeme(source, at).len,
            PlainEnglish.lexeme(source, at).kind,
        ),
{
    PlainEnglish.lexeme_fits(source, at);
    lemma_run(source, at, Sort::Blank);
    lemma_run(source, at, Sort::LineEnd);
    lemma_run(source, at, Sort::Digit);
    lemma_run(source, at, Sort::Word);
    let c = source[at];
    if is_blank_char(c) || c == '\n' {
    } else if '0' <= c <= '9' {
        let end: int = at + CharClass::Digit.run(source, at);
        assert(is_run(source, at, end, Sort::Digit));
        if end + 1 <= source.len() {
            lemma_run(source, end + 1, Sort::Digit);
        }
        assert(is_point(source, end) == (end < source.len() && source[end] == '.'
            && CharClass::Digit.run(source, end + 1) > 0));
        let found = PlainEnglish.lexeme(source, at);
        assert(is_number(source, at, at + found.len, found.kind->Number_0.precision as int));
    } else if is_word_char(c) {
    } else {
        assert forall|mark: Punctuation| #[trigger] writes(c, mark) <==> Punctuation::from_char(c)
            == Some(mark) by {
            lemma_marks_read(c, mark);
        }
    }
}

/// Each piece is what is recognized where it starts.
proof fn lemma_pieces<L: Lexer>(lexer: L, source: Seq<char>, at: int)
    requires
        0 <= at <= source.len() <= usize::MAX,
    ensures
        forall|k: int|
            0 <= k < lexed_from(lexer, source, at).len() ==> {
                let token = #[trigger] lexed_from(lexer, source, at)[k];
                &&& token.span.start < source.len()
                &&& token.span.end == token.span.start + lexer.lexeme(
                    source,
                    token.span.start as int,
                ).len
                &&& token.kind == lexer.lexeme(source, token.span.start as int).kind
            },
    decreases source.len() - at,
{
    let out = lexed_from(lexer, source, at);
    if at < source.len() {
        lexer.lexeme_fits(source, at);
        let end: int = at + lexer.lexeme(source, at).len;
        let rest = lexed_from(lexer, source, end);
        lemma_pieces(lexer, source, end);
        assert forall|k: int| 0 <= k < out.len() implies {
            let token = #[trigger] out[k];
            &&& token.span.start < source.len()
            &&& token.span.end == token.span.start + lexer.lexeme(
                source,
                token.span.start as int,
            ).len
            &&& token.kind == lexer.lexeme(source, token.span.start as int).kind
        } by {
            if k > 0 {
                assert(out[k] == rest[k - 1]);
            }
        }
    }
}

/// A plain text is cut into blanks, line ends, words and numbers, as long as they get, and single
/// characters, one behind the other from its start to its end.
pub proof fn lemma_plain_pieces(source: Seq<char>)
    requires
        source.len() <= usize::MAX,
    ensures
        tiles(lexed(PlainEnglish, source), 0, source.len() as int),
        forall|k: int|
            0 <= k < lexed(PlainEnglish, source).len() ==> is_plain_piece(
                source,
                (#[trigger] lexed(PlainEnglish, source)[k]).span.start as int,
                lexed(PlainEnglish, source)[k].span.end as int,
                lexed(PlainEnglish, source)[k].kind,
            ),
{
    let out = lexed(PlainEnglish, source);
    lemma_lexed_tiles(PlainEnglish, source, 0);
    lemma_pieces(PlainEnglish, source, 0);
    assert forall|k: int| 0 <= k < out.len() implies is_plain_piece(
        source,
        (#[trigger] out[k]).span.start as int,
        out[k].span.end as int,
        out[k].kind,
    ) by {
        let token = lexed_from(PlainEnglish, source, 0)[k];
        lemma_plain_lexeme(source, token.span.start as int);
    }
}

/// Whether `b` is the first place from `a` on where the character stands.
pub open spec fn stands_first(source: Seq<char>, c: char, a: int, b: int) -> bool {
    &&& 0 <= a <= b < source.len()
    &&& source[b] == c
    &&& forall|i: int| a <= i < b ==> (#[trigger] source[i]) != c
}

/// Whether the characters from `a` to `b` are a code span.
pub open spec fn is_code(source: Seq<char>, a: int, b: int) -> bool {
    &&& 0 <= a < source.len()
    &&& source[a] == '`'
    &&& stands_first(source, '`', a + 1, b - 1)
}

/// Whether the characters from `a` to `b` are the end of a link, from the bracket that closes its
/// title on.
pub open spec fn is_link_end(source: Seq<char>, a: int, b: int) -> bool {
    &&& 0 <= a
    &&& a + 1 < source.len()
    &&& source[a] == ']'
    &&& source[a + 1] == '('
    &&& stands_first(source, ')', a + 2, b - 1)
}

/// Whether the characters from `a` to `b` are a link, the title of which ends at `m`.
pub open spec fn is_link(source: Seq<char>, a: int, m: int, b: int) -> bool {
    &&& 0 <= a < source.len()
    &&& source[a] == '['
    &&& stands_first(source, ']', a + 1, m)
    &&& is_link_end(source, m, b)
}

/// The first place where the character stands is found.
proof fn lemma_first_of(source: Seq<char>, c: char, a: int)
    requires
        0 <= a <= source.len(),
    ensures
        first_of(source, c, a) < source.len() ==> stands_first(
            source,
            c,
            a,
            first_of(source, c, a),
        ),
        forall|b: int| #[trigger] stands_first(source, c, a, b) ==> first_of(source, c, a) == b,
        a <= first_of(source, c, a) <= source.len(),
    decreases source.len() - a,
{
    if a < source.len() && source[a] != c {
        lemma_first_of(source, c, a + 1);
        assert forall|b: int| #[trigger] stands_first(source, c, a, b) implies first_of(
            source,
            c,
            a,
        ) == b by {
            assert(stands_first(source, c, a + 1, b));
        }
    }
}

/// In Markdown a code span and the end of a link are text that is not prose, and so is a whole
/// link where titles are left out; everything else is read as plain text.
pub proof fn lemma_markdown_lexeme(markdown: Markdown, source: Seq<char>, at: int)
    requires
        0 <= at < source.len(),
    ensures
        ({
            let found = markdown.lexeme(source, at);
            &&& forall|b: int| #[trigger]
                is_code(source, at, b) ==> found.kind == TokenKind::Unlintable && at + found.len
                    == b
            &&& forall|b: int| #[trigger]
                is_link_end(source, at, b) ==> found.kind == TokenKind::Unlintable && at + found.len
                    == b
            &&& forall|m: int, b: int| #[trigger]
                is_link(source, at, m, b) && markdown.options.ignore_link_title ==> found.kind
                    == TokenKind::Unlintable && at + found.len == b
            &&& (forall|b: int| !#[trigger] is_code(source, at, b)) && (forall|b: int|
                !#[trigger] is_link_end(source, at, b)) && (markdown.options.ignore_link_title ==> (
            forall|m: int, b: int| !#[trigger] is_link(source, at, m, b))) ==> found
                == PlainEnglish.lexeme(source, at)
        }),
{
    lemma_first_of(source, '`', at + 1);
    let close = first_of(source, '`', at + 1);
    if source[at] == '`' && close < source.len() {
        assert(is_code(source, at, close + 1));
    }
    lemma_first_of(source, ']', at + 1);
    let title = first_of(source, ']', at + 1);
    lemma_link_end(source, at);
    if title < source.len() {
        lemma_link_end(source, title);
        if Markdown::link_end(source, title) > 0 && source[at] == '[' {
            assert(is_link(source, at, title, title + Markdown::link_end(source, title)));
        }
    }
    assert forall|m: int, b: int| #[trigger] is_link(source, at, m, b) implies title == m by {
        assert(stands_first(source, ']', at + 1, m));
    }
}

/// Whether the characters from `a` to `b` are Markdown that is not prose.
pub open spec fn is_markup(markdown: Markdown, source: Seq<char>, a: int, b: int) -> bool {
    ||| is_code(source, a, b)
    ||| is_link_end(source, a, b)
    ||| markdown.options.ignore_link_title && exists|m: int| #[trigger] is_link(source, a, m, b)
}

/// A Markdown text is cut into what is not prose and the pieces of a plain text, one behind the
/// other from its start to its end.
pub proof fn lemma_markdown_pieces(markdown: Markdown, source: Seq<char>)
    requires
        source.len() <= usize::MAX,
    ensures
        tiles(lexed(markdown, source), 0, source.len() as int),
        forall|k: int|
            0 <= k < lexed(markdown, source).len() ==> {
                let token = #[trigger] lexed(markdown, source)[k];
                let a = token.span.start as int;
                let b = token.span.end as int;
                ||| is_markup(markdown, source, a, b) && token.kind == TokenKind::Unlintable
                ||| (forall|c: int| !#[trigger] is_markup(markdown, source, a, c))
                    && is_plain_piece(source, a, b, token.kind)
            },
{
    let out = lexed(markdown, source);
    lemma_lexed_tiles(markdown, source, 0);
    lemma_pieces(markdown, source, 0);
    assert forall|k: int| 0 <= k < out.len() implies {
        let token = #[trigger] out[k];
        let a = token.span.start as int;
        let b = token.span.end as int;
        ||| is_markup(markdown, source, a, b) && token.kind == TokenKind::Unlintable
        ||| (forall|c: int| !#[trigger] is_markup(markdown, source, a, c)) && is_plain_piece(
            source,
            a,
            b,
            token.kind,
        )
    } by {
        let token = lexed_from(markdown, source, 0)[k];
        let a = token.span.start as int;
        lemma_markdown_lexeme(markdown, source, a);
        lemma_plain_lexeme(source, a);
        if exists|c: int| #[trigger] is_markup(markdown, source, a, c) {
            let c = choose|c: int| #[trigger] is_markup(markdown, source, a, c);
            assert(token.span.end == c);
        } else {
            assert forall|c: int| !#[trigger] is_code(source, a, c) by {
                assert(!is_markup(markdown, source, a, c));
            }
            assert forall|c: int| !#[trigger] is_link_end(source, a, c) by {
                assert(!is_markup(markdown, source, a, c));
            }
            if markdown.options.ignore_link_title {
                assert forall|m: int, c: int| !#[trigger] is_link(source, a, m, c) by {
                    assert(!is_markup(markdown, source, a, c));
                }
            }
        }
    }
}

proof fn lemma_link_end(source: Seq<char>, at: int)
    requires
        0 <= at < source.len(),
    ensures
        Markdown::link_end(source, at) > 0 ==> is_link_end(
            source,
            at,
            at + Markdown::link_end(source, at),
        ),
        forall|b: int| #[trigger]
            is_link_end(source, at, b) ==> at + Markdown::link_end(source, at) == b && b > at,
{
    if at + 1 < source.len() {
        lemma_first_of(source, ')', at + 2);
        assert forall|b: int| #[trigger] is_link_end(source, at, b) implies at + Markdown::link_end(
            source,
            at,
        ) == b && b > at by {
            assert(stands_first(source, ')', at + 2, b - 1));
        }
    }
}

} // verus!
