//! Punctuation marks.

use vstd::prelude::*;

verus! {

/// A quotation mark.
#[derive(Clone, Copy, Debug, PartialEq, Eq, Structural)]
pub struct Quote {
    /// The index of the token that holds the other quotation mark of the pair.
    pub twin_loc: Option<usize>,
}

#[derive(Clone, Copy, Debug, PartialEq, Eq, Structural)]
pub enum Currency {
    Dollar,
    Cent,
    Euro,
    Pound,
    Yen,
}

#[derive(Clone, Copy, Debug, PartialEq, Eq, Structural)]
pub enum Punctuation {
    Ampersand,
    Apostrophe,
    At,
    Backslash,
    Backtick,
    Bang,
    Caret,
    CloseCurly,
    CloseRound,
    CloseSquare,
    Colon,
    Comma,
    Currency(Currency),
    Ellipsis,
    EmDash,
    EnDash,
    Equal,
    ForwardSlash,
    GreaterThan,
    Hash,
    Hyphen,
    LessThan,
    OpenCurly,
    OpenRound,
    OpenSquare,
    Percent,
    Period,
    Pipe,
    Plus,
    Question,
    Quote(Quote),
    Semicolon,
    Star,
    Tilde,
    Underscore,
}

impl Punctuation {
    /// The mark that a character writes, if it writes one.
    #[verifier::allow_in_spec]
    pub fn from_char(c: char) -> Option<Punctuation>
        returns
            (match c {
                '&' => Some(Punctuation::Ampersand),
                '\'' => Some(Punctuation::Apostrophe),
                '\u{2019}' => Some(Punctuation::Apostrophe),
                '@' => Some(Punctuation::At),
                '\\' => Some(Punctuation::Backslash),
                '`' => Some(Punctuation::Backtick),
                '!' => Some(Punctuation::Bang),
                '^' => Some(Punctuation::Caret),
                '}' => Some(Punctuation::CloseCurly),
                ')' => Some(Punctuation::CloseRound),
                ']' => Some(Punctuation::CloseSquare),
                ':' => Some(Punctuation::Colon),
                ',' => Some(Punctuation::Comma),
                '$' => Some(Punctuation::Currency(Currency::Dollar)),
                '\u{a2}' => Some(Punctuation::Currency(Currency::Cent)),
                '\u{20ac}' => Some(Punctuation::Currency(Currency::Euro)),
                '\u{a3}' => Some(Punctuation::Currency(Currency::Pound)),
                '\u{a5}' => Some(Punctuation::Currency(Currency::Yen)),
                '\u{2026}' => Some(Punctuation::Ellipsis),
                '\u{2014}' => Some(Punctuation::EmDash),
                '\u{2013}' => Some(Punctuation::EnDash),
                '=' => Some(Punctuation::Equal),
                '/' => Some(Punctuation::ForwardSlash),
                '>' => Some(Punctuation::GreaterThan),
                '#' => Some(Punctuation::Hash),
                '-' => Some(Punctuation::Hyphen),
                '<' => Some(Punctuation::LessThan),
                '{' => Some(Punctuation::OpenCurly),
                '(' => Some(Punctuation::OpenRound),
                '[' => Some(Punctuation::OpenSquare),
                '%' => Some(Punctuation::Percent),
                '.' => Some(Punctuation::Period),
                '|' => Some(Punctuation::Pipe),
                '+' => Some(Punctuation::Plus),
                '?' => Some(Punctuation::Question),
                '"' => Some(Punctuation::Quote(Quote { twin_loc: None })),
                '\u{201c}' => Some(Punctuation::Quote(Quote { twin_loc: None })),
                '\u{201d}' => Some(Punctuation::Quote(Quote { twin_loc: None })),
                ';' => Some(Punctuation::Semicolon),
                '*' => Some(Punctuation::Star),
                '~' => Some(Punctuation::Tilde),
                '_' => Some(Punctuation::Underscore),
                _ => None,
            }),
    {
        match c {
            '&' => Some(Punctuation::Ampersand),
            '\'' | '\u{2019}' => Some(Punctuation::Apostrophe),
            '@' => Some(Punctuation::At),
            '\\' => Some(Punctuation::Backslash),
            '`' => Some(Punctuation::Backtick),
            '!' => Some(Punctuation::Bang),
            '^' => Some(Punctuation::Caret),
            '}' => Some(Punctuation::CloseCurly),
            ')' => Some(Punctuation::CloseRound),
            ']' => Some(Punctuation::CloseSquare),
            ':' => Some(Punctuation::Colon),
            ',' => Some(Punctuation::Comma),
            '$' => Some(Punctuation::Currency(Currency::Dollar)),
            '\u{a2}' => Some(Punctuation::Currency(Currency::Cent)),
            '\u{20ac}' => Some(Punctuation::Currency(Currency::Euro)),
            '\u{a3}' => Some(Punctuation::Currency(Currency::Pound)),
            '\u{a5}' => Some(Punctuation::Currency(Currency::Yen)),
            '\u{2026}' => Some(Punctuation::Ellipsis),
            '\u{2014}' => Some(Punctuation::EmDash),
            '\u{2013}' => Some(Punctuation::EnDash),
            '=' => Some(Punctuation::Equal),
            '/' => Some(Punctuation::ForwardSlash),
            '>' => Some(Punctuation::GreaterThan),
            '#' => Some(Punctuation::Hash),
            '-' => Some(Punctuation::Hyphen),
            '<' => Some(Punctuation::LessThan),
            '{' => Some(Punctuation::OpenCurly),
            '(' => Some(Punctuation::OpenRound),
            '[' => Some(Punctuation::OpenSquare),
            '%' => Some(Punctuation::Percent),
            '.' => Some(Punctuation::Period),
            '|' => Some(Punctuation::Pipe),
            '+' => Some(Punctuation::Plus),
            '?' => Some(Punctuation::Question),
            '"' | '\u{201c}' | '\u{201d}' => Some(Punctuation::Quote(Quote { twin_loc: None })),
            ';' => Some(Punctuation::Semicolon),
            '*' => Some(Punctuation::Star),
            '~' => Some(Punctuation::Tilde),
            '_' => Some(Punctuation::Underscore),
            _ => None,
        }
    }
}

} // verus!
