//! Letters, words of a dictionary and punctuation marks.

use vstd::prelude::*;
use crate::chars::{folded, same_letters};
use crate::dictionary::find_word;
use crate::metadata::WordMetadata;
use crate::punctuation::{Currency, Punctuation, Quote};

verus! {

/// Whether one character is the upper case of the other, a lower case ASCII letter.
pub open spec fn is_upper_of(upper: char, lower: char) -> bool {
    'a' <= lower <= 'z' && upper as int + 32 == lower as int
}

/// Whether the characters are the same up to the case of ASCII letters.
pub open spec fn same_but_case(a: Seq<char>, b: Seq<char>) -> bool {
    &&& a.len() == b.len()
    &&& forall|i: int|
        0 <= i < a.len() ==> (#[trigger] a[i]) == b[i] || is_upper_of(a[i], b[i]) || is_upper_of(
            b[i],
            a[i],
        )
}

/// Two texts have the same letters exactly if they differ in nothing but the case of ASCII
/// letters.
pub proof fn lemma_same_letters(a: Seq<char>, b: Seq<char>)
    ensures
        same_letters(a, b) == same_but_case(a, b),
{
    if same_letters(a, b) {
        assert forall|i: int| 0 <= i < a.len() implies (#[trigger] a[i]) == b[i] || is_upper_of(
            a[i],
            b[i],
        ) || is_upper_of(b[i], a[i]) by {
            assert(folded(a[i]) == folded(b[i]));
        }
    }
    if same_but_case(a, b) {
        assert forall|i: int| 0 <= i < a.len() implies folded(#[trigger] a[i]) == folded(b[i]) by {
            assert(a[i] == b[i] || is_upper_of(a[i], b[i]) || is_upper_of(b[i], a[i]));
        }
    }
}

/// What is found of a word is what the first entry says whose word is the same up to case, and
/// nothing is found only where no entry has such a word.
pub proof fn lemma_find_word(entries: Seq<(Seq<char>, WordMetadata)>, word: Seq<char>)
    ensures
        match find_word(entries, word) {
            Some(known) => exists|k: int|
                0 <= k < entries.len() && (#[trigger] entries[k]).1 == known && same_but_case(
                    entries[k].0,
                    word,
                ) && forall|i: int| 0 <= i < k ==> !same_but_case((#[trigger] entries[i]).0, word),
            None => forall|i: int|
                0 <= i < entries.len() ==> !same_but_case((#[trigger] entries[i]).0, word),
        },
    decreases entries.len(),
{
    if entries.len() > 0 {
        let rest = entries.drop_first();
        lemma_same_letters(entries[0].0, word);
        if same_letters(entries[0].0, word) {
            assert(entries[0].1 == find_word(entries, word)->0);
        } else {
            lemma_find_word(rest, word);
            match find_word(rest, word) {
                Some(known) => {
                    let k = choose|k: int|
                        0 <= k < rest.len() && (#[trigger] rest[k]).1 == known && same_but_case(
                            rest[k].0,
                            word,
                        ) && forall|i: int|
                            0 <= i < k ==> !same_but_case((#[trigger] rest[i]).0, word);
                    assert(entries[k + 1] == rest[k]);
                    assert forall|i: int| 0 <= i < k + 1 implies !same_but_case(
                        (#[trigger] entries[i]).0,
                        word,
                    ) by {
                        if i > 0 {
                            assert(entries[i] == rest[i - 1]);
                        }
                    }
                },
                None => {
                    assert forall|i: int| 0 <= i < entries.len() implies !same_but_case(
                        (#[trigger] entries[i]).0,
                        word,
                    ) by {
                        if i > 0 {
                            assert(entries[i] == rest[i - 1]);
                        }
                    }
                },
            }
        }
    }
}

/// Whether the character writes the mark.
pub open spec fn writes(c: char, mark: Punctuation) -> bool {
    match mark {
        Punctuation::Ampersand => c == '&',
        Punctuation::Apostrophe => c == '\'' || c == '\u{2019}',
        Punctuation::At => c == '@',
        Punctuation::Backslash => c == '\\',
        Punctuation::Backtick => c == '`',
        Punctuation::Bang => c == '!',
        Punctuation::Caret => c == '^',
        Punctuation::CloseCurly => c == '}',
        Punctuation::CloseRound => c == ')',
        Punctuation::CloseSquare => c == ']',
        Punctuation::Colon => c == ':',
        Punctuation::Comma => c == ',',
        Punctuation::Currency(Currency::Dollar) => c == '$',
        Punctuation::Currency(Currency::Cent) => c == '\u{a2}',
        Punctuation::Currency(Currency::Euro) => c == '\u{20ac}',
        Punctuation::Currency(Currency::Pound) => c == '\u{a3}',
        Punctuation::Currency(Currency::Yen) => c == '\u{a5}',
        Punctuation::Ellipsis => c == '\u{2026}',
        Punctuation::EmDash => c == '\u{2014}',
        Punctuation::EnDash => c == '\u{2013}',
        Punctuation::Equal => c == '=',
        Punctuation::ForwardSlash => c == '/',
        Punctuation::GreaterThan => c == '>',
        Punctuation::Hash => c == '#',
        Punctuation::Hyphen => c == '-',
        Punctuation::LessThan => c == '<',
        Punctuation::OpenCurly => c == '{',
        Punctuation::OpenRound => c == '(',
        Punctuation::OpenSquare => c == '[',
        Punctuation::Percent => c == '%',
        Punctuation::Period => c == '.',
        Punctuation::Pipe => c == '|',
        Punctuation::Plus => c == '+',
        Punctuation::Question => c == '?',
        Punctuation::Quote(quote) => quote.twin_loc is None && (c == '"' || c == '\u{201c}' || c
            == '\u{201d}'),
        Punctuation::Semicolon => c == ';',
        Punctuation::Star => c == '*',
        Punctuation::Tilde => c == '~',
        Punctuation::Underscore => c == '_',
    }
}

/// A character is read as the mark that it writes, and as no mark if it writes none.
pub proof fn lemma_marks_read(c: char, mark: Punctuation)
    ensures
        writes(c, mark) <==> Punctuation::from_char(c) == Some(mark),
{
    if let Punctuation::Quote(quote) = mark {
        if quote.twin_loc is None {
            assert(quote == (Quote { twin_loc: None }));
        }
    }
}

} // verus!
