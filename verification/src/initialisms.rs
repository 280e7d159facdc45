//! Initialisms that are written with periods.

use vstd::prelude::*;
use crate::condense::{Block, Group, Grouping};
use crate::token::{well_formed, Token};
use crate::token_kind::TokenKind;

verus! {

/// The rule that makes one word of the letters and periods of words like "i.e." and "N.S.A.".
///
/// A single letter with a period behind it counts as well, except at the end of a longer
/// document: there the period ends the last sentence.
pub struct Initialisms;

impl Initialisms {
    /// Whether a word of one letter and a period behind it start at `at`.
    pub open spec fn dotted_letter(tokens: Seq<Token>, at: int) -> bool {
        &&& 0 <= at
        &&& at + 1 < tokens.len()
        &&& tokens[at].kind.is_word()
        &&& tokens[at].span.end - tokens[at].span.start == 1
        &&& tokens[at + 1].kind.is_period()
    }

    /// How many letters, each with its period, follow each other from `at` on.
    pub open spec fn letters(tokens: Seq<Token>, at: int) -> nat
        decreases tokens.len() - at,
    {
        if Initialisms::dotted_letter(tokens, at) {
            1 + Initialisms::letters(tokens, at + 2)
        } else {
            0
        }
    }

    /// How many tokens the initialism at `at` is written with, or 1 where there is none.
    pub open spec fn width(tokens: Seq<Token>, at: int) -> nat {
        let letters = Initialisms::letters(tokens, at);
        if letters == 0 {
            1
        } else if letters == 1 && at + 2 == tokens.len() && at > 0 {
            1
        } else {
            2 * letters
        }
    }

    proof fn lemma_letters_fit(tokens: Seq<Token>, at: int)
        requires
            0 <= at <= tokens.len(),
        ensures
            at + 2 * Initialisms::letters(tokens, at) <= tokens.len(),
        decreases tokens.len() - at,
    {
        if Initialisms::dotted_letter(tokens, at) {
            Initialisms::lemma_letters_fit(tokens, at + 2);
        }
    }
}

impl Grouping for Initialisms {
    open spec fn block(&self, tokens: Seq<Token>, source: Seq<char>, at: int) -> Block {
        Block { width: Initialisms::width(tokens, at), kind: tokens[at].kind }
    }

    proof fn block_fits(&self, tokens: Seq<Token>, source: Seq<char>, at: int) {
        Initialisms::lemma_letters_fit(tokens, at);
    }
}

/// Whether a word of one letter and a period behind it start at `at`.
fn is_dotted_letter(tokens: &[Token], at: usize) -> (yes: bool)
    requires
        at <= tokens@.len(),
        forall|i: int| 0 <= i < tokens@.len() ==> (#[trigger] tokens@[i]).span.start
            <= tokens@[i].span.end,
    ensures
        yes == Initialisms::dotted_letter(tokens@, at as int),
{
    tokens.len() - at >= 2 && tokens[at].kind.is_word() && tokens[at].span.len() == 1 && tokens[at
        + 1].kind.is_period()
}

impl Group for Initialisms {
    open spec fn applies(&self, tokens: Seq<Token>) -> bool {
        true
    }

    fn block_at(&self, tokens: &[Token], source: &[char], at: usize) -> (block: (
        usize,
        TokenKind,
    )) {
        let kind: TokenKind = tokens[at].kind;
        let count: usize = tokens.len();
        let mut end: usize = at;
        while is_dotted_letter(tokens, end)
            invariant
                count == tokens@.len(),
                at <= end <= tokens@.len(),
                well_formed(tokens@, source@.len()),
                end == at + 2 * (Initialisms::letters(tokens@, at as int) - Initialisms::letters(
                    tokens@,
                    end as int,
                )),
            decreases tokens@.len() - end,
        {
            end = end + 2;
        }
        assert(Initialisms::letters(tokens@, end as int) == 0);
        if end == at || (end - at == 2 && end == count && at > 0) {
            (1, kind)
        } else {
            (end - at, kind)
        }
    }
}

} // verus!
