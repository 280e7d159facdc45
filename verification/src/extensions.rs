//! Filename extensions that stand on their own.

use vstd::prelude::*;
use crate::chars::{is_ascii_lower, is_ascii_upper};
use crate::condense::{
    block_starts, condensed, lemma_block_starts, lemma_condensed_unchanged, Block, Group, Grouping,
};
use crate::token::{well_formed, Token};
use crate::token_kind::TokenKind;

verus! {

/// The most characters that a likely filename extension has behind its dot.
pub const LONGEST_EXTENSION: usize = 3;

/// The rule that makes one token of a dot and the filename extension behind it.
pub struct FilenameExtensions;

impl FilenameExtensions {
    /// Whether nothing but whitespace touches the two tokens at `at`.
    pub open spec fn set_off(tokens: Seq<Token>, at: int) -> bool {
        &&& at == 0 || tokens[at - 1].kind.is_whitespace()
        &&& at + 2 == tokens.len() || tokens[at + 2].kind.is_whitespace()
    }

    /// Whether the two tokens at `at` stand alone between round brackets.
    pub open spec fn bracketed(tokens: Seq<Token>, at: int) -> bool {
        &&& at > 0
        &&& tokens[at - 1].kind.is_open_round()
        &&& at + 2 < tokens.len()
        &&& tokens[at + 2].kind.is_close_round()
    }

    /// Whether the letters are all lower case or all upper case ASCII letters.
    pub open spec fn one_case(chars: Seq<char>) -> bool {
        ||| forall|i: int| 0 <= i < chars.len() ==> is_ascii_lower(#[trigger] chars[i])
        ||| forall|i: int| 0 <= i < chars.len() ==> is_ascii_upper(#[trigger] chars[i])
    }

    /// Whether a dot and a likely filename extension start at `at`.
    pub open spec fn extension(tokens: Seq<Token>, source: Seq<char>, at: int) -> bool {
        &&& 0 <= at
        &&& at + 1 < tokens.len()
        &&& tokens[at].kind.is_period()
        &&& tokens[at + 1].kind.is_word()
        &&& tokens[at + 1].span.end - tokens[at + 1].span.start <= LONGEST_EXTENSION
        &&& FilenameExtensions::set_off(tokens, at) || FilenameExtensions::bracketed(tokens, at)
        &&& FilenameExtensions::one_case(tokens[at + 1].span.content(source))
    }
}

impl Grouping for FilenameExtensions {
    open spec fn block(&self, tokens: Seq<Token>, source: Seq<char>, at: int) -> Block {
        if FilenameExtensions::extension(tokens, source, at) {
            Block { width: 2, kind: TokenKind::Unlintable }
        } else {
            Block { width: 1, kind: tokens[at].kind }
        }
    }

    proof fn block_fits(&self, tokens: Seq<Token>, source: Seq<char>, at: int) {
    }
}

/// A token that is not unlintable is as it was, and the next block starts right behind it.
proof fn lemma_left_alone(tokens: Seq<Token>, source: Seq<char>, k: int)
    requires
        0 <= k < condensed(FilenameExtensions, tokens, source).len(),
        !condensed(FilenameExtensions, tokens, source)[k].kind.is_unlintable(),
    ensures
        ({
            let at = block_starts(FilenameExtensions, tokens, source, 0)[k];
            &&& 0 <= at < tokens.len()
            &&& tokens[at] == condensed(FilenameExtensions, tokens, source)[k]
            &&& !FilenameExtensions::extension(tokens, source, at)
            &&& k > 0 ==> at > 0
            &&& k == 0 ==> at == 0
            &&& k + 1 < condensed(FilenameExtensions, tokens, source).len() ==> block_starts(
                FilenameExtensions,
                tokens,
                source,
                0,
            )[k + 1] == at + 1
            &&& k + 1 == condensed(FilenameExtensions, tokens, source).len() ==> at + 1
                == tokens.len()
        }),
{
    lemma_block_starts(FilenameExtensions, tokens, source, 0);
    let starts = block_starts(FilenameExtensions, tokens, source, 0);
    let at = starts[k];
    if k > 0 {
        assert(starts[k] == starts[k - 1] + FilenameExtensions.block(
            tokens,
            source,
            starts[k - 1],
        ).width);
    }
    if k + 1 < starts.len() {
        assert(starts[k + 1] == at + 1);
    }
}

/// Condensing filename extensions leaves none that would be condensed.
proof fn lemma_no_extension_remains(tokens: Seq<Token>, source: Seq<char>, k: int)
    requires
        0 <= k < condensed(FilenameExtensions, tokens, source).len(),
    ensures
        !FilenameExtensions::extension(condensed(FilenameExtensions, tokens, source), source, k),
{
    let out = condensed(FilenameExtensions, tokens, source);
    if FilenameExtensions::extension(out, source, k) {
        lemma_left_alone(tokens, source, k);
        lemma_left_alone(tokens, source, k + 1);
        if k > 0 {
            lemma_left_alone(tokens, source, k - 1);
        }
        if k + 2 < out.len() {
            lemma_left_alone(tokens, source, k + 2);
        }
    }
}

/// Condensing filename extensions a second time changes nothing.
pub proof fn lemma_condensing_extensions_settles(tokens: Seq<Token>, source: Seq<char>)
    ensures
        condensed(
            FilenameExtensions,
            condensed(FilenameExtensions, tokens, source),
            source,
        ) == condensed(FilenameExtensions, tokens, source),
{
    let out = condensed(FilenameExtensions, tokens, source);
    assert forall|i: int| 0 <= i < out.len() implies (#[trigger] FilenameExtensions.block(
        out,
        source,
        i,
    )) == (Block { width: 1, kind: out[i].kind }) by {
        lemma_no_extension_remains(tokens, source, i);
    }
    lemma_condensed_unchanged(FilenameExtensions, out, source, 0);
    assert(out.subrange(0, out.len() as int) == out);
}

/// Whether the letters are all lower case or all upper case ASCII letters.
fn is_one_case(chars: &[char]) -> (yes: bool)
    ensures
        yes == FilenameExtensions::one_case(chars@),
{
    let mut all_lower: bool = true;
    let mut all_upper: bool = true;
    for i in 0..chars.len()
        invariant
            all_lower == (forall|j: int| 0 <= j < i ==> is_ascii_lower(#[trigger] chars@[j])),
            all_upper == (forall|j: int| 0 <= j < i ==> is_ascii_upper(#[trigger] chars@[j])),
    {
        all_lower = all_lower && is_ascii_lower(chars[i]);
        all_upper = all_upper && is_ascii_upper(chars[i]);
    }
    all_lower || all_upper
}

/// Whether a dot and a likely filename extension start at `at`.
fn is_extension(tokens: &[Token], source: &[char], at: usize) -> (yes: bool)
    requires
        at < tokens@.len(),
        well_formed(tokens@, source@.len()),
    ensures
        yes == FilenameExtensions::extension(tokens@, source@, at as int),
{
    let count: usize = tokens.len();
    if count - at < 2 {
        return false;
    }
    let dot: Token = tokens[at];
    let word: Token = tokens[at + 1];
    if !dot.kind.is_period() || !word.kind.is_word() || word.span.len() > LONGEST_EXTENSION {
        return false;
    }
    let set_off: bool = (at == 0 || tokens[at - 1].kind.is_whitespace()) && (count - at == 2
        || tokens[at + 2].kind.is_whitespace());
    let bracketed: bool = at > 0 && tokens[at - 1].kind.is_open_round() && count - at > 2
        && tokens[at + 2].kind.is_close_round();
    (set_off || bracketed) && is_one_case(word.span.get_content(source))
}

impl Group for FilenameExtensions {
    open spec fn applies(&self, tokens: Seq<Token>) -> bool {
        true
    }

    fn block_at(&self, tokens: &[Token], source: &[char], at: usize) -> (block: (
        usize,
        TokenKind,
    )) {
        if is_extension(tokens, source, at) {
            (2, TokenKind::Unlintable)
        } else {
            (1, tokens[at].kind)
        }
    }
}

} // verus!
