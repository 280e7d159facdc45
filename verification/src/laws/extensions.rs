//! Filename extensions.

use vstd::prelude::*;
use crate::condense::condensed;
use crate::extensions::FilenameExtensions;
use crate::laws::groups::{cut, lemma_cut, lemma_group_of};
use crate::punctuation::Punctuation;
use crate::token::Token;
use crate::token_kind::TokenKind;

verus! {

/// Whether whitespace or nothing at all stands at `at`.
pub open spec fn is_open_at(tokens: Seq<Token>, at: int) -> bool {
    0 <= at < tokens.len() ==> tokens[at].kind is Space || tokens[at].kind is Newline
}

/// Whether the mark stands at `at`.
pub open spec fn is_mark_at(tokens: Seq<Token>, at: int, mark: Punctuation) -> bool {
    0 <= at < tokens.len() && tokens[at].kind == TokenKind::Punctuation(mark)
}

/// Whether a dot and a word of at most three letters follow each other from `at` on, the letters
/// all being lower case or all upper case, and the two stand alone between whitespace or within
/// round brackets.
pub open spec fn is_extension(tokens: Seq<Token>, source: Seq<char>, at: int) -> bool {
    &&& 0 <= at
    &&& at + 1 < tokens.len()
    &&& is_mark_at(tokens, at, Punctuation::Period)
    &&& tokens[at + 1].kind is Word
    &&& tokens[at + 1].span.end - tokens[at + 1].span.start <= 3
    &&& {
        let chars = source.subrange(
            tokens[at + 1].span.start as int,
            tokens[at + 1].span.end as int,
        );
        ||| forall|i: int| 0 <= i < chars.len() ==> 'a' <= (#[trigger] chars[i]) <= 'z'
        ||| forall|i: int| 0 <= i < chars.len() ==> 'A' <= (#[trigger] chars[i]) <= 'Z'
    }
    &&& {
        ||| is_open_at(tokens, at - 1) && is_open_at(tokens, at + 2)
        ||| is_mark_at(tokens, at - 1, Punctuation::OpenRound) && is_mark_at(
            tokens,
            at + 2,
            Punctuation::CloseRound,
        )
    }
}

/// Whether the groups are filename extensions wherever one stands, and single tokens elsewhere.
pub open spec fn extension_groups(
    tokens: Seq<Token>,
    source: Seq<char>,
    out: Seq<Token>,
    starts: Seq<int>,
) -> bool {
    &&& cut(tokens, out, starts)
    &&& forall|k: int, l: int|
        0 <= k && l == k + 1 && l < starts.len() ==> (#[trigger] starts[l]) - (#[trigger] starts[k])
            == (if is_extension(tokens, source, starts[k]) {
            2int
        } else {
            1
        }) && out[k].kind == (if is_extension(tokens, source, starts[k]) {
            TokenKind::Unlintable
        } else {
            tokens[starts[k]].kind
        })
}

/// Whether `out` is what is left of the tokens when each filename extension became one token that
/// is not prose, and nothing else changed.
pub open spec fn extensions_merged(
    tokens: Seq<Token>,
    source: Seq<char>,
    out: Seq<Token>,
) -> bool {
    exists|starts: Seq<int>| #[trigger] extension_groups(tokens, source, out, starts)
}

/// Condensing filename extensions merges them wherever they stand.
pub proof fn lemma_extensions_merged(tokens: Seq<Token>, source: Seq<char>)
    ensures
        extensions_merged(tokens, source, condensed(FilenameExtensions, tokens, source)),
{
    let out = condensed(FilenameExtensions, tokens, source);
    let starts = lemma_cut(FilenameExtensions, tokens, source);
    assert forall|k: int, l: int| 0 <= k && l == k + 1 && l < starts.len() implies (
    #[trigger] starts[l]) - (#[trigger] starts[k]) == (if is_extension(
        tokens,
        source,
        starts[k],
    ) {
        2int
    } else {
        1
    }) && out[k].kind == (if is_extension(tokens, source, starts[k]) {
        TokenKind::Unlintable
    } else {
        tokens[starts[k]].kind
    }) by {
        assert(starts[k] < starts[l]);
        lemma_extension(tokens, source, starts[k]);
    }
    assert(extension_groups(tokens, source, out, starts));
}

/// What is taken for an extension is one, and every extension is taken for one.
proof fn lemma_extension(tokens: Seq<Token>, source: Seq<char>, at: int)
    requires
        0 <= at < tokens.len(),
    ensures
        is_extension(tokens, source, at) == FilenameExtensions::extension(tokens, source, at),
{
    if at + 1 < tokens.len() {
        let chars = tokens[at + 1].span.content(source);
        assert(FilenameExtensions::one_case(chars) == ((forall|i: int|
            0 <= i < chars.len() ==> 'a' <= (#[trigger] chars[i]) <= 'z') || (forall|i: int|
            0 <= i < chars.len() ==> 'A' <= (#[trigger] chars[i]) <= 'Z')));
    }
}

/// A filename extension becomes one token that reaches over the dot and the letters.
pub proof fn lemma_extension_is_one_token(
    tokens: Seq<Token>,
    source: Seq<char>,
    at: int,
) -> (k: int)
    requires
        is_extension(tokens, source, at),
    ensures
        0 <= k < condensed(FilenameExtensions, tokens, source).len(),
        condensed(FilenameExtensions, tokens, source)[k].kind == TokenKind::Unlintable,
        condensed(FilenameExtensions, tokens, source)[k].span.start == tokens[at].span.start,
        condensed(FilenameExtensions, tokens, source)[k].span.end == tokens[at + 1].span.end,
{
    let out = condensed(FilenameExtensions, tokens, source);
    lemma_extensions_merged(tokens, source);
    let starts = choose|starts: Seq<int>| #[trigger]
        extension_groups(tokens, source, out, starts);
    let k = lemma_group_of(tokens, out, starts, at);
    assert(starts[k] < starts[k + 1]);
    assert(starts[k] == at);
    k
}

} // verus!
