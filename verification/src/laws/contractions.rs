//! Contractions.

use vstd::prelude::*;
use crate::condense::condensed;
use crate::laws::groups::{cut, lemma_cut, lemma_group_of};
use crate::phrases::Contractions;
use crate::punctuation::Punctuation;
use crate::token::Token;
use crate::token_kind::TokenKind;

verus! {

/// Whether a word, an apostrophe and a word follow each other from `at` on.
pub open spec fn is_contraction(tokens: Seq<Token>, at: int) -> bool {
    &&& 0 <= at
    &&& at + 2 < tokens.len()
    &&& tokens[at].kind is Word
    &&& tokens[at + 1].kind == TokenKind::Punctuation(Punctuation::Apostrophe)
    &&& tokens[at + 2].kind is Word
}

/// Whether the groups are contractions wherever one stands, and single tokens elsewhere.
pub open spec fn contraction_groups(
    tokens: Seq<Token>,
    out: Seq<Token>,
    starts: Seq<int>,
) -> bool {
    &&& cut(tokens, out, starts)
    &&& forall|k: int, l: int|
        0 <= k && l == k + 1 && l < starts.len() ==> (#[trigger] starts[l]) - (#[trigger] starts[k])
            == (if is_contraction(tokens, starts[k]) {
            3int
        } else {
            1
        }) && out[k].kind == tokens[starts[k]].kind
}

/// Whether `out` is what is left of the tokens when, from the first token on, a word, an
/// apostrophe and a word became one word wherever they stood, and nothing else changed.
pub open spec fn contractions_merged(tokens: Seq<Token>, out: Seq<Token>) -> bool {
    exists|starts: Seq<int>| #[trigger] contraction_groups(tokens, out, starts)
}

/// Condensing contractions merges a word, an apostrophe and a word wherever they stand.
pub proof fn lemma_contractions_merged(tokens: Seq<Token>, source: Seq<char>)
    ensures
        contractions_merged(tokens, condensed(Contractions, tokens, source)),
{
    let starts = lemma_cut(Contractions, tokens, source);
    assert(contraction_groups(tokens, condensed(Contractions, tokens, source), starts));
}

/// A word, an apostrophe and a word of which no earlier contraction takes the first become one
/// word that reaches over all three, whatever the words are.
pub proof fn lemma_contraction_is_one_word(
    tokens: Seq<Token>,
    source: Seq<char>,
    at: int,
) -> (k: int)
    requires
        is_contraction(tokens, at),
        !is_contraction(tokens, at - 2),
    ensures
        0 <= k < condensed(Contractions, tokens, source).len(),
        condensed(Contractions, tokens, source)[k].kind is Word,
        condensed(Contractions, tokens, source)[k].span.start == tokens[at].span.start,
        condensed(Contractions, tokens, source)[k].span.end == tokens[at + 2].span.end,
{
    let out = condensed(Contractions, tokens, source);
    lemma_contractions_merged(tokens, source);
    let starts = choose|starts: Seq<int>| #[trigger] contraction_groups(tokens, out, starts);
    let k = lemma_group_of(tokens, out, starts, at);
    assert(starts[k] < starts[k + 1]);
    assert(starts[k] == at);
    k
}

/// Where no two contractions share a word, none is left.
pub proof fn lemma_no_contraction_remains(tokens: Seq<Token>, source: Seq<char>)
    requires
        forall|i: int| #[trigger] is_contraction(tokens, i) ==> !is_contraction(tokens, i + 2),
    ensures
        forall|k: int| !#[trigger] is_contraction(condensed(Contractions, tokens, source), k),
{
    let out = condensed(Contractions, tokens, source);
    lemma_contractions_merged(tokens, source);
    let starts = choose|starts: Seq<int>| #[trigger] contraction_groups(tokens, out, starts);
    assert forall|k: int| !#[trigger] is_contraction(out, k) by {
        if is_contraction(out, k) {
            assert(starts[k] < starts[k + 1]);
            assert(starts[k + 1] < starts[k + 2]);
            assert(starts[k + 2] < starts[k + 3]);
            let mark = starts[k + 1];
            assert(starts[k + 2] == mark + 1);
            assert(is_contraction(tokens, starts[k]) || starts[k] == mark - 1);
            assert(is_contraction(tokens, mark - 1));
        }
    }
}

} // verus!
