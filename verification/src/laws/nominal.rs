//! Nominal phrases.

use vstd::prelude::*;
use crate::nominal::{
    is_phrase, lemma_members_are_in_phrases, lemma_phrases_are_nominal, lemma_phrases_are_parted,
    nominal_phrases, parted, phrases_from, within_phrase,
};
use crate::token::Token;
use crate::token_kind::TokenKind;

verus! {

/// Whether the token is a word that is marked as a member of a noun phrase.
pub open spec fn is_member(token: Token) -> bool {
    token.kind matches TokenKind::Word(Some(known)) && known.np_member == Some(true)
}

/// Whether the token is a member of a noun phrase or whitespace.
pub open spec fn is_member_or_gap(token: Token) -> bool {
    is_member(token) || token.kind is Space || token.kind is Newline
}

/// Whether the tokens from `a` to `b` start and end with members of noun phrases, and nothing but
/// members and whitespace stands between.
pub open spec fn is_nominal(tokens: Seq<Token>, a: int, b: int) -> bool {
    &&& 0 <= a < b <= tokens.len()
    &&& is_member(tokens[a])
    &&& is_member(tokens[b - 1])
    &&& forall|i: int| a <= i < b ==> is_member_or_gap(#[trigger] tokens[i])
}

/// Whether something else than members of noun phrases and whitespace stands from `a` to `b`.
pub open spec fn is_broken(tokens: Seq<Token>, a: int, b: int) -> bool {
    exists|i: int| a <= i < b && !is_member_or_gap(#[trigger] tokens[i])
}

/// Whether the bounds are those of the nominal phrases: each phrase is nominal, something else
/// stands between a phrase and the next, and every member of a noun phrase is in one of them.
pub open spec fn phrases_found(tokens: Seq<Token>, bounds: Seq<(int, int)>) -> bool {
    &&& forall|k: int|
        0 <= k < bounds.len() ==> is_nominal(tokens, (#[trigger] bounds[k]).0, bounds[k].1)
    &&& forall|k: int, l: int|
        0 <= k && l == k + 1 && l < bounds.len() ==> is_broken(
            tokens,
            (#[trigger] bounds[k]).1,
            (#[trigger] bounds[l]).0,
        )
    &&& forall|i: int|
        0 <= i < tokens.len() && is_member(#[trigger] tokens[i]) ==> exists|k: int|
            0 <= k < bounds.len() && (#[trigger] bounds[k]).0 <= i < bounds[k].1
}

/// Whether the slices are the nominal phrases of the tokens, in order.
pub open spec fn are_nominal_phrases(slices: Seq<&[Token]>, tokens: Seq<Token>) -> bool {
    exists|bounds: Seq<(int, int)>| #[trigger]
        phrases_found(tokens, bounds) && bounds.len() == slices.len() && forall|k: int|
            0 <= k < slices.len() ==> (#[trigger] slices[k])@ == tokens.subrange(
                bounds[k].0,
                bounds[k].1,
            )
}

/// The nominal phrases are found.
pub proof fn lemma_phrases_found(tokens: Seq<Token>)
    ensures
        phrases_found(tokens, nominal_phrases(tokens)),
{
    let bounds = nominal_phrases(tokens);
    lemma_phrases_are_nominal(tokens, 0);
    lemma_phrases_are_parted(tokens, 0);
    assert forall|i: int| 0 <= i < tokens.len() implies is_member_or_gap(#[trigger] tokens[i])
        == within_phrase(tokens[i]) by {}
    assert forall|k: int| 0 <= k < bounds.len() implies is_nominal(
        tokens,
        (#[trigger] bounds[k]).0,
        bounds[k].1,
    ) by {
        assert(is_phrase(tokens, phrases_from(tokens, 0)[k]));
        assert forall|i: int| bounds[k].0 <= i < bounds[k].1 implies is_member_or_gap(
            #[trigger] tokens[i],
        ) by {
            assert(within_phrase(tokens[i]));
        }
    }
    assert forall|k: int, l: int| 0 <= k && l == k + 1 && l < bounds.len() implies is_broken(
        tokens,
        (#[trigger] bounds[k]).1,
        (#[trigger] bounds[l]).0,
    ) by {
        assert(parted(tokens, phrases_from(tokens, 0)[k].1, phrases_from(tokens, 0)[l].0));
        assert(is_nominal(tokens, bounds[k].0, bounds[k].1));
        assert(is_nominal(tokens, bounds[l].0, bounds[l].1));
        let i = choose|i: int|
            bounds[k].1 <= i < bounds[l].0 && !within_phrase(#[trigger] tokens[i]);
        assert(!is_member_or_gap(tokens[i]));
    }
    assert forall|i: int| 0 <= i < tokens.len() && is_member(#[trigger] tokens[i]) implies exists|
        k: int,
    | 0 <= k < bounds.len() && (#[trigger] bounds[k]).0 <= i < bounds[k].1 by {
        lemma_members_are_in_phrases(tokens, 0, i);
        let k = choose|k: int|
            0 <= k < phrases_from(tokens, 0).len() && (#[trigger] phrases_from(tokens, 0)[k]).0 <= i
                < phrases_from(tokens, 0)[k].1;
        assert(bounds[k].0 <= i < bounds[k].1);
    }
}

} // verus!
