//! Looking for tokens.

use vstd::prelude::*;
use crate::metadata::WordMetadata;
use crate::pieces::{lemma_piece_end, lemma_pieces_cover, piece_end, pieces, pieces_from};
use crate::positions::{lemma_positions, overlapping, positions, TokenClass};
use crate::punctuation::Punctuation;
use crate::span::Span;
use crate::token::Token;
use crate::token_kind::TokenKind;
use crate::token_string_ext::{
    first_position, first_solid, last_position, sentence_word_position,
};

verus! {

/// Whether tokens of the kind are of the class.
pub open spec fn is_of(class: TokenClass, kind: TokenKind) -> bool {
    match class {
        TokenClass::Adjective => kind matches TokenKind::Word(Some(known)) && known.adjective,
        TokenClass::Apostrophe => kind == TokenKind::Punctuation(Punctuation::Apostrophe),
        TokenClass::At => kind == TokenKind::Punctuation(Punctuation::At),
        TokenClass::ChunkTerminator => is_of_terminator(kind) || kind == TokenKind::Punctuation(
            Punctuation::Comma,
        ) || kind == TokenKind::Punctuation(Punctuation::Colon) || (
        kind matches TokenKind::Punctuation(Punctuation::Quote(_))),
        TokenClass::Comma => kind == TokenKind::Punctuation(Punctuation::Comma),
        TokenClass::Conjunction => kind matches TokenKind::Word(Some(known)) && known.conjunction,
        TokenClass::Currency => kind matches TokenKind::Punctuation(Punctuation::Currency(_)),
        TokenClass::Ellipsis => kind == TokenKind::Punctuation(Punctuation::Ellipsis),
        TokenClass::Hostname => kind is Hostname,
        TokenClass::LikelyHomograph => kind matches TokenKind::Word(Some(known))
            && !known.determiner && !known.preposition && several_readings(known),
        TokenClass::LinkingVerb => kind matches TokenKind::Word(Some(known)) && known.verb is Some
            && known.verb->0.is_linking,
        TokenClass::Noun => kind matches TokenKind::Word(Some(known)) && known.noun is Some,
        TokenClass::Number => kind is Number,
        TokenClass::ParagraphBreak => kind is ParagraphBreak,
        TokenClass::Pipe => kind == TokenKind::Punctuation(Punctuation::Pipe),
        TokenClass::Preposition => kind matches TokenKind::Word(Some(known)) && known.preposition,
        TokenClass::Punctuation => kind is Punctuation,
        TokenClass::Quote => kind matches TokenKind::Punctuation(Punctuation::Quote(_)),
        TokenClass::SentenceTerminator => is_of_terminator(kind),
        TokenClass::Space => kind is Space,
        TokenClass::Unlintable => kind is Unlintable,
        TokenClass::Verb => kind matches TokenKind::Word(Some(known)) && known.verb is Some,
        TokenClass::Word => kind is Word,
        TokenClass::WordLike => kind is Word || kind is EmailAddress || kind is Hostname
            || kind is Decade || kind is Number,
    }
}

/// Whether tokens of the kind end a sentence.
pub open spec fn is_of_terminator(kind: TokenKind) -> bool {
    ||| kind == TokenKind::Punctuation(Punctuation::Period)
    ||| kind == TokenKind::Punctuation(Punctuation::Bang)
    ||| kind == TokenKind::Punctuation(Punctuation::Question)
    ||| kind is ParagraphBreak
}

/// Whether a word that is neither a determiner nor a preposition can be more than one part of
/// speech.
pub open spec fn several_readings(known: WordMetadata) -> bool {
    ||| known.noun is Some && (known.pronoun || known.verb is Some || known.adjective
        || known.adverb || known.conjunction)
    ||| known.pronoun && (known.verb is Some || known.adjective || known.adverb
        || known.conjunction)
    ||| known.verb is Some && (known.adjective || known.adverb || known.conjunction)
    ||| known.adjective && (known.adverb || known.conjunction)
    ||| known.adverb && known.conjunction
}

/// What each class of tokens holds.
pub proof fn lemma_classes(class: TokenClass, kind: TokenKind)
    ensures
        class.has(kind) == is_of(class, kind),
{
}

/// Whether the indices are those of the tokens of a class, each once and in order.
pub open spec fn lists_class(tokens: Seq<Token>, class: TokenClass, indices: Seq<usize>) -> bool {
    &&& forall|k: int|
        0 <= k < indices.len() ==> (#[trigger] indices[k]) < tokens.len() && is_of(
            class,
            tokens[indices[k] as int].kind,
        )
    &&& forall|k: int, l: int|
        0 <= k < l < indices.len() ==> (#[trigger] indices[k]) < (#[trigger] indices[l])
    &&& forall|i: int|
        0 <= i < tokens.len() && is_of(class, (#[trigger] tokens[i]).kind) ==> indices.contains(
            i as usize,
        )
}

/// Looking for a class finds the tokens of the class, all of them and in order.
pub proof fn lemma_class_listed(tokens: Seq<Token>, class: TokenClass)
    requires
        tokens.len() <= usize::MAX,
    ensures
        lists_class(tokens, class, positions(tokens, class.test())),
{
    let indices = positions(tokens, class.test());
    lemma_positions(tokens, class.test());
    assert forall|k: int| 0 <= k < indices.len() implies (#[trigger] indices[k]) < tokens.len()
        && is_of(class, tokens[indices[k] as int].kind) by {
        lemma_classes(class, tokens[indices[k] as int].kind);
    }
    assert forall|i: int|
        0 <= i < tokens.len() && is_of(class, (#[trigger] tokens[i]).kind) implies indices.contains(
        i as usize,
    ) by {
        lemma_classes(class, tokens[i].kind);
        assert(class.test()(tokens[i]));
    }
}

/// The first token of a class has none of the class in front of it, and the last none behind it;
/// nothing is found only where there is none.
pub proof fn lemma_first_and_last(tokens: Seq<Token>, class: TokenClass)
    requires
        tokens.len() <= usize::MAX,
    ensures
        match first_position(tokens, class) {
            Some(at) => at < tokens.len() && is_of(class, tokens[at as int].kind) && forall|i: int|
                0 <= i < at ==> !is_of(class, (#[trigger] tokens[i]).kind),
            None => forall|i: int|
                0 <= i < tokens.len() ==> !is_of(class, (#[trigger] tokens[i]).kind),
        },
        match last_position(tokens, class) {
            Some(at) => at < tokens.len() && is_of(class, tokens[at as int].kind) && forall|i: int|
                at < i < tokens.len() ==> !is_of(class, (#[trigger] tokens[i]).kind),
            None => forall|i: int|
                0 <= i < tokens.len() ==> !is_of(class, (#[trigger] tokens[i]).kind),
        },
{
    let indices = positions(tokens, class.test());
    lemma_class_listed(tokens, class);
    assert forall|i: int| 0 <= i < tokens.len() && is_of(class, (#[trigger] tokens[i]).kind) implies
        indices.len() > 0 && indices[0] <= i <= indices[indices.len() - 1] by {
        let k = choose|k: int| 0 <= k < indices.len() && indices[k] == i as usize;
        if k > 0 {
            assert(indices[0] < indices[k]);
        }
        if k < indices.len() - 1 {
            assert(indices[k] < indices[indices.len() - 1]);
        }
    }
}

/// The first token that is not whitespace has nothing but whitespace in front of it.
pub proof fn lemma_first_solid(tokens: Seq<Token>, from: int)
    requires
        0 <= from <= tokens.len() <= usize::MAX,
    ensures
        match first_solid(tokens, from) {
            Some(at) => from <= at < tokens.len() && !(tokens[at as int].kind is Space) && !(
            tokens[at as int].kind is Newline) && forall|i: int|
                from <= i < at ==> (#[trigger] tokens[i]).kind is Space
                    || tokens[i].kind is Newline,
            None => forall|i: int|
                from <= i < tokens.len() ==> (#[trigger] tokens[i]).kind is Space
                    || tokens[i].kind is Newline,
        },
    decreases tokens.len() - from,
{
    if from < tokens.len() {
        lemma_first_solid(tokens, from + 1);
    }
}

/// The first word of a sentence has neither a word nor text that is not prose in front of it;
/// none is found only where there is no such word.
pub proof fn lemma_sentence_word(tokens: Seq<Token>)
    requires
        tokens.len() <= usize::MAX,
    ensures
        match sentence_word_position(tokens) {
            Some(at) => at < tokens.len() && tokens[at as int].kind is Word && forall|i: int|
                0 <= i < at ==> !((#[trigger] tokens[i]).kind is Word) && !(
                tokens[i].kind is Unlintable),
            None => forall|i: int|
                0 <= i < tokens.len() && (#[trigger] tokens[i]).kind is Word ==> exists|j: int|
                    0 <= j < i && (#[trigger] tokens[j]).kind is Unlintable,
        },
{
    lemma_first_and_last(tokens, TokenClass::Word);
    lemma_first_and_last(tokens, TokenClass::Unlintable);
    if sentence_word_position(tokens) is None {
        assert forall|i: int| 0 <= i < tokens.len() && (
        #[trigger] tokens[i]).kind is Word implies exists|j: int|
            0 <= j < i && (#[trigger] tokens[j]).kind is Unlintable by {
            let word = first_position(tokens, TokenClass::Word)->0 as int;
            let other = first_position(tokens, TokenClass::Unlintable)->0 as int;
            assert(is_of(TokenClass::Word, tokens[i].kind));
            assert(word <= i);
            assert(tokens[other].kind is Unlintable);
        }
    }
}

/// Whether the bounds are those of the pieces that terminators of a class cut the tokens into:
/// they follow each other without a gap, all but the last end with a terminator, and no other
/// token of a piece is one. Only where there are no tokens a piece is without tokens.
pub open spec fn pieces_cut(
    tokens: Seq<Token>,
    class: TokenClass,
    bounds: Seq<(int, int)>,
) -> bool {
    &&& bounds.len() > 0
    &&& bounds[0].0 == 0
    &&& bounds[bounds.len() - 1].1 == tokens.len()
    &&& forall|k: int, l: int|
        0 <= k && l == k + 1 && l < bounds.len() ==> (#[trigger] bounds[k]).1 == (
        #[trigger] bounds[l]).0 && is_of(class, tokens[bounds[k].1 - 1].kind)
    &&& forall|k: int|
        0 <= k < bounds.len() ==> is_piece(tokens, class, #[trigger] bounds[k])
}

/// Whether no token but the last from the first bound to the second is of the class.
pub open spec fn is_piece(tokens: Seq<Token>, class: TokenClass, bounds: (int, int)) -> bool {
    &&& 0 <= bounds.0 <= bounds.1 <= tokens.len()
    &&& tokens.len() > 0 ==> bounds.0 < bounds.1
    &&& forall|i: int| bounds.0 <= i < bounds.1 - 1 ==> !is_of(class, (#[trigger] tokens[i]).kind)
}

/// Cutting behind the terminators of a class cuts the tokens into its pieces.
pub proof fn lemma_pieces_cut(tokens: Seq<Token>, class: TokenClass)
    ensures
        pieces_cut(tokens, class, pieces(tokens, class)),
{
    lemma_pieces_cut_from(tokens, class, 0);
    lemma_pieces_cover(tokens, class, 0);
    let bounds = pieces(tokens, class);
    assert forall|k: int, l: int| 0 <= k && l == k + 1 && l < bounds.len() implies (
    #[trigger] bounds[k]).1 == (#[trigger] bounds[l]).0 && is_of(
        class,
        tokens[bounds[k].1 - 1].kind,
    ) by {
        assert(pieces_from(tokens, class, 0)[k].1 == pieces_from(tokens, class, 0)[l].0);
    }
}

proof fn lemma_pieces_cut_from(tokens: Seq<Token>, class: TokenClass, from: int)
    requires
        0 <= from <= tokens.len(),
        from == tokens.len() ==> from == 0,
    ensures
        forall|k: int|
            0 <= k < pieces_from(tokens, class, from).len() ==> is_piece(
                tokens,
                class,
                #[trigger] pieces_from(tokens, class, from)[k],
            ),
        forall|k: int|
            0 <= k < pieces_from(tokens, class, from).len() - 1 ==> is_of(
                class,
                tokens[(#[trigger] pieces_from(tokens, class, from)[k]).1 - 1].kind,
            ),
    decreases tokens.len() - from,
{
    let end = piece_end(tokens, class, from);
    let all = pieces_from(tokens, class, from);
    lemma_piece_end(tokens, class, from);
    assert(is_piece(tokens, class, (from, end))) by {
        assert forall|i: int| from <= i < end - 1 implies !is_of(
            class,
            (#[trigger] tokens[i]).kind,
        ) by {
            lemma_classes(class, tokens[i].kind);
        }
    }
    if from < end < tokens.len() {
        let rest = pieces_from(tokens, class, end);
        lemma_pieces_cut_from(tokens, class, end);
        lemma_classes(class, tokens[end - 1].kind);
        assert(all == seq![(from, end)] + rest);
        assert forall|k: int| 0 <= k < all.len() implies is_piece(
            tokens,
            class,
            #[trigger] all[k],
        ) by {
            if k > 0 {
                assert(all[k] == rest[k - 1]);
            }
        }
        assert forall|k: int| 0 <= k < all.len() - 1 implies is_of(
            class,
            tokens[(#[trigger] all[k]).1 - 1].kind,
        ) by {
            if k > 0 {
                assert(all[k] == rest[k - 1]);
            }
        }
    } else {
        assert(all == seq![(from, tokens.len() as int)]);
    }
}

/// Whether the indices are those of the tokens that share a position with the span, each once and
/// in order.
pub open spec fn lists_touched(tokens: Seq<Token>, span: Span, indices: Seq<usize>) -> bool {
    &&& forall|k: int|
        0 <= k < indices.len() ==> (#[trigger] indices[k]) < tokens.len()
            && tokens[indices[k] as int].span.start < span.end && span.start
            < tokens[indices[k] as int].span.end
    &&& forall|k: int, l: int|
        0 <= k < l < indices.len() ==> (#[trigger] indices[k]) < (#[trigger] indices[l])
    &&& forall|i: int|
        0 <= i < tokens.len() && (#[trigger] tokens[i]).span.start < span.end && span.start
            < tokens[i].span.end ==> indices.contains(i as usize)
}

/// The tokens that share a position with a span are found, all of them and in order.
pub proof fn lemma_touched_listed(tokens: Seq<Token>, span: Span)
    requires
        tokens.len() <= usize::MAX,
    ensures
        lists_touched(tokens, span, positions(tokens, overlapping(span))),
{
    lemma_positions(tokens, overlapping(span));
    assert forall|i: int|
        0 <= i < tokens.len() && (#[trigger] tokens[i]).span.start < span.end && span.start
            < tokens[i].span.end implies positions(tokens, overlapping(span)).contains(
        i as usize,
    ) by {
        assert(overlapping(span)(tokens[i]));
    }
}

} // verus!
