//! The metadata of words.

use vstd::prelude::*;
use crate::annotate::{
    annotated, annotated_sentence, chunked, chunked_around, lemma_solid_grows,
    lemma_solid_stretch, sentence_around, sentence_words, solid, tag_at,
};
use crate::metadata::{WordMetadata, UPOS};
use crate::pieces::{lemma_piece_end, lemma_piece_start, piece_end};
use crate::positions::TokenClass;
use crate::punctuation::Punctuation;
use crate::settle::{is_parse_of, settled};
use crate::tagging::{brill_tags, burn_may_mark};
use crate::token::Token;
use crate::token_kind::TokenKind;

verus! {

/// Whether the token is not whitespace.
pub open spec fn is_solid(token: Token) -> bool {
    !(token.kind is Space) && !(token.kind is Newline)
}

/// Whether a token of the kind ends a sentence.
pub open spec fn ends_sentence(kind: TokenKind) -> bool {
    ||| kind == TokenKind::Punctuation(Punctuation::Period)
    ||| kind == TokenKind::Punctuation(Punctuation::Bang)
    ||| kind == TokenKind::Punctuation(Punctuation::Question)
    ||| kind is ParagraphBreak
}

/// Whether the tokens from `s` to `e` are a sentence: they start with the document or behind the
/// end of a sentence, and reach to the next end of a sentence or to that of the document.
pub open spec fn is_sentence(tokens: Seq<Token>, s: int, e: int) -> bool {
    &&& 0 <= s < e <= tokens.len()
    &&& s == 0 || ends_sentence(tokens[s - 1].kind)
    &&& e == tokens.len() || ends_sentence(tokens[e - 1].kind)
    &&& forall|i: int| s <= i < e - 1 ==> !ends_sentence((#[trigger] tokens[i]).kind)
}

/// What is written by the tokens that are not whitespace.
pub open spec fn texts(tokens: Seq<Token>, source: Seq<char>) -> Seq<Seq<char>> {
    tokens.filter(|token: Token| is_solid(token)).map_values(
        |token: Token| source.subrange(token.span.start as int, token.span.end as int),
    )
}

/// How many of the tokens are not whitespace.
pub open spec fn solids(tokens: Seq<Token>) -> int {
    tokens.filter(|token: Token| is_solid(token)).len() as int
}

/// The part of speech of a word that can be no other.
pub open spec fn only_reading(known: WordMetadata) -> Option<UPOS> {
    match (
        (known.noun is Some, known.pronoun, known.verb is Some, known.adjective),
        (known.adverb, known.conjunction, known.determiner, known.preposition),
    ) {
        ((true, false, false, false), (false, false, false, false)) => if known.noun->0.is_proper {
            Some(UPOS::PROPN)
        } else {
            Some(UPOS::NOUN)
        },
        ((false, true, false, false), (false, false, false, false)) => Some(UPOS::PRON),
        ((false, false, true, false), (false, false, false, false)) => if known.verb->0.is_auxiliary {
            Some(UPOS::AUX)
        } else {
            Some(UPOS::VERB)
        },
        ((false, false, false, true), (false, false, false, false)) => Some(UPOS::ADJ),
        ((false, false, false, false), (true, false, false, false)) => Some(UPOS::ADV),
        ((false, false, false, false), (false, true, false, false)) => Some(UPOS::CCONJ),
        ((false, false, false, false), (false, false, true, false)) => Some(UPOS::DET),
        ((false, false, false, false), (false, false, false, true)) => Some(UPOS::ADP),
        _ => None,
    }
}

/// Whether the kind is that of a word with what the dictionary knows of it, the tag that the
/// tagger gave it, or the only one it can have where the tagger gave none, and the mark that the
/// chunker gave it.
pub open spec fn is_noted(
    kind: TokenKind,
    known: WordMetadata,
    tag: Option<UPOS>,
    mark: bool,
) -> bool {
    &&& kind matches TokenKind::Word(Some(noted)) && {
        &&& noted.np_member == Some(mark)
        &&& tag is Some ==> noted.pos_tag == tag
        &&& tag is None ==> noted.pos_tag == only_reading(known)
        &&& noted.noun == known.noun
        &&& noted.pronoun == known.pronoun
        &&& noted.verb == known.verb
        &&& noted.adjective == known.adjective
        &&& noted.adverb == known.adverb
        &&& noted.conjunction == known.conjunction
        &&& noted.determiner == known.determiner
        &&& noted.preposition == known.preposition
    }
}

/// Whether the words of the sentence from `s` to `e` are noted, where the chunker gave the marks:
/// a word that the dictionary knows is noted with the tag and the mark of its place among the
/// tokens that are not whitespace, and any other word has no metadata.
pub open spec fn sentence_noted(
    tokens: Seq<Token>,
    source: Seq<char>,
    lookup: spec_fn(Seq<char>) -> Option<WordMetadata>,
    s: int,
    e: int,
    marks: Seq<bool>,
) -> bool {
    let words = texts(tokens.subrange(s, e), source);
    &&& burn_may_mark(words, brill_tags(words), marks)
    &&& marks.len() == words.len()
    &&& forall|i: int|
        s <= i < e && (#[trigger] tokens[i]).kind is Word ==> {
            let place = solids(tokens.subrange(s, i));
            match lookup(
                source.subrange(tokens[i].span.start as int, tokens[i].span.end as int),
            ) {
                Some(known) => is_noted(
                    tokens[i].kind,
                    known,
                    brill_tags(words)[place],
                    marks[place],
                ),
                None => tokens[i].kind == TokenKind::Word(None),
            }
        }
}

/// Whether the words of all sentences are noted.
pub open spec fn words_noted(
    tokens: Seq<Token>,
    source: Seq<char>,
    lookup: spec_fn(Seq<char>) -> Option<WordMetadata>,
) -> bool {
    forall|s: int, e: int| #[trigger]
        is_sentence(tokens, s, e) ==> exists|marks: Seq<bool>| #[trigger]
            sentence_noted(tokens, source, lookup, s, e, marks)
}

/// Whether `out` holds the tokens, the words of which are noted, and everything else as it was.
pub open spec fn words_annotated(
    tokens: Seq<Token>,
    source: Seq<char>,
    lookup: spec_fn(Seq<char>) -> Option<WordMetadata>,
    out: Seq<Token>,
) -> bool {
    &&& out.len() == tokens.len()
    &&& forall|i: int|
        0 <= i < tokens.len() ==> (#[trigger] out[i]).span == tokens[i].span && (
        tokens[i].kind is Word ==> out[i].kind is Word) && (!(tokens[i].kind is Word)
            ==> out[i].kind == tokens[i].kind)
    &&& words_noted(out, source, lookup)
}

/// The words of a sentence are what its tokens write that are not whitespace.
proof fn lemma_texts(part: Seq<Token>, source: Seq<char>)
    ensures
        texts(part, source) == sentence_words(part, source),
        solids(part) == solid(part, part.len() as int),
        texts(part, source).len() == solids(part),
    decreases part.len(),
{
    reveal(Seq::filter);
    if part.len() > 0 {
        let front = part.drop_last();
        lemma_texts(front, source);
        lemma_solid_stretch(part, 0, part.len() - 1, front.len() as int);
        assert(part.subrange(0, part.len() - 1) == front);
        let test = |token: Token| is_solid(token);
        let text = |token: Token|
            source.subrange(token.span.start as int, token.span.end as int);
        if is_solid(part.last()) {
            assert(part.filter(test) == front.filter(test).push(part.last()));
            assert(texts(part, source) == texts(front, source).push(text(part.last())));
        } else {
            assert(part.filter(test) == front.filter(test));
        }
    } else {
        assert(texts(part, source) == Seq::<Seq<char>>::empty());
    }
}

/// Tokens that write the same and are whitespace in the same places write the same words.
proof fn lemma_same_texts(a: Seq<Token>, b: Seq<Token>, source: Seq<char>)
    requires
        a.len() == b.len(),
        forall|i: int|
            0 <= i < a.len() ==> (#[trigger] a[i]).span == b[i].span && is_solid(a[i]) == is_solid(
                b[i],
            ),
    ensures
        texts(a, source) == texts(b, source),
        solids(a) == solids(b),
    decreases a.len(),
{
    lemma_texts(a, source);
    lemma_texts(b, source);
    if a.len() > 0 {
        assert forall|i: int| 0 <= i < a.drop_last().len() implies (
        #[trigger] a.drop_last()[i]).span == b.drop_last()[i].span && is_solid(a.drop_last()[i])
            == is_solid(b.drop_last()[i]) by {
            assert(a[i].span == b[i].span);
        }
        lemma_same_texts(a.drop_last(), b.drop_last(), source);
        lemma_texts(a.drop_last(), source);
        lemma_texts(b.drop_last(), source);
        let last: int = a.len() - 1;
        assert(a[last].span == b[last].span);
    }
}

/// A sentence reaches from where it starts to where it ends.
proof fn lemma_sentence_bounds(tokens: Seq<Token>, s: int, e: int)
    requires
        is_sentence(tokens, s, e),
    ensures
        piece_end(tokens, TokenClass::SentenceTerminator, s) == e,
{
    let end = piece_end(tokens, TokenClass::SentenceTerminator, s);
    lemma_piece_end(tokens, TokenClass::SentenceTerminator, s);
    if end < e {
        assert(ends_sentence(tokens[end - 1].kind));
    } else if e < end {
        assert(ends_sentence(tokens[e - 1].kind));
    }
}

/// Where a word can be one part of speech only, that is the one that is inferred.
pub proof fn lemma_only_reading(known: WordMetadata)
    ensures
        known.sole_tag() == only_reading(known),
{
}

/// Annotating a document notes its words, sentence by sentence.
pub proof fn lemma_words_annotated(
    tokens: Seq<Token>,
    source: Seq<char>,
    lookup: spec_fn(Seq<char>) -> Option<WordMetadata>,
    np_members: Seq<bool>,
)
    requires
        chunked(tokens, source, np_members),
    ensures
        words_annotated(tokens, source, lookup, annotated(tokens, source, lookup, np_members)),
{
    let out = annotated(tokens, source, lookup, np_members);
    assert forall|s: int, e: int| #[trigger] is_sentence(out, s, e) implies exists|
        marks: Seq<bool>,
    | #[trigger] sentence_noted(out, source, lookup, s, e, marks) by {
        lemma_sentence_noted(tokens, source, lookup, np_members, s, e);
    }
}

proof fn lemma_sentence_noted(
    tokens: Seq<Token>,
    source: Seq<char>,
    lookup: spec_fn(Seq<char>) -> Option<WordMetadata>,
    np_members: Seq<bool>,
    s: int,
    e: int,
)
    requires
        chunked(tokens, source, np_members),
        is_sentence(annotated(tokens, source, lookup, np_members), s, e),
    ensures
        sentence_noted(
            annotated(tokens, source, lookup, np_members),
            source,
            lookup,
            s,
            e,
            np_members.subrange(solid(tokens, s), solid(tokens, e)),
        ),
{
    let terminator = TokenClass::SentenceTerminator;
    let out = annotated(tokens, source, lookup, np_members);
    assert forall|i: int| 0 <= i < tokens.len() implies ends_sentence((#[trigger] out[i]).kind)
        == ends_sentence(tokens[i].kind) && is_solid(out[i]) == is_solid(tokens[i]) by {}
    assert(is_sentence(tokens, s, e)) by {
        assert forall|i: int| s <= i < e - 1 implies !ends_sentence(
            (#[trigger] tokens[i]).kind,
        ) by {
            assert(!ends_sentence(out[i].kind));
        }
        if s > 0 {
            assert(ends_sentence(out[s - 1].kind));
        }
        if e < tokens.len() {
            assert(ends_sentence(out[e - 1].kind));
        }
    }
    lemma_sentence_bounds(tokens, s, e);
    let sentence = tokens.subrange(s, e);
    let words = sentence_words(sentence, source);
    let marks = np_members.subrange(solid(tokens, s), solid(tokens, e));
    lemma_texts(sentence, source);
    lemma_same_texts(out.subrange(s, e), sentence, source);
    lemma_solid_stretch(tokens, s, e, e - s);
    lemma_solid_grows(tokens, 0, s);
    lemma_solid_grows(tokens, s, e);
    lemma_solid_grows(tokens, e, tokens.len() as int);
    lemma_piece_start(tokens, terminator, s, s);
    assert(chunked_around(tokens, source, np_members, s));
    assert(sentence_around(tokens, s) == sentence);
    assert(burn_may_mark(words, brill_tags(words), marks));
    assert forall|i: int| s <= i < e && (#[trigger] out[i]).kind is Word implies {
        let place = solids(out.subrange(s, i));
        match lookup(source.subrange(out[i].span.start as int, out[i].span.end as int)) {
            Some(known) => is_noted(out[i].kind, known, brill_tags(words)[place], marks[place]),
            None => out[i].kind == TokenKind::Word(None),
        }
    } by {
        let part = tokens.subrange(s, i);
        lemma_texts(part, source);
        lemma_same_texts(out.subrange(s, i), part, source);
        lemma_solid_stretch(tokens, s, i, i - s);
        lemma_piece_start(tokens, terminator, s, i);
        lemma_piece_end(tokens, terminator, s);
        assert(piece_end(tokens, terminator, i) == e);
        let place = solids(out.subrange(s, i));
        assert(place == solid(tokens, i) - solid(tokens, s));
        assert(tokens[i].kind is Word);
        lemma_solid_grows(tokens, s, i);
        lemma_solid_grows(tokens, i + 1, e);
        assert(marks[place] == np_members[solid(tokens, i)]);
        assert(sentence_around(tokens, i) == sentence);
        assert(tag_at(tokens, source, i) == brill_tags(words)[place]);
        if let Some(known) = lookup(tokens[i].span.content(source)) {
            lemma_only_reading(known);
        }
    }
}

/// A word of a sentence that is given tags and marks is noted with those of its place among the
/// tokens that are not whitespace, if the dictionary knows it, and has no metadata otherwise. Any
/// other token stays as it was.
pub proof fn lemma_sentence_annotated(
    sentence: Seq<Token>,
    source: Seq<char>,
    lookup: spec_fn(Seq<char>) -> Option<WordMetadata>,
    tags: Seq<Option<UPOS>>,
    marks: Seq<bool>,
    at: int,
)
    requires
        0 <= at < sentence.len(),
    ensures
        ({
            let out = annotated_sentence(sentence, source, lookup, tags, marks);
            let place = solids(sentence.take(at));
            &&& out.len() == sentence.len()
            &&& out[at].span == sentence[at].span
            &&& !(sentence[at].kind is Word) ==> out[at] == sentence[at]
            &&& sentence[at].kind is Word ==> match lookup(
                source.subrange(sentence[at].span.start as int, sentence[at].span.end as int),
            ) {
                Some(known) => is_noted(out[at].kind, known, tags[place], marks[place]),
                None => out[at].kind == TokenKind::Word(None),
            }
        }),
{
    lemma_texts(sentence.take(at), source);
    lemma_solid_stretch(sentence, 0, at, at);
    assert(sentence.take(at) == sentence.subrange(0, at));
    if let Some(known) = lookup(sentence[at].span.content(source)) {
        lemma_only_reading(known);
    }
}

/// Every token belongs to a sentence.
pub proof fn lemma_token_in_sentence(tokens: Seq<Token>, at: int) -> (bounds: (int, int))
    requires
        0 <= at < tokens.len(),
    ensures
        is_sentence(tokens, bounds.0, bounds.1),
        bounds.0 <= at < bounds.1,
    decreases at,
{
    if at == 0 || ends_sentence(tokens[at - 1].kind) {
        let e = lemma_sentence_end(tokens, at, at);
        (at, e)
    } else {
        lemma_token_in_sentence(tokens, at - 1)
    }
}

proof fn lemma_sentence_end(tokens: Seq<Token>, s: int, at: int) -> (e: int)
    requires
        0 <= s <= at < tokens.len(),
        forall|i: int| s <= i < at ==> !ends_sentence((#[trigger] tokens[i]).kind),
    ensures
        at < e <= tokens.len(),
        e == tokens.len() || ends_sentence(tokens[e - 1].kind),
        forall|i: int| s <= i < e - 1 ==> !ends_sentence((#[trigger] tokens[i]).kind),
    decreases tokens.len() - at,
{
    if at + 1 == tokens.len() || ends_sentence(tokens[at].kind) {
        at + 1
    } else {
        lemma_sentence_end(tokens, s, at + 1)
    }
}

/// In a parsed document every word that the dictionary knows, whatever it can be, has the entry
/// of the dictionary with the mark that the chunker gave the word in its sentence and the tag
/// that the tagger gave it there; and a word that the dictionary does not know has no metadata.
pub proof fn lemma_parsed_words_noted(
    out: Seq<Token>,
    tokens: Seq<Token>,
    source: Seq<char>,
    lookup: spec_fn(Seq<char>) -> Option<WordMetadata>,
)
    requires
        is_parse_of(out, tokens, source, lookup),
    ensures
        words_noted(out, source, lookup),
{
    let all = settled(tokens, source);
    let np_members = choose|np_members: Seq<bool>|
        chunked(all, source, np_members) && out == #[trigger] annotated(
            all,
            source,
            lookup,
            np_members,
        );
    lemma_words_annotated(all, source, lookup, np_members);
}

} // verus!
