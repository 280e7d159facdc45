//! The passes that a document goes through after it was cut into tokens.

use vstd::prelude::*;
use crate::annotate::{annotated, chunked, lemma_annotated_alike, marks_decided, without_marks};
use crate::blank_runs::{with_breaks, BlankRuns};
use crate::condense::{
    condensed, lemma_condensed_tiles, lemma_condensed_well_formed, Grouping,
};
use crate::extensions::FilenameExtensions;
use crate::initialisms::Initialisms;
use crate::metadata::WordMetadata;
use crate::phrases::{Contractions, Ellipses, LatinPhrases};
use crate::quotes::with_twins;
use crate::stretches::NumberSuffixes;
use crate::token::{lemma_rest_tiles, lemma_tiles_spell, spelled, tiles, well_formed, Token};

verus! {

/// The tokens with blanks condensed and paragraphs parted.
pub open spec fn with_blanks_settled(tokens: Seq<Token>, source: Seq<char>) -> Seq<Token> {
    with_breaks(
        condensed(BlankRuns::Newlines, condensed(BlankRuns::Spaces, tokens, source), source),
    )
}

/// The tokens with what belongs together condensed: blanks, contractions, initialisms, ordinals,
/// ellipses, Latin phrases and filename extensions, in this order.
pub open spec fn fully_condensed(tokens: Seq<Token>, source: Seq<char>) -> Seq<Token> {
    let blanks = with_blanks_settled(tokens, source);
    let contractions = condensed(Contractions, blanks, source);
    let initialisms = condensed(Initialisms, contractions, source);
    let ordinals = condensed(NumberSuffixes, initialisms, source);
    let ellipses = condensed(Ellipses, ordinals, source);
    let phrases = condensed(LatinPhrases, ellipses, source);
    condensed(FilenameExtensions, phrases, source)
}

/// The tokens once everything was condensed and the quotation marks were paired.
pub open spec fn settled(tokens: Seq<Token>, source: Seq<char>) -> Seq<Token> {
    with_twins(fully_condensed(tokens, source))
}

/// Whether `out` is what a document makes of the tokens that a parser gave it: the settled
/// tokens, with the metadata of the words. Which words are members of noun phrases is for the
/// chunker to say, which is asked for each sentence with the tags of its words.
pub open spec fn is_parse_of(
    out: Seq<Token>,
    tokens: Seq<Token>,
    source: Seq<char>,
    lookup: spec_fn(Seq<char>) -> Option<WordMetadata>,
) -> bool {
    exists|np_members: Seq<bool>|
        chunked(settled(tokens, source), source, np_members) && out == #[trigger] annotated(
            settled(tokens, source),
            source,
            lookup,
            np_members,
        )
}

/// Whether two documents that were made of the same tokens agree: in everything but which words
/// are marked as members of noun phrases, and in that too where the chunker has but one way to
/// mark the sentences.
pub open spec fn agree(
    a: Seq<Token>,
    b: Seq<Token>,
    tokens: Seq<Token>,
    source: Seq<char>,
) -> bool {
    &&& without_marks(a) == without_marks(b)
    &&& marks_decided(settled(tokens, source), source) ==> a == b
}

/// Two parses of the same tokens, text and words agree.
pub proof fn lemma_parses_agree(
    a: Seq<Token>,
    b: Seq<Token>,
    tokens: Seq<Token>,
    source: Seq<char>,
    lookup: spec_fn(Seq<char>) -> Option<WordMetadata>,
)
    requires
        is_parse_of(a, tokens, source, lookup),
        is_parse_of(b, tokens, source, lookup),
    ensures
        agree(a, b, tokens, source),
{
    let all = settled(tokens, source);
    let marks_a = choose|marks: Seq<bool>|
        chunked(all, source, marks) && a == #[trigger] annotated(all, source, lookup, marks);
    let marks_b = choose|marks: Seq<bool>|
        chunked(all, source, marks) && b == #[trigger] annotated(all, source, lookup, marks);
    lemma_annotated_alike(all, source, lookup, marks_a, marks_b);
}

/// Whether the tokens have the same spans.
pub open spec fn same_spans(a: Seq<Token>, b: Seq<Token>) -> bool {
    &&& a.len() == b.len()
    &&& forall|i: int| 0 <= i < a.len() ==> (#[trigger] a[i]).span == b[i].span
}

/// Tokens with the spans of tokens that lie in order lie in order.
pub proof fn lemma_same_spans_well_formed(a: Seq<Token>, b: Seq<Token>, len: nat)
    requires
        same_spans(a, b),
        well_formed(a, len),
    ensures
        well_formed(b, len),
{
    assert forall|i: int| 0 <= i < b.len() implies (#[trigger] b[i]).span.fits(len) by {
        assert(a[i].span == b[i].span);
    }
    assert forall|i: int, j: int| 0 <= i < j < b.len() implies (#[trigger] b[i]).span.end <= (
    #[trigger] b[j]).span.start by {
        assert(a[i].span == b[i].span);
        assert(a[j].span == b[j].span);
    }
}

/// Tokens with the spans of tokens that cover a stretch cover it too.
pub proof fn lemma_same_spans_tile(a: Seq<Token>, b: Seq<Token>, from: int, to: int)
    requires
        same_spans(a, b),
        tiles(a, from, to),
    ensures
        tiles(b, from, to),
{
    assert forall|i: int| 0 <= i < b.len() implies (#[trigger] b[i]).span.start
        <= b[i].span.end by {
        assert(a[i].span == b[i].span);
    }
    assert forall|i: int, j: int| 0 <= i && j == i + 1 && j < b.len() implies (
    #[trigger] b[i]).span.end == (#[trigger] b[j]).span.start by {
        assert(a[i].span == b[i].span);
        assert(a[j].span == b[j].span);
    }
    if b.len() > 0 {
        assert(a[0].span == b[0].span);
        assert(a[a.len() - 1].span == b[b.len() - 1].span);
    }
}

/// One pass keeps tokens that cover a text covering it.
pub proof fn lemma_pass_tiles<G: Grouping>(rule: G, tokens: Seq<Token>, source: Seq<char>)
    requires
        tiles(tokens, 0, source.len() as int),
        well_formed(tokens, source.len()),
    ensures
        tiles(condensed(rule, tokens, source), 0, source.len() as int),
{
    if tokens.len() > 0 {
        lemma_condensed_tiles(rule, tokens, source, 0, source.len() as int);
    } else {
        assert(condensed(rule, tokens, source) == Seq::<Token>::empty());
    }
}

/// Condensing everything keeps the tokens in order and within the text, and gives no more
/// tokens than there were.
pub proof fn lemma_fully_condensed_well_formed(tokens: Seq<Token>, source: Seq<char>)
    requires
        well_formed(tokens, source.len()),
    ensures
        well_formed(fully_condensed(tokens, source), source.len()),
        fully_condensed(tokens, source).len() <= tokens.len(),
{
    let spaces = condensed(BlankRuns::Spaces, tokens, source);
    lemma_condensed_well_formed(BlankRuns::Spaces, tokens, source, 0);
    let newlines = condensed(BlankRuns::Newlines, spaces, source);
    lemma_condensed_well_formed(BlankRuns::Newlines, spaces, source, 0);
    let blanks = with_breaks(newlines);
    lemma_same_spans_well_formed(newlines, blanks, source.len());
    let contractions = condensed(Contractions, blanks, source);
    lemma_condensed_well_formed(Contractions, blanks, source, 0);
    let initialisms = condensed(Initialisms, contractions, source);
    lemma_condensed_well_formed(Initialisms, contractions, source, 0);
    let ordinals = condensed(NumberSuffixes, initialisms, source);
    lemma_condensed_well_formed(NumberSuffixes, initialisms, source, 0);
    let ellipses = condensed(Ellipses, ordinals, source);
    lemma_condensed_well_formed(Ellipses, ordinals, source, 0);
    let phrases = condensed(LatinPhrases, ellipses, source);
    lemma_condensed_well_formed(LatinPhrases, ellipses, source, 0);
    lemma_condensed_well_formed(FilenameExtensions, phrases, source, 0);
}

/// Condensing everything keeps tokens that cover the text covering it.
pub proof fn lemma_fully_condensed_tiles(tokens: Seq<Token>, source: Seq<char>)
    requires
        well_formed(tokens, source.len()),
        tiles(tokens, 0, source.len() as int),
    ensures
        tiles(fully_condensed(tokens, source), 0, source.len() as int),
{
    let spaces = condensed(BlankRuns::Spaces, tokens, source);
    lemma_condensed_well_formed(BlankRuns::Spaces, tokens, source, 0);
    lemma_pass_tiles(BlankRuns::Spaces, tokens, source);
    let newlines = condensed(BlankRuns::Newlines, spaces, source);
    lemma_condensed_well_formed(BlankRuns::Newlines, spaces, source, 0);
    lemma_pass_tiles(BlankRuns::Newlines, spaces, source);
    let blanks = with_breaks(newlines);
    lemma_same_spans_well_formed(newlines, blanks, source.len());
    lemma_same_spans_tile(newlines, blanks, 0, source.len() as int);
    let contractions = condensed(Contractions, blanks, source);
    lemma_condensed_well_formed(Contractions, blanks, source, 0);
    lemma_pass_tiles(Contractions, blanks, source);
    let initialisms = condensed(Initialisms, contractions, source);
    lemma_condensed_well_formed(Initialisms, contractions, source, 0);
    lemma_pass_tiles(Initialisms, contractions, source);
    let ordinals = condensed(NumberSuffixes, initialisms, source);
    lemma_condensed_well_formed(NumberSuffixes, initialisms, source, 0);
    lemma_pass_tiles(NumberSuffixes, initialisms, source);
    let ellipses = condensed(Ellipses, ordinals, source);
    lemma_condensed_well_formed(Ellipses, ordinals, source, 0);
    lemma_pass_tiles(Ellipses, ordinals, source);
    let phrases = condensed(LatinPhrases, ellipses, source);
    lemma_condensed_well_formed(LatinPhrases, ellipses, source, 0);
    lemma_pass_tiles(LatinPhrases, ellipses, source);
    lemma_pass_tiles(FilenameExtensions, phrases, source);
}

/// A parsed document has its tokens in order and within the text.
pub proof fn lemma_parse_well_formed(
    out: Seq<Token>,
    tokens: Seq<Token>,
    source: Seq<char>,
    lookup: spec_fn(Seq<char>) -> Option<WordMetadata>,
)
    requires
        well_formed(tokens, source.len()),
        is_parse_of(out, tokens, source, lookup),
    ensures
        well_formed(out, source.len()),
        out.len() <= tokens.len(),
{
    lemma_fully_condensed_well_formed(tokens, source);
    lemma_same_spans_well_formed(fully_condensed(tokens, source), out, source.len());
}

/// No text is lost or doubled: where the tokens of the parser cover the text, so do those of the
/// parsed document, and put one behind the other they spell the text.
pub proof fn lemma_parse_keeps_text(
    out: Seq<Token>,
    tokens: Seq<Token>,
    source: Seq<char>,
    lookup: spec_fn(Seq<char>) -> Option<WordMetadata>,
)
    requires
        well_formed(tokens, source.len()),
        tiles(tokens, 0, source.len() as int),
        is_parse_of(out, tokens, source, lookup),
    ensures
        tiles(out, 0, source.len() as int),
        spelled(out, source) == source,
{
    lemma_fully_condensed_tiles(tokens, source);
    lemma_same_spans_tile(fully_condensed(tokens, source), out, 0, source.len() as int);
    lemma_tiles_spell(out, source, 0);
    assert(source.subrange(0, source.len() as int) == source);
}

/// Looking up words, tagging and chunking changes nothing but the metadata of words: every token
/// keeps its span, a word stays a word, and any other token stays what it was.
pub proof fn lemma_annotation_keeps_tokens(
    tokens: Seq<Token>,
    source: Seq<char>,
    lookup: spec_fn(Seq<char>) -> Option<WordMetadata>,
    np_members: Seq<bool>,
    at: int,
)
    requires
        0 <= at < tokens.len(),
    ensures
        annotated(tokens, source, lookup, np_members).len() == tokens.len(),
        annotated(tokens, source, lookup, np_members)[at].span == tokens[at].span,
        tokens[at].kind.is_word() ==> annotated(
            tokens,
            source,
            lookup,
            np_members,
        )[at].kind.is_word(),
        !tokens[at].kind.is_word() ==> annotated(tokens, source, lookup, np_members)[at]
            == tokens[at],
{
}

/// Where tokens cover a text, each of its characters is covered by one of them.
pub proof fn lemma_every_char_is_covered(tokens: Seq<Token>, from: int, to: int, at: int)
    requires
        tiles(tokens, from, to),
        from <= at < to,
    ensures
        exists|i: int|
            0 <= i < tokens.len() && (#[trigger] tokens[i]).span.start <= at < tokens[i].span.end,
    decreases tokens.len(),
{
    if at < tokens[0].span.end {
        assert(tokens[0].span.start <= at < tokens[0].span.end);
    } else {
        let rest = tokens.drop_first();
        let next: int = tokens[0].span.end as int;
        lemma_rest_tiles(tokens, from, to);
        lemma_every_char_is_covered(rest, next, to, at);
        let i = choose|i: int|
            0 <= i < rest.len() && (#[trigger] rest[i]).span.start <= at < rest[i].span.end;
        assert(tokens[i + 1] == rest[i]);
    }
}

} // verus!
