//! What a parsed document is, pass by pass.

use vstd::prelude::*;
use crate::annotate::{annotated, chunked};
use crate::blank_runs::{lemma_condensing_keeps_blanks, with_breaks, BlankRuns};
use crate::condense::condensed;
use crate::extensions::FilenameExtensions;
use crate::initialisms::Initialisms;
use crate::laws::blanks::{
    breaks_made, lemma_breaks_made, lemma_newlines_merged, lemma_spaces_merged, newlines_merged,
    spaces_merged,
};
use crate::laws::contractions::{contractions_merged, lemma_contractions_merged};
use crate::laws::ellipses::{ellipses_merged, lemma_ellipses_merged};
use crate::laws::extensions::{extensions_merged, lemma_extensions_merged};
use crate::laws::initialisms::{initialisms_merged, lemma_initialisms_merged};
use crate::laws::latin::{latin_merged, lemma_latin_merged};
use crate::laws::ordinals::{lemma_ordinals_merged, ordinals_merged};
use crate::laws::quotes::{lemma_quotes_matched, quotes_matched};
use crate::laws::words::{lemma_words_annotated, words_annotated};
use crate::metadata::WordMetadata;
use crate::phrases::{Contractions, Ellipses, LatinPhrases};
use crate::settle::{
    fully_condensed, is_parse_of, lemma_fully_condensed_well_formed, settled,
};
use crate::stretches::NumberSuffixes;
use crate::token::{blanks, well_formed, Token};

verus! {

/// The tokens of a document between the passes over it.
pub struct Stages {
    pub spaces: Seq<Token>,
    pub newlines: Seq<Token>,
    pub breaks: Seq<Token>,
    pub contractions: Seq<Token>,
    pub initialisms: Seq<Token>,
    pub ordinals: Seq<Token>,
    pub ellipses: Seq<Token>,
    pub latin: Seq<Token>,
    pub extensions: Seq<Token>,
    pub quotes: Seq<Token>,
}

/// Whether the passes lead from the tokens by the stages to `out`: first the spaces and then the
/// newlines are merged and breaks are made; then contractions, initialisms, ordinals, ellipses,
/// Latin phrases and filename extensions are merged, in this order; then the quotation marks are
/// paired, and the words are noted.
pub open spec fn staged(
    tokens: Seq<Token>,
    source: Seq<char>,
    lookup: spec_fn(Seq<char>) -> Option<WordMetadata>,
    stages: Stages,
    out: Seq<Token>,
) -> bool {
    &&& spaces_merged(tokens, stages.spaces)
    &&& newlines_merged(stages.spaces, stages.newlines)
    &&& breaks_made(stages.newlines, stages.breaks)
    &&& contractions_merged(stages.breaks, stages.contractions)
    &&& initialisms_merged(stages.contractions, stages.initialisms)
    &&& ordinals_merged(stages.initialisms, source, stages.ordinals)
    &&& ellipses_merged(stages.ordinals, stages.ellipses)
    &&& latin_merged(stages.ellipses, source, stages.latin)
    &&& extensions_merged(stages.latin, source, stages.extensions)
    &&& quotes_matched(stages.extensions, stages.quotes)
    &&& words_annotated(stages.quotes, source, lookup, out)
}

/// Whether all passes, in their order, make `out` of the tokens.
pub open spec fn is_made_of(
    out: Seq<Token>,
    tokens: Seq<Token>,
    source: Seq<char>,
    lookup: spec_fn(Seq<char>) -> Option<WordMetadata>,
) -> bool {
    exists|stages: Stages| #[trigger] staged(tokens, source, lookup, stages, out)
}

/// A parsed document is what all passes, in their order, make of the tokens of the parser.
pub proof fn lemma_parse_is_made(
    out: Seq<Token>,
    tokens: Seq<Token>,
    source: Seq<char>,
    lookup: spec_fn(Seq<char>) -> Option<WordMetadata>,
)
    requires
        tokens.len() <= usize::MAX,
        well_formed(tokens, source.len()),
        blanks(tokens) <= usize::MAX,
        is_parse_of(out, tokens, source, lookup),
    ensures
        is_made_of(out, tokens, source, lookup),
{
    let spaces = condensed(BlankRuns::Spaces, tokens, source);
    lemma_spaces_merged(tokens, source);
    lemma_condensing_keeps_blanks(BlankRuns::Spaces, tokens, source, 0);
    assert(tokens.subrange(0, tokens.len() as int) == tokens);
    let newlines = condensed(BlankRuns::Newlines, spaces, source);
    lemma_newlines_merged(spaces, source);
    let breaks = with_breaks(newlines);
    lemma_breaks_made(newlines);
    let contractions = condensed(Contractions, breaks, source);
    lemma_contractions_merged(breaks, source);
    let initialisms = condensed(Initialisms, contractions, source);
    lemma_initialisms_merged(contractions, source);
    let ordinals = condensed(NumberSuffixes, initialisms, source);
    lemma_ordinals_merged(initialisms, source);
    let ellipses = condensed(Ellipses, ordinals, source);
    lemma_ellipses_merged(ordinals, source);
    let latin = condensed(LatinPhrases, ellipses, source);
    lemma_latin_merged(ellipses, source);
    let extensions = condensed(FilenameExtensions, latin, source);
    lemma_extensions_merged(latin, source);
    assert(extensions == fully_condensed(tokens, source));
    lemma_fully_condensed_well_formed(tokens, source);
    let quotes = settled(tokens, source);
    lemma_quotes_matched(extensions);
    let np_members = choose|np_members: Seq<bool>|
        chunked(quotes, source, np_members) && out == #[trigger] annotated(
            quotes,
            source,
            lookup,
            np_members,
        );
    lemma_words_annotated(quotes, source, lookup, np_members);
    let stages = Stages {
        spaces,
        newlines,
        breaks,
        contractions,
        initialisms,
        ordinals,
        ellipses,
        latin,
        extensions,
        quotes,
    };
    assert(staged(tokens, source, lookup, stages, out));
}

} // verus!
