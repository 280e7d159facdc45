//! The part-of-speech tagger and the noun phrase chunker of `harper_brill`.

use vstd::prelude::*;
use harper_brill::{Chunker, Tagger, UPOS as Tag};
use crate::metadata::UPOS;

verus! {

/// The contents of strings.
pub open spec fn contents(words: Seq<String>) -> Seq<Seq<char>> {
    words.map_values(|word: String| word@)
}

/// The parts of speech that the tagger of `harper_brill` finds in a sentence, word by word.
pub uninterp spec fn brill_tags(words: Seq<Seq<char>>) -> Seq<Option<UPOS>>;

/// Tags a sentence with `BrillTagger::tag_sentence` of the tagger that
/// `harper_brill::brill_tagger` hands out. The tags are a function of the words alone, and
/// there is one for each word. Which tags a sentence gets is a matter of the trained model and
/// is not stated.
#[verifier::external_body]
pub(crate) fn tag_sentence(words: &[String]) -> (tags: Vec<Option<UPOS>>)
    ensures
        tags@ == brill_tags(contents(words@)),
        tags@.len() == words@.len(),
{
    let tags = harper_brill::brill_tagger().tag_sentence(words);
    tags.into_iter().map(|tag| tag.map(|tag| match tag {
        Tag::ADJ => UPOS::ADJ, Tag::ADP => UPOS::ADP, Tag::ADV => UPOS::ADV,
        Tag::AUX => UPOS::AUX, Tag::CCONJ => UPOS::CCONJ, Tag::DET => UPOS::DET,
        Tag::INTJ => UPOS::INTJ, Tag::NOUN => UPOS::NOUN, Tag::NUM => UPOS::NUM,
        Tag::PART => UPOS::PART, Tag::PRON => UPOS::PRON, Tag::PROPN => UPOS::PROPN,
        Tag::PUNCT => UPOS::PUNCT, Tag::SCONJ => UPOS::SCONJ, Tag::SYM => UPOS::SYM,
        Tag::VERB => UPOS::VERB,
    })).collect()
}

/// Whether the chunker of `harper_brill` may give the words of a sentence, with the tags that they
/// have, these marks.
pub uninterp spec fn burn_may_mark(
    words: Seq<Seq<char>>,
    tags: Seq<Option<UPOS>>,
    members: Seq<bool>,
) -> bool;

/// Marks the members of noun phrases with `CachedChunker::chunk_sentence` of the chunker that
/// `harper_brill::burn_chunker` hands out, which asks for one tag for each word. There is one
/// mark for each word, and the marks are some that the chunker may give these words and tags.
/// Not stated are which marks those are, and that they are always the same: the chunker
/// compares floating-point sums, and how those are rounded depends on the machine.
#[verifier::external_body]
pub(crate) fn chunk_sentence(words: &[String], tags: &[Option<UPOS>]) -> (members: Vec<bool>)
    requires
        words@.len() == tags@.len(),
    ensures
        burn_may_mark(contents(words@), tags@, members@),
        members@.len() == words@.len(),
{
    let tags: Vec<Option<Tag>> = tags.iter().map(|tag| tag.map(|tag| match tag {
        UPOS::ADJ => Tag::ADJ, UPOS::ADP => Tag::ADP, UPOS::ADV => Tag::ADV,
        UPOS::AUX => Tag::AUX, UPOS::CCONJ => Tag::CCONJ, UPOS::DET => Tag::DET,
        UPOS::INTJ => Tag::INTJ, UPOS::NOUN => Tag::NOUN, UPOS::NUM => Tag::NUM,
        UPOS::PART => Tag::PART, UPOS::PRON => Tag::PRON, UPOS::PROPN => Tag::PROPN,
        UPOS::PUNCT => Tag::PUNCT, UPOS::SCONJ => Tag::SCONJ, UPOS::SYM => Tag::SYM,
        UPOS::VERB => Tag::VERB,
    })).collect();
    harper_brill::burn_chunker().chunk_sentence(words, &tags)
}

} // verus!
