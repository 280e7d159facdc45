//! What a dictionary knows of a word.

use vstd::prelude::*;

verus! {

/// The universal parts of speech.
#[derive(Clone, Copy, Debug, PartialEq, Eq, Structural)]
pub enum UPOS {
    /// Adjective
    ADJ,
    /// Adposition
    ADP,
    /// Adverb
    ADV,
    /// Auxiliary
    AUX,
    /// Coordinating conjunction
    CCONJ,
    /// Determiner
    DET,
    /// Interjection
    INTJ,
    /// Noun
    NOUN,
    /// Numeral
    NUM,
    /// Particle
    PART,
    /// Pronoun
    PRON,
    /// Proper noun
    PROPN,
    /// Punctuation
    PUNCT,
    /// Subordinating conjunction
    SCONJ,
    /// Symbol
    SYM,
    /// Verb
    VERB,
}

#[derive(Clone, Copy, Debug, PartialEq, Eq, Structural)]
pub struct NounData {
    pub is_proper: bool,
}

#[derive(Clone, Copy, Debug, PartialEq, Eq, Structural)]
pub struct VerbData {
    pub is_linking: bool,
    pub is_auxiliary: bool,
}

/// The parts of speech that a word can be, and what the tagger and the chunker made of it where
/// it stands.
#[derive(Clone, Copy, Debug, PartialEq, Eq, Structural)]
pub struct WordMetadata {
    pub noun: Option<NounData>,
    pub pronoun: bool,
    pub verb: Option<VerbData>,
    pub adjective: bool,
    pub adverb: bool,
    pub conjunction: bool,
    pub determiner: bool,
    pub preposition: bool,
    /// Whether the word is part of a noun phrase.
    pub np_member: Option<bool>,
    /// The part of speech that the word has in its sentence.
    pub pos_tag: Option<UPOS>,
}

impl WordMetadata {
    /// Metadata that lists no part of speech.
    #[verifier::allow_in_spec]
    pub fn unknown() -> WordMetadata
        returns
            (WordMetadata {
                noun: None,
                pronoun: false,
                verb: None,
                adjective: false,
                adverb: false,
                conjunction: false,
                determiner: false,
                preposition: false,
                np_member: None,
                pos_tag: None,
            }),
    {
        WordMetadata {
            noun: None,
            pronoun: false,
            verb: None,
            adjective: false,
            adverb: false,
            conjunction: false,
            determiner: false,
            preposition: false,
            np_member: None,
            pos_tag: None,
        }
    }

    /// How many parts of speech the word can be.
    pub open spec fn readings(self) -> int {
        (if self.noun is Some { 1int } else { 0 })
            + (if self.pronoun { 1int } else { 0 })
            + (if self.verb is Some { 1int } else { 0 })
            + (if self.adjective { 1int } else { 0 })
            + (if self.adverb { 1int } else { 0 })
            + (if self.conjunction { 1int } else { 0 })
            + (if self.determiner { 1int } else { 0 })
            + (if self.preposition { 1int } else { 0 })
    }

    /// The tag of the only part of speech that the word can be.
    pub open spec fn sole_tag(self) -> Option<UPOS> {
        if self.readings() != 1 {
            None
        } else if self.noun is Some {
            Some(if self.noun->0.is_proper { UPOS::PROPN } else { UPOS::NOUN })
        } else if self.pronoun {
            Some(UPOS::PRON)
        } else if self.verb is Some {
            Some(if self.verb->0.is_auxiliary { UPOS::AUX } else { UPOS::VERB })
        } else if self.adjective {
            Some(UPOS::ADJ)
        } else if self.adverb {
            Some(UPOS::ADV)
        } else if self.conjunction {
            Some(UPOS::CCONJ)
        } else if self.determiner {
            Some(UPOS::DET)
        } else {
            Some(UPOS::ADP)
        }
    }

    fn count_readings(&self) -> (count: usize)
        ensures
            count == self.readings(),
    {
        (if self.noun.is_some() { 1usize } else { 0 })
            + (if self.pronoun { 1usize } else { 0 })
            + (if self.verb.is_some() { 1usize } else { 0 })
            + (if self.adjective { 1usize } else { 0 })
            + (if self.adverb { 1usize } else { 0 })
            + (if self.conjunction { 1usize } else { 0 })
            + (if self.determiner { 1usize } else { 0 })
            + (if self.preposition { 1usize } else { 0 })
    }

    /// The part of speech of a word that can be only one.
    pub fn infer_pos_tag(&self) -> (tag: Option<UPOS>)
        ensures
            tag == self.sole_tag(),
    {
        if self.count_readings() != 1 {
            return None;
        }
        if let Some(noun) = self.noun {
            return Some(if noun.is_proper { UPOS::PROPN } else { UPOS::NOUN });
        }
        if self.pronoun {
            return Some(UPOS::PRON);
        }
        if let Some(verb) = self.verb {
            return Some(if verb.is_auxiliary { UPOS::AUX } else { UPOS::VERB });
        }
        if self.adjective {
            Some(UPOS::ADJ)
        } else if self.adverb {
            Some(UPOS::ADV)
        } else if self.conjunction {
            Some(UPOS::CCONJ)
        } else if self.determiner {
            Some(UPOS::DET)
        } else {
            Some(UPOS::ADP)
        }
    }

    /// Whether the word can be more than one of noun, pronoun, verb, adjective, adverb and
    /// conjunction, and is neither a determiner nor a preposition.
    #[verifier::allow_in_spec]
    pub fn is_likely_homograph(&self) -> bool
        returns
            !self.determiner && !self.preposition && self.readings() > 1,
    {
        !self.determiner && !self.preposition && self.count_readings() > 1
    }

    /// Whether the word is a verb that links a subject to what is said of it.
    #[verifier::allow_in_spec]
    pub fn is_linking_verb(&self) -> bool
        returns
            (self.verb is Some && self.verb->0.is_linking),
    {
        match self.verb {
            Some(verb) => verb.is_linking,
            None => false,
        }
    }
}

} // verus!
