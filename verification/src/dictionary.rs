//! Dictionaries.

use vstd::prelude::*;
use crate::chars::{chars_of, eq_letters, same_letters};
use crate::metadata::{VerbData, WordMetadata};

verus! {

/// Something that knows words.
pub trait Dictionary {
    /// What the dictionary knows of a word.
    spec fn lookup(&self, word: Seq<char>) -> Option<WordMetadata>;

    /// What the dictionary knows of a word.
    fn get_word_metadata(&self, word: &[char]) -> (metadata: Option<&WordMetadata>)
        ensures
            match self.lookup(word@) {
                Some(known) => metadata is Some && *metadata->0 == known,
                None => metadata is None,
            },
    ;
}

/// The words that a dictionary knows, as a function from a word to what is known of it.
pub open spec fn lookup_in<D: Dictionary>(dictionary: D) -> spec_fn(Seq<char>) -> Option<
    WordMetadata,
> {
    |word: Seq<char>| dictionary.lookup(word)
}

/// A word with its metadata.
struct Entry {
    word: Vec<char>,
    metadata: WordMetadata,
}

/// A dictionary that holds its words in memory.
pub struct FstDictionary {
    entries: Vec<Entry>,
}

/// What is said of the first of the words that is spelled as `word` up to the case of ASCII
/// letters.
pub open spec fn find_word(
    entries: Seq<(Seq<char>, WordMetadata)>,
    word: Seq<char>,
) -> Option<WordMetadata>
    decreases entries.len(),
{
    if entries.len() == 0 {
        None
    } else if same_letters(entries[0].0, word) {
        Some(entries[0].1)
    } else {
        find_word(entries.drop_first(), word)
    }
}

/// The metadata of a word that is only a determiner.
#[verifier::allow_in_spec]
pub fn determiner() -> WordMetadata
    returns
        (WordMetadata { determiner: true, ..WordMetadata::unknown() }),
{
    WordMetadata { determiner: true, ..WordMetadata::unknown() }
}

/// The metadata of a word that is only a pronoun.
#[verifier::allow_in_spec]
pub fn pronoun() -> WordMetadata
    returns
        (WordMetadata { pronoun: true, ..WordMetadata::unknown() }),
{
    WordMetadata { pronoun: true, ..WordMetadata::unknown() }
}

/// The metadata of a word that is only a preposition.
#[verifier::allow_in_spec]
pub fn preposition() -> WordMetadata
    returns
        (WordMetadata { preposition: true, ..WordMetadata::unknown() }),
{
    WordMetadata { preposition: true, ..WordMetadata::unknown() }
}

/// The metadata of a word that is only a conjunction.
#[verifier::allow_in_spec]
pub fn conjunction() -> WordMetadata
    returns
        (WordMetadata { conjunction: true, ..WordMetadata::unknown() }),
{
    WordMetadata { conjunction: true, ..WordMetadata::unknown() }
}

/// The metadata of a word that is only an auxiliary verb, one that links or one that does not.
#[verifier::allow_in_spec]
pub fn auxiliary(is_linking: bool) -> WordMetadata
    returns
        (WordMetadata {
            verb: Some(VerbData { is_linking, is_auxiliary: true }),
            ..WordMetadata::unknown()
        }),
{
    WordMetadata {
        verb: Some(VerbData { is_linking, is_auxiliary: true }),
        ..WordMetadata::unknown()
    }
}

/// The words of the curated dictionary.
pub open spec fn curated_entries() -> Seq<(Seq<char>, WordMetadata)> {
    seq![
        ("the"@, determiner()),
        ("a"@, determiner()),
        ("an"@, determiner()),
        ("this"@, determiner()),
        ("these"@, determiner()),
        ("every"@, determiner()),
        ("I"@, pronoun()),
        ("you"@, pronoun()),
        ("he"@, pronoun()),
        ("she"@, pronoun()),
        ("it"@, pronoun()),
        ("we"@, pronoun()),
        ("they"@, pronoun()),
        ("of"@, preposition()),
        ("in"@, preposition()),
        ("at"@, preposition()),
        ("with"@, preposition()),
        ("from"@, preposition()),
        ("into"@, preposition()),
        ("and"@, conjunction()),
        ("or"@, conjunction()),
        ("but"@, conjunction()),
        ("is"@, auxiliary(true)),
        ("are"@, auxiliary(true)),
        ("was"@, auxiliary(true)),
        ("were"@, auxiliary(true)),
        ("can"@, auxiliary(false)),
        ("must"@, auxiliary(false)),
        ("should"@, auxiliary(false)),
        ("would"@, auxiliary(false)),
    ]
}

/// What the curated dictionary knows of a word.
pub open spec fn curated_lookup() -> spec_fn(Seq<char>) -> Option<WordMetadata> {
    |word: Seq<char>| find_word(curated_entries(), word)
}

impl View for FstDictionary {
    type V = Seq<(Seq<char>, WordMetadata)>;

    closed spec fn view(&self) -> Seq<(Seq<char>, WordMetadata)> {
        self.entries@.map_values(|entry: Entry| (entry.word@, entry.metadata))
    }
}

impl FstDictionary {
    /// A dictionary without words.
    pub fn new() -> (dictionary: FstDictionary)
        ensures
            dictionary@ == Seq::<(Seq<char>, WordMetadata)>::empty(),
    {
        let dictionary = FstDictionary { entries: Vec::new() };
        assert(dictionary@ == Seq::<(Seq<char>, WordMetadata)>::empty());
        dictionary
    }

    /// Adds a word behind the others.
    pub fn add_word(&mut self, word: &str, metadata: WordMetadata)
        ensures
            final(self)@ == old(self)@.push((word@, metadata)),
    {
        let word: Vec<char> = chars_of(word);
        self.entries.push(Entry { word, metadata });
        assert(self@ == old(self)@.push((word@, metadata)));
    }

    /// The dictionary of everyday function words.
    pub fn curated() -> (dictionary: FstDictionary)
        ensures
            dictionary@ == curated_entries(),
            lookup_in(dictionary) == curated_lookup(),
    {
        let mut dictionary = FstDictionary::new();
        dictionary.add_word("the", determiner());
        dictionary.add_word("a", determiner());
        dictionary.add_word("an", determiner());
        dictionary.add_word("this", determiner());
        dictionary.add_word("these", determiner());
        dictionary.add_word("every", determiner());
        dictionary.add_word("I", pronoun());
        dictionary.add_word("you", pronoun());
        dictionary.add_word("he", pronoun());
        dictionary.add_word("she", pronoun());
        dictionary.add_word("it", pronoun());
        dictionary.add_word("we", pronoun());
        dictionary.add_word("they", pronoun());
        dictionary.add_word("of", preposition());
        dictionary.add_word("in", preposition());
        dictionary.add_word("at", preposition());
        dictionary.add_word("with", preposition());
        dictionary.add_word("from", preposition());
        dictionary.add_word("into", preposition());
        dictionary.add_word("and", conjunction());
        dictionary.add_word("or", conjunction());
        dictionary.add_word("but", conjunction());
        dictionary.add_word("is", auxiliary(true));
        dictionary.add_word("are", auxiliary(true));
        dictionary.add_word("was", auxiliary(true));
        dictionary.add_word("were", auxiliary(true));
        dictionary.add_word("can", auxiliary(false));
        dictionary.add_word("must", auxiliary(false));
        dictionary.add_word("should", auxiliary(false));
        dictionary.add_word("would", auxiliary(false));
        assert(dictionary@ == curated_entries());
        assert(lookup_in(dictionary) =~= curated_lookup());
        dictionary
    }
}

impl Dictionary for FstDictionary {
    open spec fn lookup(&self, word: Seq<char>) -> Option<WordMetadata> {
        find_word(self@, word)
    }

    fn get_word_metadata(&self, word: &[char]) -> (metadata: Option<&WordMetadata>) {
        assert(self@.skip(0) == self@);
        let mut i: usize = 0;
        while i < self.entries.len()
            invariant
                i <= self.entries@.len(),
                find_word(self@, word@) == find_word(self@.skip(i as int), word@),
            decreases self.entries@.len() - i,
        {
            assert(self@.skip(i as int)[0] == (
                self.entries@[i as int].word@,
                self.entries@[i as int].metadata,
            ));
            assert(self@.skip(i as int).drop_first() == self@.skip(i + 1));
            if eq_letters(self.entries[i].word.as_slice(), word) {
                return Some(&self.entries[i].metadata);
            }
            i = i + 1;
        }
        None
    }
}

} // verus!
