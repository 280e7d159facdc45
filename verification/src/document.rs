//! Documents.

use vstd::prelude::*;
use std::rc::Rc;
use crate::annotate::annotate;
use crate::blank_runs::{
    lemma_condensing_keeps_blanks, make_breaks, with_breaks, BlankRuns,
};
use crate::chars::{chars_of, string_from_chars};
use crate::condense::{condense, condensed, lemma_condensed_blanks, lemma_condensed_well_formed};
use crate::dictionary::{curated_lookup, lookup_in, Dictionary, FstDictionary};
use crate::expr::{
    condense_matches, matches_tokens, Expr, FirstMatchOf, Matches, Pattern, Repeating,
    SequenceExpr,
};
use crate::extensions::FilenameExtensions;
use crate::initialisms::Initialisms;
use crate::kept::lemma_lexed_keeps_text;
use crate::laws::blanks::{
    breaks_made, lemma_breaks_made, lemma_newlines_merged, lemma_spaces_merged, newlines_merged,
    spaces_merged,
};
use crate::laws::contractions::{contractions_merged, lemma_contractions_merged};
use crate::laws::ellipses::{ellipses_merged, lemma_ellipses_merged};
use crate::laws::extensions::{extensions_merged, lemma_extensions_merged};
use crate::laws::initialisms::{initialisms_merged, lemma_initialisms_merged};
use crate::laws::latin::{latin_merged, lemma_latin_merged};
use crate::laws::nominal::{are_nominal_phrases, lemma_phrases_found};
use crate::laws::ordinals::{lemma_ordinals_merged, ordinals_merged};
use crate::laws::parse::{is_made_of, lemma_parse_is_made};
use crate::laws::quotes::{lemma_quotes_matched, quotes_matched};
use crate::laws::searching::{lemma_touched_listed, lists_touched};
use crate::laws::stretches::{lemma_stretches_merged, stretches_merged};
use crate::metadata::WordMetadata;
use crate::nominal::{are_phrases, find_phrases};
use crate::parsers::{lexed, Markdown, MarkdownOptions, Parser, PlainEnglish};
use crate::phrases::{
    contraction_expr, contraction_pattern, ellipsis_pattern, latin_expr, latin_patterns,
    lemma_contractions, lemma_ellipses, lemma_latin_phrases, Contractions, Ellipses, LatinPhrases,
    PERIODS_OF_ELLIPSIS,
};
use crate::positions::{lemma_positions, overlapping, positions, positions_overlapping};
use crate::punctuation::Punctuation;
use crate::quotes::{fill_twins, with_twins};
use crate::settle::{
    agree, is_parse_of, lemma_every_char_is_covered, lemma_parse_well_formed,
    lemma_same_spans_well_formed, settled,
};
use crate::span::Span;
use crate::stretches::{
    condense_stretches, lemma_suffixes_are_stretches, mark_suffixes, NumberSuffixes, Stretches,
};
use crate::token::{
    blanks, lemma_blanks_pointwise, refers_to, spelled, tiles, well_formed, FatStringToken,
    FatToken, Token,
};
use crate::token_kind::TokenKind;
use crate::token_string_ext::TokenStringExt;

verus! {

/// A shared value.
pub type Lrc<T> = Rc<T>;

/// A document containing some amount of lexed and parsed English text.
///
/// The tokens of a document lie in order within its text, and the blanks and line ends that they
/// stand for can be counted.
#[derive(Debug)]
pub struct Document {
    source: Lrc<Vec<char>>,
    tokens: Vec<Token>,
}

/// The token that is `offset` tokens away from the one at `base`, if there is one.
pub open spec fn token_at_offset(tokens: Seq<Token>, base: usize, offset: int) -> Option<Token> {
    if 0 <= base + offset < tokens.len() {
        Some(tokens[base + offset])
    } else {
        None
    }
}

/// The direction that an offset points in: forwards, backwards or nowhere.
pub open spec fn signum(offset: isize) -> int {
    if offset > 0 {
        1
    } else if offset < 0 {
        -1
    } else {
        0
    }
}

/// The word one token beyond `offset`, if whitespace stands at `offset`.
pub open spec fn word_beyond(tokens: Seq<Token>, base: usize, offset: isize) -> Option<Token> {
    match (
        token_at_offset(tokens, base, offset as int),
        token_at_offset(tokens, base, offset + signum(offset)),
    ) {
        (Some(gap), Some(word)) => if gap.kind.is_whitespace() && word.kind.is_word() {
            Some(word)
        } else {
            None
        },
        _ => None,
    }
}

/// A word stands beyond an offset exactly where whitespace stands at the offset and a word at the
/// next one in the same direction, and it is that word. So none stands beyond an offset of zero.
pub proof fn lemma_word_beyond(tokens: Seq<Token>, base: usize, offset: isize)
    ensures
        ({
            let gap = token_at_offset(tokens, base, offset as int);
            let next = token_at_offset(tokens, base, offset + signum(offset));
            word_beyond(tokens, base, offset) == if gap is Some && gap->0.kind.is_whitespace()
                && next is Some && next->0.kind.is_word() {
                next
            } else {
                None
            }
        }),
        offset == 0 ==> word_beyond(tokens, base, offset) is None,
{
}

/// Whether the token is whitespace.
pub open spec fn is_gap(token: Token) -> bool {
    token.kind is Space || token.kind is Newline
}

/// Whether the token covers the character at `at`, or covers nothing and stands there.
pub open spec fn stands_at(token: Token, at: usize) -> bool {
    token.span.start == at || token.span.start < at < token.span.end
}

/// A character is covered by no more than one token.
pub proof fn lemma_one_token_covers(tokens: Seq<Token>, len: nat, at: int, i: int, j: int)
    requires
        well_formed(tokens, len),
        0 <= i < tokens.len(),
        0 <= j < tokens.len(),
        tokens[i].span.start <= at < tokens[i].span.end,
        tokens[j].span.start <= at < tokens[j].span.end,
    ensures
        i == j,
{
}

/// Where tokens cover a text, one stands at each of its characters.
pub proof fn lemma_token_at_every_char(tokens: Seq<Token>, len: nat, at: usize)
    requires
        tiles(tokens, 0, len as int),
        at < len,
    ensures
        exists|i: int| 0 <= i < tokens.len() && stands_at(#[trigger] tokens[i], at),
{
    lemma_every_char_is_covered(tokens, 0, len as int, at as int);
    let i = choose|i: int|
        0 <= i < tokens.len() && (#[trigger] tokens[i]).span.start <= at < tokens[i].span.end;
    assert(stands_at(tokens[i], at));
}

/// A span of one character touches the tokens that cover the character, and no others.
pub proof fn lemma_touching_is_covering(token: Token, at: usize)
    requires
        at < usize::MAX,
    ensures
        overlapping(Span { start: at, end: (at + 1) as usize })(token) <==> token.span.start <= at
            < token.span.end,
{
}

/// Leaves the kind of a condensed token as it is.
fn keep_kind(token: &mut Token)
    ensures
        *final(token) == *old(token),
{
}

/// Makes a condensed token an ellipsis.
fn make_ellipsis(token: &mut Token)
    ensures
        *final(token) == (Token {
            span: old(token).span,
            kind: TokenKind::Punctuation(Punctuation::Ellipsis),
        }),
{
    token.kind = TokenKind::Punctuation(Punctuation::Ellipsis);
}

impl Document {
    /// The text of the document.
    pub closed spec fn text(&self) -> Seq<char> {
        self.source@
    }

    /// The tokens of the document.
    pub closed spec fn token_seq(&self) -> Seq<Token> {
        self.tokens@
    }

    /// Whether the document holds a text and what became of the tokens that a parser made of it,
    /// with what a dictionary knows of the words.
    pub open spec fn made_of(
        &self,
        text: Seq<char>,
        tokens: Seq<Token>,
        lookup: spec_fn(Seq<char>) -> Option<WordMetadata>,
    ) -> bool {
        &&& self.text() == text
        &&& is_parse_of(self.token_seq(), tokens, text, lookup)
    }

    /// Whether two documents hold the same text, and tokens that agree.
    pub open spec fn agrees_with(&self, other: &Document, tokens: Seq<Token>) -> bool {
        &&& self.text() == other.text()
        &&& agree(self.token_seq(), other.token_seq(), tokens, self.text())
    }

    #[verifier::type_invariant]
    spec fn in_order(self) -> bool {
        &&& well_formed(self.tokens@, self.source@.len())
        &&& blanks(self.tokens@) <= usize::MAX
    }

    /// Locate all the tokens that intersect a provided span.
    pub fn token_indices_intersecting(&self, span: Span) -> (indices: Vec<usize>)
        ensures
            indices@ == positions(self.token_seq(), overlapping(span)),
            lists_touched(self.token_seq(), span, indices@),
    {
        let count: usize = self.tokens.len();
        proof {
            lemma_touched_listed(self.tokens@, span);
        }
        positions_overlapping(self.tokens.as_slice(), span)
    }

    /// Locate all the tokens that intersect a provided span and convert them to [`FatToken`]s.
    pub fn fat_tokens_intersecting(&self, span: Span) -> (fat: Vec<FatToken>)
        ensures
            fat@.len() == positions(self.token_seq(), overlapping(span)).len(),
            forall|k: int|
                0 <= k < fat@.len() ==> (#[trigger] fat@[k]).holds(
                    self.token_seq()[positions(self.token_seq(), overlapping(span))[k] as int],
                    self.text(),
                ),
            exists|indices: Seq<usize>|
                #![trigger lists_touched(self.token_seq(), span, indices)]
                lists_touched(self.token_seq(), span, indices) && indices.len() == fat@.len()
                    && forall|k: int|
                    0 <= k < fat@.len() ==> (#[trigger] fat@[k]).kind
                        == self.token_seq()[indices[k] as int].kind && fat@[k].content@
                        == self.text().subrange(
                        self.token_seq()[indices[k] as int].span.start as int,
                        self.token_seq()[indices[k] as int].span.end as int,
                    ),
    {
        proof {
            use_type_invariant(self);
        }
        let indices: Vec<usize> = self.token_indices_intersecting(span);
        let count: usize = self.tokens.len();
        proof {
            lemma_positions(self.tokens@, overlapping(span));
        }
        let mut fat: Vec<FatToken> = Vec::new();
        for k in 0..indices.len()
            invariant
                well_formed(self.tokens@, self.source@.len()),
                indices@ == positions(self.tokens@, overlapping(span)),
                forall|i: int|
                    0 <= i < indices@.len() ==> (#[trigger] indices@[i]) < self.tokens@.len(),
                fat@.len() == k,
                forall|i: int|
                    0 <= i < k ==> (#[trigger] fat@[i]).holds(
                        self.tokens@[indices@[i] as int],
                        self.source@,
                    ),
        {
            fat.push(self.tokens[indices[k]].to_fat(self.source.as_slice()));
        }
        fat
    }

    /// Lexes and parses text to produce a document using a provided language
    /// parser and dictionary.
    pub fn new<P: Parser, D: Dictionary>(text: &str, parser: &P, dictionary: &D) -> (document: Self)
        ensures
            document.text() == text@,
            is_parse_of(
                document.token_seq(),
                parser.tokens(text@),
                text@,
                lookup_in(*dictionary),
            ),
            is_made_of(
                document.token_seq(),
                parser.tokens(text@),
                text@,
                lookup_in(*dictionary),
            ),
            well_formed(document.token_seq(), text@.len()),
    {
        let source: Vec<char> = chars_of(text);
        Self::new_from_vec(Lrc::new(source), parser, dictionary)
    }

    /// Lexes and parses text to produce a document using a provided language
    /// parser and dictionary.
    pub fn new_from_vec<P: Parser, D: Dictionary>(
        source: Lrc<Vec<char>>,
        parser: &P,
        dictionary: &D,
    ) -> (document: Self)
        ensures
            document.text() == source@,
            is_parse_of(
                document.token_seq(),
                parser.tokens(source@),
                source@,
                lookup_in(*dictionary),
            ),
            is_made_of(
                document.token_seq(),
                parser.tokens(source@),
                source@,
                lookup_in(*dictionary),
            ),
            well_formed(document.token_seq(), source@.len()),
    {
        let tokens: Vec<Token> = parser.parse(source.as_slice());
        let mut document = Document { source, tokens };
        document.parse(dictionary);
        proof {
            use_type_invariant(&document);
        }
        document
    }

    /// Lexes and parses text to produce a document using a provided language
    /// parser and the included curated dictionary.
    pub fn new_curated<P: Parser>(text: &str, parser: &P) -> (document: Self)
        ensures
            document.text() == text@,
            is_parse_of(document.token_seq(), parser.tokens(text@), text@, curated_lookup()),
            is_made_of(
                document.token_seq(),
                parser.tokens(text@),
                text@,
                curated_lookup(),
            ),
            well_formed(document.token_seq(), text@.len()),
    {
        let source: Vec<char> = chars_of(text);
        Self::new_from_vec(Lrc::new(source), parser, &FstDictionary::curated())
    }

    /// Parse text to produce a document using the built-in [`PlainEnglish`]
    /// parser and curated dictionary.
    pub fn new_plain_english_curated(text: &str) -> (document: Self)
        ensures
            document.text() == text@,
            is_parse_of(
                document.token_seq(),
                lexed(PlainEnglish, text@),
                text@,
                curated_lookup(),
            ),
            is_made_of(
                document.token_seq(),
                lexed(PlainEnglish, text@),
                text@,
                curated_lookup(),
            ),
            well_formed(document.token_seq(), text@.len()),
            tiles(document.token_seq(), 0, text@.len() as int),
            spelled(document.token_seq(), text@) == text@,
    {
        let document: Document = Self::new(text, &PlainEnglish, &FstDictionary::curated());
        let len: usize = document.source.len();
        proof {
            lemma_lexed_keeps_text(PlainEnglish, document.token_seq(), text@, curated_lookup());
        }
        document
    }

    /// Parse text to produce a document using the built-in [`PlainEnglish`]
    /// parser and a provided dictionary.
    pub fn new_plain_english<D: Dictionary>(text: &str, dictionary: &D) -> (document: Self)
        ensures
            document.text() == text@,
            is_parse_of(
                document.token_seq(),
                lexed(PlainEnglish, text@),
                text@,
                lookup_in(*dictionary),
            ),
            is_made_of(
                document.token_seq(),
                lexed(PlainEnglish, text@),
                text@,
                lookup_in(*dictionary),
            ),
            well_formed(document.token_seq(), text@.len()),
            tiles(document.token_seq(), 0, text@.len() as int),
            spelled(document.token_seq(), text@) == text@,
    {
        let document: Document = Self::new(text, &PlainEnglish, dictionary);
        let len: usize = document.source.len();
        proof {
            lemma_lexed_keeps_text(
                PlainEnglish,
                document.token_seq(),
                text@,
                lookup_in(*dictionary),
            );
        }
        document
    }

    /// Parse text to produce a document using the built-in [`Markdown`] parser
    /// and curated dictionary.
    pub fn new_markdown_curated(text: &str, markdown_options: MarkdownOptions) -> (document: Self)
        ensures
            document.text() == text@,
            is_parse_of(
                document.token_seq(),
                lexed(Markdown { options: markdown_options }, text@),
                text@,
                curated_lookup(),
            ),
            is_made_of(
                document.token_seq(),
                lexed(Markdown { options: markdown_options }, text@),
                text@,
                curated_lookup(),
            ),
            well_formed(document.token_seq(), text@.len()),
            tiles(document.token_seq(), 0, text@.len() as int),
            spelled(document.token_seq(), text@) == text@,
    {
        let document: Document = Self::new(
            text,
            &Markdown::new(markdown_options),
            &FstDictionary::curated(),
        );
        let len: usize = document.source.len();
        proof {
            lemma_lexed_keeps_text(
                Markdown { options: markdown_options },
                document.token_seq(),
                text@,
                curated_lookup(),
            );
        }
        document
    }

    /// Parse text to produce a document using the built-in [`Markdown`] parser
    /// and curated dictionary with the default Markdown configuration.
    pub fn new_markdown_default_curated(text: &str) -> (document: Self)
        ensures
            document.text() == text@,
            is_parse_of(
                document.token_seq(),
                lexed(Markdown { options: MarkdownOptions { ignore_link_title: false } }, text@),
                text@,
                curated_lookup(),
            ),
            is_made_of(
                document.token_seq(),
                lexed(Markdown { options: MarkdownOptions { ignore_link_title: false } }, text@),
                text@,
                curated_lookup(),
            ),
            well_formed(document.token_seq(), text@.len()),
            tiles(document.token_seq(), 0, text@.len() as int),
            spelled(document.token_seq(), text@) == text@,
    {
        Self::new_markdown_curated(text, MarkdownOptions::default())
    }

    /// Parse text to produce a document using the built-in [`Markdown`] parser
    /// and a provided dictionary.
    pub fn new_markdown<D: Dictionary>(
        text: &str,
        markdown_options: MarkdownOptions,
        dictionary: &D,
    ) -> (document: Self)
        ensures
            document.text() == text@,
            is_parse_of(
                document.token_seq(),
                lexed(Markdown { options: markdown_options }, text@),
                text@,
                lookup_in(*dictionary),
            ),
            is_made_of(
                document.token_seq(),
                lexed(Markdown { options: markdown_options }, text@),
                text@,
                lookup_in(*dictionary),
            ),
            well_formed(document.token_seq(), text@.len()),
            tiles(document.token_seq(), 0, text@.len() as int),
            spelled(document.token_seq(), text@) == text@,
    {
        let document: Document = Self::new(text, &Markdown::new(markdown_options), dictionary);
        let len: usize = document.source.len();
        proof {
            lemma_lexed_keeps_text(
                Markdown { options: markdown_options },
                document.token_seq(),
                text@,
                lookup_in(*dictionary),
            );
        }
        document
    }

    /// Parse text to produce a document using the built-in [`Markdown`] parser
    /// and a provided dictionary with the default Markdown configuration.
    pub fn new_markdown_default<D: Dictionary>(text: &str, dictionary: &D) -> (document: Self)
        ensures
            document.text() == text@,
            is_parse_of(
                document.token_seq(),
                lexed(Markdown { options: MarkdownOptions { ignore_link_title: false } }, text@),
                text@,
                lookup_in(*dictionary),
            ),
            is_made_of(
                document.token_seq(),
                lexed(Markdown { options: MarkdownOptions { ignore_link_title: false } }, text@),
                text@,
                lookup_in(*dictionary),
            ),
            well_formed(document.token_seq(), text@.len()),
            tiles(document.token_seq(), 0, text@.len() as int),
            spelled(document.token_seq(), text@) == text@,
    {
        Self::new_markdown(text, MarkdownOptions::default(), dictionary)
    }

    /// Re-parse important language constructs.
    pub fn parse<D: Dictionary>(&mut self, dictionary: &D)
        ensures
            final(self).text() == old(self).text(),
            is_parse_of(
                final(self).token_seq(),
                old(self).token_seq(),
                old(self).text(),
                lookup_in(*dictionary),
            ),
            is_made_of(
                final(self).token_seq(),
                old(self).token_seq(),
                old(self).text(),
                lookup_in(*dictionary),
            ),
    {
        let count: usize = self.tokens.len();
        let ghost raw = self.tokens@;
        let ghost text = self.source@;
        proof {
            use_type_invariant(&*self);
        }
        self.condense_spaces();
        self.condense_newlines();
        self.newlines_to_breaks();
        self.condense_contractions();
        self.condense_dotted_initialisms();
        self.condense_number_suffixes();
        self.condense_ellipsis();
        self.condense_latin();
        self.condense_filename_extensions();
        self.match_quotes();
        assert(self.tokens@ == settled(raw, text));
        proof {
            use_type_invariant(&*self);
        }
        let (tokens, marks) = annotate(
            self.tokens.as_slice(),
            self.source.as_slice(),
            dictionary,
        );
        proof {
            lemma_same_spans_well_formed(self.tokens@, tokens@, self.source@.len());
            lemma_blanks_pointwise(self.tokens@, tokens@);
        }
        self.tokens = tokens;
        proof {
            lemma_parse_is_made(self.tokens@, raw, text, lookup_in(*dictionary));
        }
    }

    /// Get the token that stands at a character.
    ///
    /// It is the token that covers the character, or one that covers nothing and stands in front
    /// of it.
    pub fn get_token_at_char_index(&self, char_index: usize) -> (found: Option<&Token>)
        requires
            self.token_seq().len() > 0 ==> char_index < usize::MAX,
        ensures
            found is None <==> forall|i: int|
                0 <= i < self.token_seq().len() ==> !stands_at(
                    #[trigger] self.token_seq()[i],
                    char_index,
                ),
            found matches Some(token) ==> self.token_seq().contains(*token) && stands_at(
                *token,
                char_index,
            ) && token.span.fits(self.text().len()),
            found is Some <==> exists|i: int|
                0 <= i < self.token_seq().len() && ((#[trigger] self.token_seq()[i]).span.start
                    == char_index || self.token_seq()[i].span.start < char_index
                    < self.token_seq()[i].span.end),
            found matches Some(token) ==> token.span.start == char_index || token.span.start
                < char_index < token.span.end,
    {
        proof {
            use_type_invariant(self);
        }
        let mut low: usize = 0;
        let mut high: usize = self.tokens.len();
        while low < high
            invariant
                well_formed(self.tokens@, self.source@.len()),
                self.tokens@.len() > 0 ==> char_index < usize::MAX,
                low <= high <= self.tokens@.len(),
                forall|i: int|
                    0 <= i < low ==> !stands_at(#[trigger] self.tokens@[i], char_index),
                forall|i: int|
                    high <= i < self.tokens@.len() ==> !stands_at(
                        #[trigger] self.tokens@[i],
                        char_index,
                    ),
            decreases high - low,
        {
            let middle: usize = low + (high - low) / 2;
            let token: &Token = &self.tokens[middle];
            if token.span.start == char_index || token.span.overlaps_with(
                Span::new_with_len(char_index, 1),
            ) {
                assert(stands_at(self.token_seq()[middle as int], char_index));
                return Some(token);
            }
            if token.span.start < char_index {
                assert forall|i: int| 0 <= i < middle + 1 implies !stands_at(
                    #[trigger] self.tokens@[i],
                    char_index,
                ) by {
                    if i < middle {
                        assert(self.tokens@[i].span.end <= self.tokens@[middle as int].span.start);
                    }
                }
                low = middle + 1;
            } else {
                assert forall|i: int| middle <= i < self.tokens@.len() implies !stands_at(
                    #[trigger] self.tokens@[i],
                    char_index,
                ) by {
                    if middle < i {
                        assert(self.tokens@[middle as int].span.end <= self.tokens@[i].span.start);
                    }
                }
                high = middle;
            }
        }
        None
    }

    /// Defensively attempt to grab a specific token.
    pub fn get_token(&self, index: usize) -> (found: Option<&Token>)
        ensures
            refers_to(found, token_at_offset(self.token_seq(), index, 0)),
            found matches Some(token) ==> token.span.fits(self.text().len()),
            found is Some <==> index < self.token_seq().len(),
            found matches Some(token) ==> *token == self.token_seq()[index as int],
    {
        proof {
            use_type_invariant(self);
        }
        if index < self.tokens.len() {
            Some(&self.tokens[index])
        } else {
            None
        }
    }

    /// Get a token at a signed offset from a base index, or None if out of bounds.
    pub fn get_token_offset(&self, base: usize, offset: isize) -> (found: Option<&Token>)
        ensures
            refers_to(found, token_at_offset(self.token_seq(), base, offset as int)),
            found matches Some(token) ==> token.span.fits(self.text().len()),
            found is Some <==> 0 <= base + offset < self.token_seq().len(),
            found matches Some(token) ==> *token == self.token_seq()[base + offset],
    {
        let count: usize = self.tokens.len();
        match base.checked_add_signed(offset) {
            None => None,
            Some(index) => self.get_token(index),
        }
    }

    /// Get an iterator over all the tokens contained in the document.
    pub fn tokens(&self) -> (tokens: std::slice::Iter<'_, Token>)
        ensures
            vstd::std_specs::iter::IteratorSpec::remaining(&tokens) == self.token_seq().as_ref(),
    {
        self.tokens.as_slice().iter()
    }

    /// Get the nominal phrases: the longest stretches of members of noun phrases, and of
    /// whitespace between them.
    pub fn iter_nominal_phrases(&self) -> (phrases: Vec<&[Token]>)
        ensures
            are_phrases(phrases@, self.token_seq()),
            are_nominal_phrases(phrases@, self.token_seq()),
    {
        proof {
            lemma_phrases_found(self.tokens@);
        }
        find_phrases(self.tokens.as_slice())
    }

    /// Get all the tokens contained in the document, each with its characters.
    pub fn fat_tokens(&self) -> (fat: Vec<FatToken>)
        ensures
            fat@.len() == self.token_seq().len(),
            forall|i: int|
                0 <= i < fat@.len() ==> (#[trigger] fat@[i]).holds(
                    self.token_seq()[i],
                    self.text(),
                ),
            forall|i: int|
                0 <= i < fat@.len() ==> (#[trigger] fat@[i]).kind == self.token_seq()[i].kind
                    && fat@[i].content@ == self.text().subrange(
                    self.token_seq()[i].span.start as int,
                    self.token_seq()[i].span.end as int,
                ),
    {
        proof {
            use_type_invariant(self);
        }
        let mut fat: Vec<FatToken> = Vec::new();
        for at in 0..self.tokens.len()
            invariant
                well_formed(self.tokens@, self.source@.len()),
                fat@.len() == at,
                forall|i: int|
                    0 <= i < at ==> (#[trigger] fat@[i]).holds(self.tokens@[i], self.source@),
        {
            fat.push(self.tokens[at].to_fat(self.source.as_slice()));
        }
        fat
    }

    /// Get the next or previous word token relative to a base index, if separated by whitespace.
    /// Returns None if the next/previous token is not a word or does not exist.
    pub fn get_next_word_from_offset(&self, base: usize, offset: isize) -> (found: Option<&Token>)
        ensures
            refers_to(found, word_beyond(self.token_seq(), base, offset)),
            found matches Some(token) ==> token.span.fits(self.text().len()),
            offset == 0 ==> found is None,
            offset > 0 ==> (found is Some <==> 0 <= base + offset && base + offset + 1
                < self.token_seq().len() && is_gap(self.token_seq()[base + offset])
                && self.token_seq()[base + offset + 1].kind is Word),
            offset < 0 ==> (found is Some <==> 1 <= base + offset < self.token_seq().len()
                && is_gap(self.token_seq()[base + offset]) && self.token_seq()[base + offset
                - 1].kind is Word),
            found matches Some(token) ==> *token == self.token_seq()[if offset > 0 {
                base + offset + 1
            } else {
                base + offset - 1
            }],
    {
        let count: usize = self.tokens.len();
        // Look for whitespace at the expected offset
        let gap: usize = match base.checked_add_signed(offset) {
            Some(index) => index,
            None => {
                return None;
            },
        };
        match self.get_token(gap) {
            Some(token) if token.kind.is_whitespace() => {},
            _ => {
                return None;
            },
        }
        // Now look beyond the whitespace for a word token
        let beyond: Option<usize> = if offset > 0 {
            gap.checked_add(1)
        } else if offset < 0 {
            gap.checked_sub(1)
        } else {
            Some(gap)
        };
        match beyond {
            Some(index) => match self.get_token(index) {
                Some(word) if word.kind.is_word() => Some(word),
                _ => None,
            },
            None => None,
        }
    }

    /// Get all the tokens contained in the document, each with its characters as a string.
    pub fn fat_string_tokens(&self) -> (fat: Vec<FatStringToken>)
        ensures
            fat@.len() == self.token_seq().len(),
            forall|i: int|
                0 <= i < fat@.len() ==> (#[trigger] fat@[i]).holds(
                    self.token_seq()[i],
                    self.text(),
                ),
            forall|i: int|
                0 <= i < fat@.len() ==> (#[trigger] fat@[i]).kind == self.token_seq()[i].kind
                    && fat@[i].content@ == self.text().subrange(
                    self.token_seq()[i].span.start as int,
                    self.token_seq()[i].span.end as int,
                ),
    {
        proof {
            use_type_invariant(self);
        }
        let mut fat: Vec<FatStringToken> = Vec::new();
        for at in 0..self.tokens.len()
            invariant
                well_formed(self.tokens@, self.source@.len()),
                fat@.len() == at,
                forall|i: int|
                    0 <= i < at ==> (#[trigger] fat@[i]).holds(self.tokens@[i], self.source@),
        {
            fat.push(self.tokens[at].to_fat(self.source.as_slice()).into_string_token());
        }
        fat
    }

    /// Get the characters of the document that a span covers.
    pub fn get_span_content(&self, span: &Span) -> (content: &[char])
        requires
            span.fits(self.text().len()),
        ensures
            content@ == span.content(self.text()),
            content@ == self.text().subrange(span.start as int, span.end as int),
    {
        span.get_content(self.source.as_slice())
    }

    /// Get the characters of the document that a span covers, as a string.
    pub fn get_span_content_str(&self, span: &Span) -> (content: String)
        requires
            span.fits(self.text().len()),
        ensures
            content@ == span.content(self.text()),
            content@ == self.text().subrange(span.start as int, span.end as int),
    {
        string_from_chars(self.get_span_content(span))
    }

    /// Get the text of the document as a string.
    pub fn get_full_string(&self) -> (text: String)
        ensures
            text@ == self.text(),
    {
        proof {
            assert(self.text().subrange(0, self.text().len() as int) == self.text());
        }
        self.get_span_content_str(&Span::new(0, self.source.len()))
    }

    /// Get the characters of the document.
    pub fn get_full_content(&self) -> (content: &[char])
        ensures
            content@ == self.text(),
    {
        self.source.as_slice()
    }

    /// Get the characters of the document.
    pub fn get_source(&self) -> (source: &[char])
        ensures
            source@ == self.text(),
    {
        self.source.as_slice()
    }

    /// Get the tokens of the document.
    pub fn get_tokens(&self) -> (tokens: &[Token])
        ensures
            tokens@ == self.token_seq(),
            well_formed(tokens@, self.text().len()),
    {
        proof {
            use_type_invariant(self);
        }
        self.tokens.as_slice()
    }

    /// The text of the tokens, one behind the other.
    pub fn to_string(&self) -> (text: String)
        ensures
            text@ == spelled(self.token_seq(), self.text()),
    {
        proof {
            use_type_invariant(self);
        }
        let mut chars: Vec<char> = Vec::new();
        let count: usize = self.tokens.len();
        assert(self.tokens@.skip(0) == self.tokens@);
        for at in 0..count
            invariant
                count == self.tokens@.len(),
                well_formed(self.tokens@, self.source@.len()),
                chars@ + spelled(self.tokens@.skip(at as int), self.source@) == spelled(
                    self.tokens@,
                    self.source@,
                ),
        {
            let ghost rest = self.tokens@.skip(at as int);
            assert(rest.drop_first() == self.tokens@.skip(at + 1));
            let content: &[char] = self.tokens[at].span.get_content(self.source.as_slice());
            let ghost before = chars@;
            chars.extend_from_slice(content);
            assert(chars@ == before + content@);
            assert(rest[0] == self.tokens@[at as int]);
            assert(before + (content@ + spelled(rest.drop_first(), self.source@)) == (before
                + content@) + spelled(rest.drop_first(), self.source@));
        }
        assert(self.tokens@.skip(count as int) == Seq::<Token>::empty());
        assert(chars@ + Seq::<char>::empty() == chars@);
        string_from_chars(chars.as_slice())
    }

    /// Searches for multiple sequential space tokens and condenses them down
    /// into one.
    pub fn condense_spaces(&mut self)
        ensures
            final(self).text() == old(self).text(),
            final(self).token_seq() == condensed(
                BlankRuns::Spaces,
                old(self).token_seq(),
                old(self).text(),
            ),
            spaces_merged(old(self).token_seq(), final(self).token_seq()),
    {
        proof {
            use_type_invariant(&*self);
            lemma_spaces_merged(self.tokens@, self.source@);
            lemma_condensed_well_formed(BlankRuns::Spaces, self.tokens@, self.source@, 0);
            lemma_condensing_keeps_blanks(BlankRuns::Spaces, self.tokens@, self.source@, 0);
            assert(self.tokens@.subrange(0, self.tokens@.len() as int) == self.tokens@);
        }
        self.tokens = condense(
            &BlankRuns::Spaces,
            self.tokens.as_slice(),
            self.source.as_slice(),
        );
    }

    /// Searches for multiple sequential newline tokens and condenses them down
    /// into one.
    pub fn condense_newlines(&mut self)
        ensures
            final(self).text() == old(self).text(),
            final(self).token_seq() == condensed(
                BlankRuns::Newlines,
                old(self).token_seq(),
                old(self).text(),
            ),
            newlines_merged(old(self).token_seq(), final(self).token_seq()),
    {
        proof {
            use_type_invariant(&*self);
            lemma_newlines_merged(self.tokens@, self.source@);
            lemma_condensed_well_formed(BlankRuns::Newlines, self.tokens@, self.source@, 0);
            lemma_condensing_keeps_blanks(BlankRuns::Newlines, self.tokens@, self.source@, 0);
            assert(self.tokens@.subrange(0, self.tokens@.len() as int) == self.tokens@);
        }
        self.tokens = condense(
            &BlankRuns::Newlines,
            self.tokens.as_slice(),
            self.source.as_slice(),
        );
    }

    /// Convert all sets of newlines greater than 2 to paragraph breaks.
    pub fn newlines_to_breaks(&mut self)
        ensures
            final(self).text() == old(self).text(),
            final(self).token_seq() == with_breaks(old(self).token_seq()),
            breaks_made(old(self).token_seq(), final(self).token_seq()),
    {
        proof {
            use_type_invariant(&*self);
            lemma_breaks_made(self.tokens@);
            lemma_same_spans_well_formed(
                self.tokens@,
                with_breaks(self.tokens@),
                self.source@.len(),
            );
            lemma_blanks_pointwise(self.tokens@, with_breaks(self.tokens@));
        }
        self.tokens = make_breaks(self.tokens.as_slice());
    }

    /// Given a list of indices, this function removes the subsequent
    /// `stretch_len - 1` elements after each index.
    ///
    /// Will extend token spans to cover removed elements.
    pub fn condense_indices(&mut self, indices: &[usize], stretch_len: usize)
        requires
            (Stretches { starts: indices@, len: stretch_len as nat }).fit(
                old(self).token_seq().len(),
            ),
        ensures
            final(self).text() == old(self).text(),
            final(self).token_seq() == condensed(
                Stretches { starts: indices@, len: stretch_len as nat },
                old(self).token_seq(),
                old(self).text(),
            ),
            stretches_merged(
                old(self).token_seq(),
                indices@,
                stretch_len as int,
                final(self).token_seq(),
            ),
    {
        let ghost rule = Stretches { starts: indices@, len: stretch_len as nat };
        proof {
            use_type_invariant(&*self);
            lemma_stretches_merged(rule, self.tokens@, self.source@);
            lemma_condensed_well_formed(rule, self.tokens@, self.source@, 0);
            lemma_condensed_blanks(rule, self.tokens@, self.source@, 0);
            assert(self.tokens@.subrange(0, self.tokens@.len() as int) == self.tokens@);
        }
        self.tokens = condense_stretches(
            self.tokens.as_slice(),
            indices,
            stretch_len,
            Ghost(self.source@),
        );
    }

    /// Searches for number suffixes and condenses them down into single tokens.
    pub fn condense_number_suffixes(&mut self)
        ensures
            final(self).text() == old(self).text(),
            final(self).token_seq() == condensed(
                NumberSuffixes,
                old(self).token_seq(),
                old(self).text(),
            ),
            ordinals_merged(old(self).token_seq(), old(self).text(), final(self).token_seq()),
    {
        proof {
            use_type_invariant(&*self);
            lemma_ordinals_merged(self.tokens@, self.source@);
        }
        let (marked, starts) = mark_suffixes(self.tokens.as_slice(), self.source.as_slice());
        proof {
            lemma_suffixes_are_stretches(starts@, self.tokens@, self.source@, 0);
            lemma_same_spans_well_formed(self.tokens@, marked@, self.source@.len());
            lemma_blanks_pointwise(self.tokens@, marked@);
        }
        self.tokens = marked;
        self.condense_indices(starts.as_slice(), 2);
    }

    /// Condenses words like "i.e.", "e.g." and "N.S.A." down to single words.
    pub fn condense_dotted_initialisms(&mut self)
        ensures
            final(self).text() == old(self).text(),
            final(self).token_seq() == condensed(
                Initialisms,
                old(self).token_seq(),
                old(self).text(),
            ),
            initialisms_merged(old(self).token_seq(), final(self).token_seq()),
    {
        proof {
            use_type_invariant(&*self);
            lemma_initialisms_merged(self.tokens@, self.source@);
            lemma_condensed_well_formed(Initialisms, self.tokens@, self.source@, 0);
            lemma_condensed_blanks(Initialisms, self.tokens@, self.source@, 0);
            assert(self.tokens@.subrange(0, self.tokens@.len() as int) == self.tokens@);
        }
        self.tokens = condense(&Initialisms, self.tokens.as_slice(), self.source.as_slice());
    }

    /// Condenses likely filename extensions down to single tokens.
    pub fn condense_filename_extensions(&mut self)
        ensures
            final(self).text() == old(self).text(),
            final(self).token_seq() == condensed(
                FilenameExtensions,
                old(self).token_seq(),
                old(self).text(),
            ),
            extensions_merged(old(self).token_seq(), old(self).text(), final(self).token_seq()),
    {
        proof {
            use_type_invariant(&*self);
            lemma_extensions_merged(self.tokens@, self.source@);
            lemma_condensed_well_formed(FilenameExtensions, self.tokens@, self.source@, 0);
            lemma_condensed_blanks(FilenameExtensions, self.tokens@, self.source@, 0);
            assert(self.tokens@.subrange(0, self.tokens@.len() as int) == self.tokens@);
        }
        self.tokens = condense(
            &FilenameExtensions,
            self.tokens.as_slice(),
            self.source.as_slice(),
        );
    }

    /// Condenses each match of an expression down to a single token.
    ///
    /// Assumes that the first matched token is the canonical one to be condensed into.
    /// Takes a callback that can be used to retroactively edit the canonical token afterwards;
    /// `effect` is what the callback does to the kind of the token, whose span it leaves alone.
    fn condense_expr<E: Expr, F: Fn(&mut Token)>(
        &mut self,
        expr: &E,
        edit: F,
        Ghost(effect): Ghost<spec_fn(TokenKind) -> TokenKind>,
    )
        requires
            matches_tokens(*expr, old(self).token_seq(), old(self).text()),
            forall|kind: TokenKind| (#[trigger] effect(kind)).blanks() <= kind.blanks(),
            forall|token: &mut Token| #[trigger] call_requires(edit, (token,)),
            forall|token: &mut Token| #[trigger]
                call_ensures(edit, (token,), ()) ==> *final(token) == (Token {
                    span: token.span,
                    kind: effect(token.kind),
                }),
        ensures
            final(self).text() == old(self).text(),
            final(self).token_seq() == condensed(
                Matches { expr: *expr, effect },
                old(self).token_seq(),
                old(self).text(),
            ),
    {
        proof {
            use_type_invariant(&*self);
            let rule = Matches { expr: *expr, effect };
            lemma_condensed_well_formed(rule, self.tokens@, self.source@, 0);
            lemma_condensed_blanks(rule, self.tokens@, self.source@, 0);
            assert(self.tokens@.subrange(0, self.tokens@.len() as int) == self.tokens@);
        }
        self.tokens = condense_matches(
            self.tokens.as_slice(),
            self.source.as_slice(),
            expr,
            edit,
            Ghost(effect),
        );
    }

    /// The expression that matches Latin phrases.
    pub fn uncached_latin_expr() -> (expr: Lrc<FirstMatchOf>)
        ensures
            expr@ == latin_patterns(),
    {
        latin_expr()
    }

    /// Condenses Latin phrases down to single tokens.
    pub fn condense_latin(&mut self)
        ensures
            final(self).text() == old(self).text(),
            final(self).token_seq() == condensed(
                LatinPhrases,
                old(self).token_seq(),
                old(self).text(),
            ),
            latin_merged(old(self).token_seq(), old(self).text(), final(self).token_seq()),
    {
        let expr: Lrc<FirstMatchOf> = Self::uncached_latin_expr();
        proof {
            lemma_latin_merged(self.tokens@, self.source@);
            lemma_latin_phrases(&*expr, self.tokens@, self.source@);
        }
        self.condense_expr(
            &*expr,
            keep_kind,
            Ghost(|kind: TokenKind| kind),
        );
    }

    /// The expression that matches the periods of an ellipsis.
    pub fn uncached_ellipsis_pattern() -> (expr: Lrc<Repeating>)
        ensures
            expr.inner() == seq![Pattern::Period],
            expr.required() == PERIODS_OF_ELLIPSIS,
    {
        ellipsis_pattern()
    }

    /// Condenses the periods of an ellipsis down to a single token.
    pub fn condense_ellipsis(&mut self)
        ensures
            final(self).text() == old(self).text(),
            final(self).token_seq() == condensed(Ellipses, old(self).token_seq(), old(self).text()),
            ellipses_merged(old(self).token_seq(), final(self).token_seq()),
    {
        let expr: Lrc<Repeating> = Self::uncached_ellipsis_pattern();
        proof {
            lemma_ellipses_merged(self.tokens@, self.source@);
            lemma_ellipses(&*expr, self.tokens@, self.source@);
        }
        self.condense_expr(
            &*expr,
            make_ellipsis,
            Ghost(|kind: TokenKind| TokenKind::Punctuation(Punctuation::Ellipsis)),
        );
    }

    /// The expression that matches contractions.
    pub fn uncached_contraction_expr() -> (expr: Lrc<SequenceExpr>)
        ensures
            expr@ == contraction_pattern(),
    {
        contraction_expr()
    }

    /// Searches for contractions and condenses them down into single
    /// tokens.
    pub fn condense_contractions(&mut self)
        ensures
            final(self).text() == old(self).text(),
            final(self).token_seq() == condensed(
                Contractions,
                old(self).token_seq(),
                old(self).text(),
            ),
            contractions_merged(old(self).token_seq(), final(self).token_seq()),
    {
        let expr: Lrc<SequenceExpr> = Self::uncached_contraction_expr();
        proof {
            lemma_contractions_merged(self.tokens@, self.source@);
            lemma_contractions(&*expr, self.tokens@, self.source@);
        }
        self.condense_expr(
            &*expr,
            keep_kind,
            Ghost(|kind: TokenKind| kind),
        );
    }

    /// Searches for quotation marks and tells each mark of a pair where the other one is.
    pub fn match_quotes(&mut self)
        ensures
            final(self).text() == old(self).text(),
            final(self).token_seq() == with_twins(old(self).token_seq()),
            quotes_matched(old(self).token_seq(), final(self).token_seq()),
    {
        let count: usize = self.tokens.len();
        proof {
            use_type_invariant(&*self);
            lemma_quotes_matched(self.tokens@);
            lemma_same_spans_well_formed(
                self.tokens@,
                with_twins(self.tokens@),
                self.source@.len(),
            );
            lemma_blanks_pointwise(self.tokens@, with_twins(self.tokens@));
        }
        self.tokens = fill_twins(self.tokens.as_slice());
    }
}

impl Default for Document {
    fn default() -> (document: Self)
        ensures
            document.text() == Seq::<char>::empty(),
            document.token_seq() == Seq::<Token>::empty(),
    {
        proof {
            reveal_strlit("");
        }
        let document: Document = Self::new("", &PlainEnglish, &FstDictionary::curated());
        assert(document.text() == Seq::<char>::empty());
        proof {
            lemma_parse_well_formed(
                document.token_seq(),
                lexed(PlainEnglish, ""@),
                ""@,
                curated_lookup(),
            );
        }
        document
    }
}

impl TokenStringExt for Document {
    open spec fn held(&self) -> Seq<Token> {
        self.token_seq()
    }

    fn as_tokens(&self) -> (tokens: &[Token]) {
        self.tokens.as_slice()
    }
}

impl Clone for Document {
    fn clone(&self) -> (copy: Self)
        ensures
            copy.text() == self.text(),
            copy.token_seq() == self.token_seq(),
    {
        proof {
            use_type_invariant(self);
        }
        let tokens: Vec<Token> = self.tokens.clone();
        assert(tokens@ == self.tokens@);
        Document { source: self.source.clone(), tokens }
    }
}

} // verus!
