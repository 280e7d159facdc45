//! Looking for tokens in a document or in a part of one.

use vstd::prelude::*;
use crate::pieces::{are_pieces, split_behind};
use crate::positions::{
    lemma_positions, positions, positions_in_class, TokenClass,
};
use crate::span::Span;
use crate::token::{well_formed, Token};

verus! {

/// The index of the first token of a class.
pub open spec fn first_position(tokens: Seq<Token>, class: TokenClass) -> Option<usize> {
    let all = positions(tokens, class.test());
    if all.len() == 0 {
        None
    } else {
        Some(all[0])
    }
}

/// The index of the last token of a class.
pub open spec fn last_position(tokens: Seq<Token>, class: TokenClass) -> Option<usize> {
    let all = positions(tokens, class.test());
    if all.len() == 0 {
        None
    } else {
        Some(all.last())
    }
}

/// Whether `found` is the token at the index.
pub open spec fn is_at(found: Option<&Token>, tokens: Seq<Token>, index: Option<usize>) -> bool {
    match index {
        Some(at) => found is Some && *found->0 == tokens[at as int],
        None => found is None,
    }
}

/// Whether `found` holds the tokens at the indices, in their order.
pub open spec fn are_at(found: Seq<&Token>, tokens: Seq<Token>, indices: Seq<usize>) -> bool {
    &&& found.len() == indices.len()
    &&& forall|k: int|
        0 <= k < found.len() ==> *(#[trigger] found[k]) == tokens[indices[k] as int]
}

fn token_at<'a>(tokens: &'a [Token], index: Option<usize>) -> (found: Option<&'a Token>)
    requires
        index matches Some(at) ==> at < tokens@.len(),
    ensures
        is_at(found, tokens@, index),
{
    match index {
        Some(at) => Some(&tokens[at]),
        None => None,
    }
}

fn find_first(tokens: &[Token], class: TokenClass) -> (index: Option<usize>)
    ensures
        index == first_position(tokens@, class),
        index matches Some(at) ==> at < tokens@.len(),
{
    let all: Vec<usize> = positions_in_class(tokens, class);
    let count: usize = tokens.len();
    proof {
        lemma_positions(tokens@, class.test());
    }
    if all.len() == 0 {
        None
    } else {
        Some(all[0])
    }
}

fn find_last(tokens: &[Token], class: TokenClass) -> (index: Option<usize>)
    ensures
        index == last_position(tokens@, class),
        index matches Some(at) ==> at < tokens@.len(),
{
    let all: Vec<usize> = positions_in_class(tokens, class);
    let count: usize = tokens.len();
    proof {
        lemma_positions(tokens@, class.test());
    }
    if all.len() == 0 {
        None
    } else {
        Some(all[all.len() - 1])
    }
}

fn find_all(tokens: &[Token], class: TokenClass) -> (found: Vec<&Token>)
    ensures
        are_at(found@, tokens@, positions(tokens@, class.test())),
{
    let all: Vec<usize> = positions_in_class(tokens, class);
    let count: usize = tokens.len();
    proof {
        lemma_positions(tokens@, class.test());
    }
    let mut found: Vec<&Token> = Vec::new();
    for k in 0..all.len()
        invariant
            all@ == positions(tokens@, class.test()),
            forall|i: int| 0 <= i < all@.len() ==> (#[trigger] all@[i]) < tokens@.len(),
            found@.len() == k,
            forall|i: int| 0 <= i < k ==> *(#[trigger] found@[i]) == tokens@[all@[i] as int],
    {
        found.push(&tokens[all[k]]);
    }
    found
}

/// Whether the span reaches from the first position that one of the tokens touches to the last.
pub open spec fn is_hull(span: Span, tokens: Seq<Token>) -> bool {
    &&& forall|i: int|
        0 <= i < tokens.len() ==> span.start <= (#[trigger] tokens[i]).span.start <= span.end
            && span.start <= tokens[i].span.end <= span.end
    &&& exists|i: int|
        0 <= i < tokens.len() && ((#[trigger] tokens[i]).span.start == span.start
            || tokens[i].span.end == span.start)
    &&& exists|i: int|
        0 <= i < tokens.len() && ((#[trigger] tokens[i]).span.start == span.end
            || tokens[i].span.end == span.end)
}

/// Tokens that lie in order reach from the start of the first one to the end of the last.
pub proof fn lemma_hull_of_ordered(span: Span, tokens: Seq<Token>, len: nat)
    requires
        tokens.len() > 0,
        well_formed(tokens, len),
        is_hull(span, tokens),
    ensures
        span.start == tokens[0].span.start,
        span.end == tokens.last().span.end,
{
    let last: int = tokens.len() - 1;
    assert(tokens[0].span.fits(len));
    assert(tokens[last].span.fits(len));
    let i = choose|i: int|
        0 <= i < tokens.len() && ((#[trigger] tokens[i]).span.start == span.start
            || tokens[i].span.end == span.start);
    assert(tokens[i].span.fits(len));
    if i > 0 {
        assert(tokens[0].span.end <= tokens[i].span.start);
    }
    let j = choose|j: int|
        0 <= j < tokens.len() && ((#[trigger] tokens[j]).span.start == span.end
            || tokens[j].span.end == span.end);
    assert(tokens[j].span.fits(len));
    if j < last {
        assert(tokens[j].span.end <= tokens[last].span.start);
    }
}

fn hull(tokens: &[Token]) -> (span: Option<Span>)
    ensures
        span is None <==> tokens@.len() == 0,
        span matches Some(span) ==> is_hull(span, tokens@),
{
    if tokens.len() == 0 {
        return None;
    }
    let first: Span = tokens[0].span;
    let mut start: usize = if first.start <= first.end { first.start } else { first.end };
    let mut end: usize = if first.start <= first.end { first.end } else { first.start };
    let ghost mut low: int = 0;
    let ghost mut high: int = 0;
    for k in 1..tokens.len()
        invariant
            0 <= low < k <= tokens@.len(),
            0 <= high < k,
            tokens@[low].span.start == start || tokens@[low].span.end == start,
            tokens@[high].span.start == end || tokens@[high].span.end == end,
            forall|i: int|
                0 <= i < k ==> start <= (#[trigger] tokens@[i]).span.start <= end && start
                    <= tokens@[i].span.end <= end,
    {
        let span: Span = tokens[k].span;
        if span.start < start {
            start = span.start;
            proof {
                low = k as int;
            }
        }
        if span.end < start {
            start = span.end;
            proof {
                low = k as int;
            }
        }
        if span.start > end {
            end = span.start;
            proof {
                high = k as int;
            }
        }
        if span.end > end {
            end = span.end;
            proof {
                high = k as int;
            }
        }
    }
    Some(Span { start, end })
}

/// The index of the first token that is not whitespace.
pub open spec fn first_solid(tokens: Seq<Token>, from: int) -> Option<usize>
    decreases tokens.len() - from,
{
    if from < 0 || from >= tokens.len() {
        None
    } else if !tokens[from].kind.is_whitespace() {
        Some(from as usize)
    } else {
        first_solid(tokens, from + 1)
    }
}

fn find_first_solid(tokens: &[Token]) -> (index: Option<usize>)
    ensures
        index == first_solid(tokens@, 0),
        index matches Some(at) ==> at < tokens@.len(),
{
    for i in 0..tokens.len()
        invariant
            first_solid(tokens@, 0) == first_solid(tokens@, i as int),
    {
        if !tokens[i].kind.is_whitespace() {
            return Some(i);
        }
    }
    None
}

/// The index of the first word, unless text that is not prose stands in front of it.
pub open spec fn sentence_word_position(tokens: Seq<Token>) -> Option<usize> {
    match (
        first_position(tokens, TokenClass::Word),
        first_position(tokens, TokenClass::Unlintable),
    ) {
        (Some(word), Some(other)) => if word < other {
            Some(word)
        } else {
            None
        },
        (word, _) => word,
    }
}

/// Something that holds a sequence of tokens, and the ways to look for tokens in it.
pub trait TokenStringExt {
    /// The tokens that are held.
    spec fn held(&self) -> Seq<Token>;

    /// The tokens that are held.
    fn as_tokens(&self) -> (tokens: &[Token])
        ensures
            tokens@ == self.held(),
    ;

    /// The first of the words that can be adjectives.
    fn first_adjective(&self) -> (found: Option<&Token>)
        ensures
            is_at(found, self.held(), first_position(self.held(), TokenClass::Adjective)),
    {
        let tokens = self.as_tokens();
        token_at(tokens, find_first(tokens, TokenClass::Adjective))
    }

    /// The last of the words that can be adjectives.
    fn last_adjective(&self) -> (found: Option<&Token>)
        ensures
            is_at(found, self.held(), last_position(self.held(), TokenClass::Adjective)),
    {
        let tokens = self.as_tokens();
        token_at(tokens, find_last(tokens, TokenClass::Adjective))
    }

    /// The index of the last of the words that can be adjectives.
    fn last_adjective_index(&self) -> (index: Option<usize>)
        ensures
            index == last_position(self.held(), TokenClass::Adjective),
    {
        find_last(self.as_tokens(), TokenClass::Adjective)
    }

    /// The indices of the words that can be adjectives.
    fn iter_adjective_indices(&self) -> (indices: Vec<usize>)
        ensures
            indices@ == positions(self.held(), TokenClass::Adjective.test()),
    {
        positions_in_class(self.as_tokens(), TokenClass::Adjective)
    }

    /// The words that can be adjectives.
    fn iter_adjectives(&self) -> (found: Vec<&Token>)
        ensures
            are_at(found@, self.held(), positions(self.held(), TokenClass::Adjective.test())),
    {
        find_all(self.as_tokens(), TokenClass::Adjective)
    }

    /// The first of the apostrophes.
    fn first_apostrophe(&self) -> (found: Option<&Token>)
        ensures
            is_at(found, self.held(), first_position(self.held(), TokenClass::Apostrophe)),
    {
        let tokens = self.as_tokens();
        token_at(tokens, find_first(tokens, TokenClass::Apostrophe))
    }

    /// The last of the apostrophes.
    fn last_apostrophe(&self) -> (found: Option<&Token>)
        ensures
            is_at(found, self.held(), last_position(self.held(), TokenClass::Apostrophe)),
    {
        let tokens = self.as_tokens();
        token_at(tokens, find_last(tokens, TokenClass::Apostrophe))
    }

    /// The index of the last of the apostrophes.
    fn last_apostrophe_index(&self) -> (index: Option<usize>)
        ensures
            index == last_position(self.held(), TokenClass::Apostrophe),
    {
        find_last(self.as_tokens(), TokenClass::Apostrophe)
    }

    /// The indices of the apostrophes.
    fn iter_apostrophe_indices(&self) -> (indices: Vec<usize>)
        ensures
            indices@ == positions(self.held(), TokenClass::Apostrophe.test()),
    {
        positions_in_class(self.as_tokens(), TokenClass::Apostrophe)
    }

    /// The apostrophes.
    fn iter_apostrophes(&self) -> (found: Vec<&Token>)
        ensures
            are_at(found@, self.held(), positions(self.held(), TokenClass::Apostrophe.test())),
    {
        find_all(self.as_tokens(), TokenClass::Apostrophe)
    }

    /// The first of the at signs.
    fn first_at(&self) -> (found: Option<&Token>)
        ensures
            is_at(found, self.held(), first_position(self.held(), TokenClass::At)),
    {
        let tokens = self.as_tokens();
        token_at(tokens, find_first(tokens, TokenClass::At))
    }

    /// The last of the at signs.
    fn last_at(&self) -> (found: Option<&Token>)
        ensures
            is_at(found, self.held(), last_position(self.held(), TokenClass::At)),
    {
        let tokens = self.as_tokens();
        token_at(tokens, find_last(tokens, TokenClass::At))
    }

    /// The index of the last of the at signs.
    fn last_at_index(&self) -> (index: Option<usize>)
        ensures
            index == last_position(self.held(), TokenClass::At),
    {
        find_last(self.as_tokens(), TokenClass::At)
    }

    /// The indices of the at signs.
    fn iter_at_indices(&self) -> (indices: Vec<usize>)
        ensures
            indices@ == positions(self.held(), TokenClass::At.test()),
    {
        positions_in_class(self.as_tokens(), TokenClass::At)
    }

    /// The at signs.
    fn iter_ats(&self) -> (found: Vec<&Token>)
        ensures
            are_at(found@, self.held(), positions(self.held(), TokenClass::At.test())),
    {
        find_all(self.as_tokens(), TokenClass::At)
    }

    /// The first of the tokens that end a chunk of a sentence.
    fn first_chunk_terminator(&self) -> (found: Option<&Token>)
        ensures
            is_at(found, self.held(), first_position(self.held(), TokenClass::ChunkTerminator)),
    {
        let tokens = self.as_tokens();
        token_at(tokens, find_first(tokens, TokenClass::ChunkTerminator))
    }

    /// The last of the tokens that end a chunk of a sentence.
    fn last_chunk_terminator(&self) -> (found: Option<&Token>)
        ensures
            is_at(found, self.held(), last_position(self.held(), TokenClass::ChunkTerminator)),
    {
        let tokens = self.as_tokens();
        token_at(tokens, find_last(tokens, TokenClass::ChunkTerminator))
    }

    /// The index of the last of the tokens that end a chunk of a sentence.
    fn last_chunk_terminator_index(&self) -> (index: Option<usize>)
        ensures
            index == last_position(self.held(), TokenClass::ChunkTerminator),
    {
        find_last(self.as_tokens(), TokenClass::ChunkTerminator)
    }

    /// The indices of the tokens that end a chunk of a sentence.
    fn iter_chunk_terminator_indices(&self) -> (indices: Vec<usize>)
        ensures
            indices@ == positions(self.held(), TokenClass::ChunkTerminator.test()),
    {
        positions_in_class(self.as_tokens(), TokenClass::ChunkTerminator)
    }

    /// The tokens that end a chunk of a sentence.
    fn iter_chunk_terminators(&self) -> (found: Vec<&Token>)
        ensures
            are_at(found@, self.held(), positions(self.held(), TokenClass::ChunkTerminator.test())),
    {
        find_all(self.as_tokens(), TokenClass::ChunkTerminator)
    }

    /// The first of the commas.
    fn first_comma(&self) -> (found: Option<&Token>)
        ensures
            is_at(found, self.held(), first_position(self.held(), TokenClass::Comma)),
    {
        let tokens = self.as_tokens();
        token_at(tokens, find_first(tokens, TokenClass::Comma))
    }

    /// The last of the commas.
    fn last_comma(&self) -> (found: Option<&Token>)
        ensures
            is_at(found, self.held(), last_position(self.held(), TokenClass::Comma)),
    {
        let tokens = self.as_tokens();
        token_at(tokens, find_last(tokens, TokenClass::Comma))
    }

    /// The index of the last of the commas.
    fn last_comma_index(&self) -> (index: Option<usize>)
        ensures
            index == last_position(self.held(), TokenClass::Comma),
    {
        find_last(self.as_tokens(), TokenClass::Comma)
    }

    /// The indices of the commas.
    fn iter_comma_indices(&self) -> (indices: Vec<usize>)
        ensures
            indices@ == positions(self.held(), TokenClass::Comma.test()),
    {
        positions_in_class(self.as_tokens(), TokenClass::Comma)
    }

    /// The commas.
    fn iter_commas(&self) -> (found: Vec<&Token>)
        ensures
            are_at(found@, self.held(), positions(self.held(), TokenClass::Comma.test())),
    {
        find_all(self.as_tokens(), TokenClass::Comma)
    }

    /// The first of the words that can be conjunctions.
    fn first_conjunction(&self) -> (found: Option<&Token>)
        ensures
            is_at(found, self.held(), first_position(self.held(), TokenClass::Conjunction)),
    {
        let tokens = self.as_tokens();
        token_at(tokens, find_first(tokens, TokenClass::Conjunction))
    }

    /// The last of the words that can be conjunctions.
    fn last_conjunction(&self) -> (found: Option<&Token>)
        ensures
            is_at(found, self.held(), last_position(self.held(), TokenClass::Conjunction)),
    {
        let tokens = self.as_tokens();
        token_at(tokens, find_last(tokens, TokenClass::Conjunction))
    }

    /// The index of the last of the words that can be conjunctions.
    fn last_conjunction_index(&self) -> (index: Option<usize>)
        ensures
            index == last_position(self.held(), TokenClass::Conjunction),
    {
        find_last(self.as_tokens(), TokenClass::Conjunction)
    }

    /// The indices of the words that can be conjunctions.
    fn iter_conjunction_indices(&self) -> (indices: Vec<usize>)
        ensures
            indices@ == positions(self.held(), TokenClass::Conjunction.test()),
    {
        positions_in_class(self.as_tokens(), TokenClass::Conjunction)
    }

    /// The words that can be conjunctions.
    fn iter_conjunctions(&self) -> (found: Vec<&Token>)
        ensures
            are_at(found@, self.held(), positions(self.held(), TokenClass::Conjunction.test())),
    {
        find_all(self.as_tokens(), TokenClass::Conjunction)
    }

    /// The first of the signs of currencies.
    fn first_currency(&self) -> (found: Option<&Token>)
        ensures
            is_at(found, self.held(), first_position(self.held(), TokenClass::Currency)),
    {
        let tokens = self.as_tokens();
        token_at(tokens, find_first(tokens, TokenClass::Currency))
    }

    /// The last of the signs of currencies.
    fn last_currency(&self) -> (found: Option<&Token>)
        ensures
            is_at(found, self.held(), last_position(self.held(), TokenClass::Currency)),
    {
        let tokens = self.as_tokens();
        token_at(tokens, find_last(tokens, TokenClass::Currency))
    }

    /// The index of the last of the signs of currencies.
    fn last_currency_index(&self) -> (index: Option<usize>)
        ensures
            index == last_position(self.held(), TokenClass::Currency),
    {
        find_last(self.as_tokens(), TokenClass::Currency)
    }

    /// The indices of the signs of currencies.
    fn iter_currency_indices(&self) -> (indices: Vec<usize>)
        ensures
            indices@ == positions(self.held(), TokenClass::Currency.test()),
    {
        positions_in_class(self.as_tokens(), TokenClass::Currency)
    }

    /// The signs of currencies.
    fn iter_currencys(&self) -> (found: Vec<&Token>)
        ensures
            are_at(found@, self.held(), positions(self.held(), TokenClass::Currency.test())),
    {
        find_all(self.as_tokens(), TokenClass::Currency)
    }

    /// The first of the ellipses.
    fn first_ellipsis(&self) -> (found: Option<&Token>)
        ensures
            is_at(found, self.held(), first_position(self.held(), TokenClass::Ellipsis)),
    {
        let tokens = self.as_tokens();
        token_at(tokens, find_first(tokens, TokenClass::Ellipsis))
    }

    /// The last of the ellipses.
    fn last_ellipsis(&self) -> (found: Option<&Token>)
        ensures
            is_at(found, self.held(), last_position(self.held(), TokenClass::Ellipsis)),
    {
        let tokens = self.as_tokens();
        token_at(tokens, find_last(tokens, TokenClass::Ellipsis))
    }

    /// The index of the last of the ellipses.
    fn last_ellipsis_index(&self) -> (index: Option<usize>)
        ensures
            index == last_position(self.held(), TokenClass::Ellipsis),
    {
        find_last(self.as_tokens(), TokenClass::Ellipsis)
    }

    /// The indices of the ellipses.
    fn iter_ellipsis_indices(&self) -> (indices: Vec<usize>)
        ensures
            indices@ == positions(self.held(), TokenClass::Ellipsis.test()),
    {
        positions_in_class(self.as_tokens(), TokenClass::Ellipsis)
    }

    /// The ellipses.
    fn iter_ellipsiss(&self) -> (found: Vec<&Token>)
        ensures
            are_at(found@, self.held(), positions(self.held(), TokenClass::Ellipsis.test())),
    {
        find_all(self.as_tokens(), TokenClass::Ellipsis)
    }

    /// The first of the names of hosts.
    fn first_hostname(&self) -> (found: Option<&Token>)
        ensures
            is_at(found, self.held(), first_position(self.held(), TokenClass::Hostname)),
    {
        let tokens = self.as_tokens();
        token_at(tokens, find_first(tokens, TokenClass::Hostname))
    }

    /// The last of the names of hosts.
    fn last_hostname(&self) -> (found: Option<&Token>)
        ensures
            is_at(found, self.held(), last_position(self.held(), TokenClass::Hostname)),
    {
        let tokens = self.as_tokens();
        token_at(tokens, find_last(tokens, TokenClass::Hostname))
    }

    /// The index of the last of the names of hosts.
    fn last_hostname_index(&self) -> (index: Option<usize>)
        ensures
            index == last_position(self.held(), TokenClass::Hostname),
    {
        find_last(self.as_tokens(), TokenClass::Hostname)
    }

    /// The indices of the names of hosts.
    fn iter_hostname_indices(&self) -> (indices: Vec<usize>)
        ensures
            indices@ == positions(self.held(), TokenClass::Hostname.test()),
    {
        positions_in_class(self.as_tokens(), TokenClass::Hostname)
    }

    /// The names of hosts.
    fn iter_hostnames(&self) -> (found: Vec<&Token>)
        ensures
            are_at(found@, self.held(), positions(self.held(), TokenClass::Hostname.test())),
    {
        find_all(self.as_tokens(), TokenClass::Hostname)
    }

    /// The first of the words that are likely to be read in several ways.
    fn first_likely_homograph(&self) -> (found: Option<&Token>)
        ensures
            is_at(found, self.held(), first_position(self.held(), TokenClass::LikelyHomograph)),
    {
        let tokens = self.as_tokens();
        token_at(tokens, find_first(tokens, TokenClass::LikelyHomograph))
    }

    /// The last of the words that are likely to be read in several ways.
    fn last_likely_homograph(&self) -> (found: Option<&Token>)
        ensures
            is_at(found, self.held(), last_position(self.held(), TokenClass::LikelyHomograph)),
    {
        let tokens = self.as_tokens();
        token_at(tokens, find_last(tokens, TokenClass::LikelyHomograph))
    }

    /// The index of the last of the words that are likely to be read in several ways.
    fn last_likely_homograph_index(&self) -> (index: Option<usize>)
        ensures
            index == last_position(self.held(), TokenClass::LikelyHomograph),
    {
        find_last(self.as_tokens(), TokenClass::LikelyHomograph)
    }

    /// The indices of the words that are likely to be read in several ways.
    fn iter_likely_homograph_indices(&self) -> (indices: Vec<usize>)
        ensures
            indices@ == positions(self.held(), TokenClass::LikelyHomograph.test()),
    {
        positions_in_class(self.as_tokens(), TokenClass::LikelyHomograph)
    }

    /// The words that are likely to be read in several ways.
    fn iter_likely_homographs(&self) -> (found: Vec<&Token>)
        ensures
            are_at(found@, self.held(), positions(self.held(), TokenClass::LikelyHomograph.test())),
    {
        find_all(self.as_tokens(), TokenClass::LikelyHomograph)
    }

    /// The first of the words that can be nouns.
    fn first_noun(&self) -> (found: Option<&Token>)
        ensures
            is_at(found, self.held(), first_position(self.held(), TokenClass::Noun)),
    {
        let tokens = self.as_tokens();
        token_at(tokens, find_first(tokens, TokenClass::Noun))
    }

    /// The last of the words that can be nouns.
    fn last_noun(&self) -> (found: Option<&Token>)
        ensures
            is_at(found, self.held(), last_position(self.held(), TokenClass::Noun)),
    {
        let tokens = self.as_tokens();
        token_at(tokens, find_last(tokens, TokenClass::Noun))
    }

    /// The index of the last of the words that can be nouns.
    fn last_noun_index(&self) -> (index: Option<usize>)
        ensures
            index == last_position(self.held(), TokenClass::Noun),
    {
        find_last(self.as_tokens(), TokenClass::Noun)
    }

    /// The indices of the words that can be nouns.
    fn iter_noun_indices(&self) -> (indices: Vec<usize>)
        ensures
            indices@ == positions(self.held(), TokenClass::Noun.test()),
    {
        positions_in_class(self.as_tokens(), TokenClass::Noun)
    }

    /// The words that can be nouns.
    fn iter_nouns(&self) -> (found: Vec<&Token>)
        ensures
            are_at(found@, self.held(), positions(self.held(), TokenClass::Noun.test())),
    {
        find_all(self.as_tokens(), TokenClass::Noun)
    }

    /// The first of the numbers.
    fn first_number(&self) -> (found: Option<&Token>)
        ensures
            is_at(found, self.held(), first_position(self.held(), TokenClass::Number)),
    {
        let tokens = self.as_tokens();
        token_at(tokens, find_first(tokens, TokenClass::Number))
    }

    /// The last of the numbers.
    fn last_number(&self) -> (found: Option<&Token>)
        ensures
            is_at(found, self.held(), last_position(self.held(), TokenClass::Number)),
    {
        let tokens = self.as_tokens();
        token_at(tokens, find_last(tokens, TokenClass::Number))
    }

    /// The index of the last of the numbers.
    fn last_number_index(&self) -> (index: Option<usize>)
        ensures
            index == last_position(self.held(), TokenClass::Number),
    {
        find_last(self.as_tokens(), TokenClass::Number)
    }

    /// The indices of the numbers.
    fn iter_number_indices(&self) -> (indices: Vec<usize>)
        ensures
            indices@ == positions(self.held(), TokenClass::Number.test()),
    {
        positions_in_class(self.as_tokens(), TokenClass::Number)
    }

    /// The numbers.
    fn iter_numbers(&self) -> (found: Vec<&Token>)
        ensures
            are_at(found@, self.held(), positions(self.held(), TokenClass::Number.test())),
    {
        find_all(self.as_tokens(), TokenClass::Number)
    }

    /// The first of the paragraph breaks.
    fn first_paragraph_break(&self) -> (found: Option<&Token>)
        ensures
            is_at(found, self.held(), first_position(self.held(), TokenClass::ParagraphBreak)),
    {
        let tokens = self.as_tokens();
        token_at(tokens, find_first(tokens, TokenClass::ParagraphBreak))
    }

    /// The last of the paragraph breaks.
    fn last_paragraph_break(&self) -> (found: Option<&Token>)
        ensures
            is_at(found, self.held(), last_position(self.held(), TokenClass::ParagraphBreak)),
    {
        let tokens = self.as_tokens();
        token_at(tokens, find_last(tokens, TokenClass::ParagraphBreak))
    }

    /// The index of the last of the paragraph breaks.
    fn last_paragraph_break_index(&self) -> (index: Option<usize>)
        ensures
            index == last_position(self.held(), TokenClass::ParagraphBreak),
    {
        find_last(self.as_tokens(), TokenClass::ParagraphBreak)
    }

    /// The indices of the paragraph breaks.
    fn iter_paragraph_break_indices(&self) -> (indices: Vec<usize>)
        ensures
            indices@ == positions(self.held(), TokenClass::ParagraphBreak.test()),
    {
        positions_in_class(self.as_tokens(), TokenClass::ParagraphBreak)
    }

    /// The paragraph breaks.
    fn iter_paragraph_breaks(&self) -> (found: Vec<&Token>)
        ensures
            are_at(found@, self.held(), positions(self.held(), TokenClass::ParagraphBreak.test())),
    {
        find_all(self.as_tokens(), TokenClass::ParagraphBreak)
    }

    /// The first of the vertical bars.
    fn first_pipe(&self) -> (found: Option<&Token>)
        ensures
            is_at(found, self.held(), first_position(self.held(), TokenClass::Pipe)),
    {
        let tokens = self.as_tokens();
        token_at(tokens, find_first(tokens, TokenClass::Pipe))
    }

    /// The last of the vertical bars.
    fn last_pipe(&self) -> (found: Option<&Token>)
        ensures
            is_at(found, self.held(), last_position(self.held(), TokenClass::Pipe)),
    {
        let tokens = self.as_tokens();
        token_at(tokens, find_last(tokens, TokenClass::Pipe))
    }

    /// The index of the last of the vertical bars.
    fn last_pipe_index(&self) -> (index: Option<usize>)
        ensures
            index == last_position(self.held(), TokenClass::Pipe),
    {
        find_last(self.as_tokens(), TokenClass::Pipe)
    }

    /// The indices of the vertical bars.
    fn iter_pipe_indices(&self) -> (indices: Vec<usize>)
        ensures
            indices@ == positions(self.held(), TokenClass::Pipe.test()),
    {
        positions_in_class(self.as_tokens(), TokenClass::Pipe)
    }

    /// The vertical bars.
    fn iter_pipes(&self) -> (found: Vec<&Token>)
        ensures
            are_at(found@, self.held(), positions(self.held(), TokenClass::Pipe.test())),
    {
        find_all(self.as_tokens(), TokenClass::Pipe)
    }

    /// The first of the words that can be prepositions.
    fn first_preposition(&self) -> (found: Option<&Token>)
        ensures
            is_at(found, self.held(), first_position(self.held(), TokenClass::Preposition)),
    {
        let tokens = self.as_tokens();
        token_at(tokens, find_first(tokens, TokenClass::Preposition))
    }

    /// The last of the words that can be prepositions.
    fn last_preposition(&self) -> (found: Option<&Token>)
        ensures
            is_at(found, self.held(), last_position(self.held(), TokenClass::Preposition)),
    {
        let tokens = self.as_tokens();
        token_at(tokens, find_last(tokens, TokenClass::Preposition))
    }

    /// The index of the last of the words that can be prepositions.
    fn last_preposition_index(&self) -> (index: Option<usize>)
        ensures
            index == last_position(self.held(), TokenClass::Preposition),
    {
        find_last(self.as_tokens(), TokenClass::Preposition)
    }

    /// The indices of the words that can be prepositions.
    fn iter_preposition_indices(&self) -> (indices: Vec<usize>)
        ensures
            indices@ == positions(self.held(), TokenClass::Preposition.test()),
    {
        positions_in_class(self.as_tokens(), TokenClass::Preposition)
    }

    /// The words that can be prepositions.
    fn iter_prepositions(&self) -> (found: Vec<&Token>)
        ensures
            are_at(found@, self.held(), positions(self.held(), TokenClass::Preposition.test())),
    {
        find_all(self.as_tokens(), TokenClass::Preposition)
    }

    /// The first of the punctuation marks.
    fn first_punctuation(&self) -> (found: Option<&Token>)
        ensures
            is_at(found, self.held(), first_position(self.held(), TokenClass::Punctuation)),
    {
        let tokens = self.as_tokens();
        token_at(tokens, find_first(tokens, TokenClass::Punctuation))
    }

    /// The last of the punctuation marks.
    fn last_punctuation(&self) -> (found: Option<&Token>)
        ensures
            is_at(found, self.held(), last_position(self.held(), TokenClass::Punctuation)),
    {
        let tokens = self.as_tokens();
        token_at(tokens, find_last(tokens, TokenClass::Punctuation))
    }

    /// The index of the last of the punctuation marks.
    fn last_punctuation_index(&self) -> (index: Option<usize>)
        ensures
            index == last_position(self.held(), TokenClass::Punctuation),
    {
        find_last(self.as_tokens(), TokenClass::Punctuation)
    }

    /// The indices of the punctuation marks.
    fn iter_punctuation_indices(&self) -> (indices: Vec<usize>)
        ensures
            indices@ == positions(self.held(), TokenClass::Punctuation.test()),
    {
        positions_in_class(self.as_tokens(), TokenClass::Punctuation)
    }

    /// The punctuation marks.
    fn iter_punctuations(&self) -> (found: Vec<&Token>)
        ensures
            are_at(found@, self.held(), positions(self.held(), TokenClass::Punctuation.test())),
    {
        find_all(self.as_tokens(), TokenClass::Punctuation)
    }

    /// The first of the quotation marks.
    fn first_quote(&self) -> (found: Option<&Token>)
        ensures
            is_at(found, self.held(), first_position(self.held(), TokenClass::Quote)),
    {
        let tokens = self.as_tokens();
        token_at(tokens, find_first(tokens, TokenClass::Quote))
    }

    /// The last of the quotation marks.
    fn last_quote(&self) -> (found: Option<&Token>)
        ensures
            is_at(found, self.held(), last_position(self.held(), TokenClass::Quote)),
    {
        let tokens = self.as_tokens();
        token_at(tokens, find_last(tokens, TokenClass::Quote))
    }

    /// The index of the last of the quotation marks.
    fn last_quote_index(&self) -> (index: Option<usize>)
        ensures
            index == last_position(self.held(), TokenClass::Quote),
    {
        find_last(self.as_tokens(), TokenClass::Quote)
    }

    /// The indices of the quotation marks.
    fn iter_quote_indices(&self) -> (indices: Vec<usize>)
        ensures
            indices@ == positions(self.held(), TokenClass::Quote.test()),
    {
        positions_in_class(self.as_tokens(), TokenClass::Quote)
    }

    /// The quotation marks.
    fn iter_quotes(&self) -> (found: Vec<&Token>)
        ensures
            are_at(found@, self.held(), positions(self.held(), TokenClass::Quote.test())),
    {
        find_all(self.as_tokens(), TokenClass::Quote)
    }

    /// The first of the tokens that end a sentence.
    fn first_sentence_terminator(&self) -> (found: Option<&Token>)
        ensures
            is_at(found, self.held(), first_position(self.held(), TokenClass::SentenceTerminator)),
    {
        let tokens = self.as_tokens();
        token_at(tokens, find_first(tokens, TokenClass::SentenceTerminator))
    }

    /// The last of the tokens that end a sentence.
    fn last_sentence_terminator(&self) -> (found: Option<&Token>)
        ensures
            is_at(found, self.held(), last_position(self.held(), TokenClass::SentenceTerminator)),
    {
        let tokens = self.as_tokens();
        token_at(tokens, find_last(tokens, TokenClass::SentenceTerminator))
    }

    /// The index of the last of the tokens that end a sentence.
    fn last_sentence_terminator_index(&self) -> (index: Option<usize>)
        ensures
            index == last_position(self.held(), TokenClass::SentenceTerminator),
    {
        find_last(self.as_tokens(), TokenClass::SentenceTerminator)
    }

    /// The indices of the tokens that end a sentence.
    fn iter_sentence_terminator_indices(&self) -> (indices: Vec<usize>)
        ensures
            indices@ == positions(self.held(), TokenClass::SentenceTerminator.test()),
    {
        positions_in_class(self.as_tokens(), TokenClass::SentenceTerminator)
    }

    /// The tokens that end a sentence.
    fn iter_sentence_terminators(&self) -> (found: Vec<&Token>)
        ensures
            are_at(found@, self.held(), positions(self.held(), TokenClass::SentenceTerminator.test())),
    {
        find_all(self.as_tokens(), TokenClass::SentenceTerminator)
    }

    /// The first of the runs of blanks.
    fn first_space(&self) -> (found: Option<&Token>)
        ensures
            is_at(found, self.held(), first_position(self.held(), TokenClass::Space)),
    {
        let tokens = self.as_tokens();
        token_at(tokens, find_first(tokens, TokenClass::Space))
    }

    /// The last of the runs of blanks.
    fn last_space(&self) -> (found: Option<&Token>)
        ensures
            is_at(found, self.held(), last_position(self.held(), TokenClass::Space)),
    {
        let tokens = self.as_tokens();
        token_at(tokens, find_last(tokens, TokenClass::Space))
    }

    /// The index of the last of the runs of blanks.
    fn last_space_index(&self) -> (index: Option<usize>)
        ensures
            index == last_position(self.held(), TokenClass::Space),
    {
        find_last(self.as_tokens(), TokenClass::Space)
    }

    /// The indices of the runs of blanks.
    fn iter_space_indices(&self) -> (indices: Vec<usize>)
        ensures
            indices@ == positions(self.held(), TokenClass::Space.test()),
    {
        positions_in_class(self.as_tokens(), TokenClass::Space)
    }

    /// The runs of blanks.
    fn iter_spaces(&self) -> (found: Vec<&Token>)
        ensures
            are_at(found@, self.held(), positions(self.held(), TokenClass::Space.test())),
    {
        find_all(self.as_tokens(), TokenClass::Space)
    }

    /// The first of the pieces of text that are not prose.
    fn first_unlintable(&self) -> (found: Option<&Token>)
        ensures
            is_at(found, self.held(), first_position(self.held(), TokenClass::Unlintable)),
    {
        let tokens = self.as_tokens();
        token_at(tokens, find_first(tokens, TokenClass::Unlintable))
    }

    /// The last of the pieces of text that are not prose.
    fn last_unlintable(&self) -> (found: Option<&Token>)
        ensures
            is_at(found, self.held(), last_position(self.held(), TokenClass::Unlintable)),
    {
        let tokens = self.as_tokens();
        token_at(tokens, find_last(tokens, TokenClass::Unlintable))
    }

    /// The index of the last of the pieces of text that are not prose.
    fn last_unlintable_index(&self) -> (index: Option<usize>)
        ensures
            index == last_position(self.held(), TokenClass::Unlintable),
    {
        find_last(self.as_tokens(), TokenClass::Unlintable)
    }

    /// The indices of the pieces of text that are not prose.
    fn iter_unlintable_indices(&self) -> (indices: Vec<usize>)
        ensures
            indices@ == positions(self.held(), TokenClass::Unlintable.test()),
    {
        positions_in_class(self.as_tokens(), TokenClass::Unlintable)
    }

    /// The pieces of text that are not prose.
    fn iter_unlintables(&self) -> (found: Vec<&Token>)
        ensures
            are_at(found@, self.held(), positions(self.held(), TokenClass::Unlintable.test())),
    {
        find_all(self.as_tokens(), TokenClass::Unlintable)
    }

    /// The first of the words that can be verbs.
    fn first_verb(&self) -> (found: Option<&Token>)
        ensures
            is_at(found, self.held(), first_position(self.held(), TokenClass::Verb)),
    {
        let tokens = self.as_tokens();
        token_at(tokens, find_first(tokens, TokenClass::Verb))
    }

    /// The last of the words that can be verbs.
    fn last_verb(&self) -> (found: Option<&Token>)
        ensures
            is_at(found, self.held(), last_position(self.held(), TokenClass::Verb)),
    {
        let tokens = self.as_tokens();
        token_at(tokens, find_last(tokens, TokenClass::Verb))
    }

    /// The index of the last of the words that can be verbs.
    fn last_verb_index(&self) -> (index: Option<usize>)
        ensures
            index == last_position(self.held(), TokenClass::Verb),
    {
        find_last(self.as_tokens(), TokenClass::Verb)
    }

    /// The indices of the words that can be verbs.
    fn iter_verb_indices(&self) -> (indices: Vec<usize>)
        ensures
            indices@ == positions(self.held(), TokenClass::Verb.test()),
    {
        positions_in_class(self.as_tokens(), TokenClass::Verb)
    }

    /// The words that can be verbs.
    fn iter_verbs(&self) -> (found: Vec<&Token>)
        ensures
            are_at(found@, self.held(), positions(self.held(), TokenClass::Verb.test())),
    {
        find_all(self.as_tokens(), TokenClass::Verb)
    }

    /// The first of the words.
    fn first_word(&self) -> (found: Option<&Token>)
        ensures
            is_at(found, self.held(), first_position(self.held(), TokenClass::Word)),
    {
        let tokens = self.as_tokens();
        token_at(tokens, find_first(tokens, TokenClass::Word))
    }

    /// The last of the words.
    fn last_word(&self) -> (found: Option<&Token>)
        ensures
            is_at(found, self.held(), last_position(self.held(), TokenClass::Word)),
    {
        let tokens = self.as_tokens();
        token_at(tokens, find_last(tokens, TokenClass::Word))
    }

    /// The index of the last of the words.
    fn last_word_index(&self) -> (index: Option<usize>)
        ensures
            index == last_position(self.held(), TokenClass::Word),
    {
        find_last(self.as_tokens(), TokenClass::Word)
    }

    /// The indices of the words.
    fn iter_word_indices(&self) -> (indices: Vec<usize>)
        ensures
            indices@ == positions(self.held(), TokenClass::Word.test()),
    {
        positions_in_class(self.as_tokens(), TokenClass::Word)
    }

    /// The words.
    fn iter_words(&self) -> (found: Vec<&Token>)
        ensures
            are_at(found@, self.held(), positions(self.held(), TokenClass::Word.test())),
    {
        find_all(self.as_tokens(), TokenClass::Word)
    }

    /// The first of the tokens that read as words.
    fn first_word_like(&self) -> (found: Option<&Token>)
        ensures
            is_at(found, self.held(), first_position(self.held(), TokenClass::WordLike)),
    {
        let tokens = self.as_tokens();
        token_at(tokens, find_first(tokens, TokenClass::WordLike))
    }

    /// The last of the tokens that read as words.
    fn last_word_like(&self) -> (found: Option<&Token>)
        ensures
            is_at(found, self.held(), last_position(self.held(), TokenClass::WordLike)),
    {
        let tokens = self.as_tokens();
        token_at(tokens, find_last(tokens, TokenClass::WordLike))
    }

    /// The index of the last of the tokens that read as words.
    fn last_word_like_index(&self) -> (index: Option<usize>)
        ensures
            index == last_position(self.held(), TokenClass::WordLike),
    {
        find_last(self.as_tokens(), TokenClass::WordLike)
    }

    /// The indices of the tokens that read as words.
    fn iter_word_like_indices(&self) -> (indices: Vec<usize>)
        ensures
            indices@ == positions(self.held(), TokenClass::WordLike.test()),
    {
        positions_in_class(self.as_tokens(), TokenClass::WordLike)
    }

    /// The tokens that read as words.
    fn iter_word_likes(&self) -> (found: Vec<&Token>)
        ensures
            are_at(found@, self.held(), positions(self.held(), TokenClass::WordLike.test())),
    {
        find_all(self.as_tokens(), TokenClass::WordLike)
    }

    /// The first word, unless text that is not prose stands in front of it.
    fn first_sentence_word(&self) -> (found: Option<&Token>)
        ensures
            is_at(found, self.held(), sentence_word_position(self.held())),
    {
        let tokens = self.as_tokens();
        let word: Option<usize> = find_first(tokens, TokenClass::Word);
        match (word, find_first(tokens, TokenClass::Unlintable)) {
            (Some(at), Some(other)) => if at < other {
                Some(&tokens[at])
            } else {
                None
            },
            _ => token_at(tokens, word),
        }
    }

    /// The first token that is not whitespace.
    fn first_non_whitespace(&self) -> (found: Option<&Token>)
        ensures
            is_at(found, self.held(), first_solid(self.held(), 0)),
    {
        let tokens = self.as_tokens();
        token_at(tokens, find_first_solid(tokens))
    }

    /// The span from the first position that one of the tokens touches to the last.
    fn span(&self) -> (span: Option<Span>)
        ensures
            span is None <==> self.held().len() == 0,
            span matches Some(span) ==> is_hull(span, self.held()),
    {
        hull(self.as_tokens())
    }

    /// The indices of the verbs that link a subject to what is said of it.
    fn iter_linking_verb_indices(&self) -> (indices: Vec<usize>)
        ensures
            indices@ == positions(self.held(), TokenClass::LinkingVerb.test()),
    {
        positions_in_class(self.as_tokens(), TokenClass::LinkingVerb)
    }

    /// The verbs that link a subject to what is said of it.
    fn iter_linking_verbs(&self) -> (found: Vec<&Token>)
        ensures
            are_at(found@, self.held(), positions(self.held(), TokenClass::LinkingVerb.test())),
    {
        find_all(self.as_tokens(), TokenClass::LinkingVerb)
    }

    /// The chunks that the tokens that end a chunk cut the sentences into.
    fn iter_chunks(&self) -> (slices: Vec<&[Token]>)
        ensures
            are_pieces(slices@, self.held(), TokenClass::ChunkTerminator),
    {
        split_behind(self.as_tokens(), TokenClass::ChunkTerminator)
    }

    /// The paragraphs, each with the break behind it.
    fn iter_paragraphs(&self) -> (slices: Vec<&[Token]>)
        ensures
            are_pieces(slices@, self.held(), TokenClass::ParagraphBreak),
    {
        split_behind(self.as_tokens(), TokenClass::ParagraphBreak)
    }

    /// The sentences, each with the token that ends it.
    fn iter_sentences(&self) -> (slices: Vec<&[Token]>)
        ensures
            are_pieces(slices@, self.held(), TokenClass::SentenceTerminator),
    {
        split_behind(self.as_tokens(), TokenClass::SentenceTerminator)
    }
}

impl TokenStringExt for [Token] {
    open spec fn held(&self) -> Seq<Token> {
        self@
    }

    fn as_tokens(&self) -> (tokens: &[Token]) {
        self
    }
}

} // verus!
