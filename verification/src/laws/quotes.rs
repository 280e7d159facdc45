//! Pairs of quotation marks.

use vstd::prelude::*;
use crate::kept::lemma_condensed_untwinned;
use crate::metadata::WordMetadata;
use crate::positions::{lemma_positions, TokenClass};
use crate::punctuation::{Punctuation, Quote};
use crate::quotes::{
    is_twinned, lemma_entry_rank, lemma_rank, quote_positions, quotes_before, twin, untwinned,
    with_twins,
};
use crate::settle::{
    fully_condensed, is_parse_of, lemma_fully_condensed_well_formed, settled,
};
use crate::token::{well_formed, Token};
use crate::token_kind::TokenKind;

verus! {

/// Whether a quotation mark stands at `at`.
pub open spec fn is_mark(tokens: Seq<Token>, at: int) -> bool {
    &&& 0 <= at < tokens.len()
    &&& tokens[at].kind matches TokenKind::Punctuation(Punctuation::Quote(_))
}

/// How many quotation marks stand in front of `at`.
pub open spec fn marks_before(tokens: Seq<Token>, at: int) -> int
    decreases at,
{
    if at <= 0 {
        0
    } else {
        marks_before(tokens, at - 1) + (if is_mark(tokens, at - 1) {
            1int
        } else {
            0
        })
    }
}

/// Whether no quotation mark stands between `a` and `b`.
pub open spec fn no_mark_between(tokens: Seq<Token>, a: int, b: int) -> bool {
    forall|i: int| a < i < b ==> !#[trigger] is_mark(tokens, i)
}

/// Whether `b` is the next quotation mark behind the one at `a`.
pub open spec fn is_next_mark(tokens: Seq<Token>, a: int, b: int) -> bool {
    &&& a < b
    &&& is_mark(tokens, a)
    &&& is_mark(tokens, b)
    &&& no_mark_between(tokens, a, b)
}

/// The kind of a quotation mark that knows the one at `at`.
pub open spec fn mark_knowing(at: int) -> TokenKind {
    TokenKind::Punctuation(Punctuation::Quote(Quote { twin_loc: Some(at as usize) }))
}

/// Whether `out` holds the tokens, a quotation mark with an even number of marks in front of it
/// knowing the next one and the next one knowing it, and everything else as it was.
pub open spec fn quotes_matched(tokens: Seq<Token>, out: Seq<Token>) -> bool {
    &&& out.len() == tokens.len()
    &&& forall|i: int| 0 <= i < tokens.len() ==> (#[trigger] out[i]).span == tokens[i].span
    &&& forall|i: int|
        0 <= i < tokens.len() && !is_mark(tokens, i) ==> (#[trigger] out[i]) == tokens[i]
    &&& forall|i: int, j: int| #[trigger]
        is_next_mark(tokens, i, j) && marks_before(tokens, i) % 2 == 0 ==> out[i].kind
            == mark_knowing(j) && out[j].kind == mark_knowing(i)
    &&& forall|i: int|
        is_mark(tokens, i) && marks_before(tokens, i) % 2 == 0 && no_mark_between(
            tokens,
            i,
            tokens.len() as int,
        ) ==> (#[trigger] out[i]) == tokens[i]
}

/// The quotation marks in front of a token are counted.
proof fn lemma_marks_before(tokens: Seq<Token>, at: int)
    requires
        0 <= at <= tokens.len(),
    ensures
        marks_before(tokens, at) == quotes_before(tokens, at),
    decreases at,
{
    if at > 0 {
        lemma_marks_before(tokens, at - 1);
        assert(tokens.take(at).drop_last() == tokens.take(at - 1));
        assert(tokens.take(at).last() == tokens[at - 1]);
    } else {
        assert(tokens.take(0) == Seq::<Token>::empty());
    }
}

/// The next quotation mark has one more in front of it.
proof fn lemma_next_mark(tokens: Seq<Token>, a: int, b: int)
    requires
        tokens.len() <= usize::MAX,
        is_next_mark(tokens, a, b),
    ensures
        quotes_before(tokens, b) == quotes_before(tokens, a) + 1,
        quotes_before(tokens, a) + 1 < quote_positions(tokens).len(),
        quote_positions(tokens)[quotes_before(tokens, a) as int] == a,
        quote_positions(tokens)[quotes_before(tokens, b) as int] == b,
{
    let quotes = quote_positions(tokens);
    lemma_rank(tokens, a);
    lemma_rank(tokens, b);
    lemma_positions(tokens, TokenClass::Quote.test());
    let ra: int = quotes_before(tokens, a) as int;
    let rb: int = quotes_before(tokens, b) as int;
    if rb <= ra {
        if rb < ra {
            assert(quotes[rb] < quotes[ra]);
        }
    } else if ra + 1 < rb {
        lemma_entry_rank(tokens, ra + 1);
        assert(quotes[ra] < quotes[ra + 1]);
        assert(quotes[ra + 1] < quotes[rb]);
        assert(is_mark(tokens, quotes[ra + 1] as int));
    }
}

/// Two quotation marks that are listed one after the other have none between them.
proof fn lemma_listed_next(tokens: Seq<Token>, rank: int)
    requires
        tokens.len() <= usize::MAX,
        0 <= rank,
        rank + 1 < quote_positions(tokens).len(),
    ensures
        is_next_mark(
            tokens,
            quote_positions(tokens)[rank] as int,
            quote_positions(tokens)[rank + 1] as int,
        ),
{
    let quotes = quote_positions(tokens);
    lemma_positions(tokens, TokenClass::Quote.test());
    lemma_entry_rank(tokens, rank);
    lemma_entry_rank(tokens, rank + 1);
    assert(quotes[rank] < quotes[rank + 1]);
    assert forall|i: int| quotes[rank] < i < quotes[rank + 1] implies !#[trigger] is_mark(
        tokens,
        i,
    ) by {
        if is_mark(tokens, i) {
            lemma_rank(tokens, i);
            let r: int = quotes_before(tokens, i) as int;
            if r < rank {
                assert(quotes[r] < quotes[rank]);
            } else if r > rank + 1 {
                assert(quotes[rank + 1] < quotes[r]);
            }
        }
    }
}

/// Pairing the quotation marks pairs each one that has an even number of marks in front of it
/// with the next.
pub proof fn lemma_quotes_matched(tokens: Seq<Token>)
    requires
        tokens.len() <= usize::MAX,
    ensures
        quotes_matched(tokens, with_twins(tokens)),
{
    let out = with_twins(tokens);
    assert forall|i: int, j: int| #[trigger]
        is_next_mark(tokens, i, j) && marks_before(tokens, i) % 2 == 0 implies out[i].kind
        == mark_knowing(j) && out[j].kind == mark_knowing(i) by {
        lemma_next_mark(tokens, i, j);
        lemma_marks_before(tokens, i);
        lemma_marks_before(tokens, j);
    }
    assert forall|i: int|
        is_mark(tokens, i) && marks_before(tokens, i) % 2 == 0 && no_mark_between(
            tokens,
            i,
            tokens.len() as int,
        ) implies (#[trigger] out[i]) == tokens[i] by {
        lemma_marks_before(tokens, i);
        lemma_rank(tokens, i);
        let rank: int = quotes_before(tokens, i) as int;
        if rank + 1 < quote_positions(tokens).len() {
            lemma_listed_next(tokens, rank);
            assert(is_mark(tokens, quote_positions(tokens)[rank + 1] as int));
        }
    }
}

/// The earlier of two positions.
pub open spec fn earlier(a: int, b: int) -> int {
    if a < b {
        a
    } else {
        b
    }
}

/// The later of two positions.
pub open spec fn later(a: int, b: int) -> int {
    if a < b {
        b
    } else {
        a
    }
}

/// No quotation mark stands between the two marks of a pair, and an even number of marks stands
/// in front of the earlier one.
pub proof fn lemma_pairs_are_neighbours(tokens: Seq<Token>, at: int, other: usize)
    requires
        tokens.len() <= usize::MAX,
        untwinned(tokens),
        0 <= at < tokens.len(),
        with_twins(tokens)[at].kind == mark_knowing(other as int),
    ensures
        other != at,
        is_mark(tokens, at),
        is_mark(tokens, other as int),
        no_mark_between(tokens, earlier(at, other as int), later(at, other as int)),
        marks_before(tokens, earlier(at, other as int)) % 2 == 0,
{
    assert(!is_twinned(tokens[at].kind));
    assert(twin(tokens, at) == Some(other));
    lemma_rank(tokens, at);
    lemma_marks_before(tokens, at);
    let rank: int = quotes_before(tokens, at) as int;
    if rank % 2 == 1 {
        lemma_listed_next(tokens, rank - 1);
        lemma_entry_rank(tokens, rank - 1);
    } else {
        lemma_listed_next(tokens, rank);
    }
    lemma_marks_before(tokens, earlier(at, other as int));
}

/// In a parsed document no quotation mark stands between the two marks of a pair, and an even
/// number of marks stands in front of the earlier one.
pub proof fn lemma_parsed_pairs_are_neighbours(
    out: Seq<Token>,
    tokens: Seq<Token>,
    source: Seq<char>,
    lookup: spec_fn(Seq<char>) -> Option<WordMetadata>,
    at: int,
    other: usize,
)
    requires
        tokens.len() <= usize::MAX,
        well_formed(tokens, source.len()),
        untwinned(tokens),
        is_parse_of(out, tokens, source, lookup),
        0 <= at < out.len(),
        out[at].kind == mark_knowing(other as int),
    ensures
        other != at,
        is_mark(out, other as int),
        out[other as int].kind == mark_knowing(at),
        no_mark_between(out, earlier(at, other as int), later(at, other as int)),
        marks_before(out, earlier(at, other as int)) % 2 == 0,
{
    let all = fully_condensed(tokens, source);
    let paired = settled(tokens, source);
    lemma_condensed_untwinned(tokens, source);
    lemma_fully_condensed_well_formed(tokens, source);
    assert(out[at] == paired[at]);
    lemma_pairs_are_neighbours(all, at, other);
    lemma_quotes_matched(all);
    let a = earlier(at, other as int);
    let b = later(at, other as int);
    assert(is_next_mark(all, a, b));
    assert forall|i: int| is_mark(all, i) == #[trigger] is_mark(out, i) by {
        if 0 <= i < all.len() {
            assert(paired[i].kind.is_quote() == all[i].kind.is_quote());
        }
    }
    lemma_same_marks(all, out, a);
    assert(out[other as int] == paired[other as int]);
}

/// Where the same tokens are quotation marks, as many stand in front of a token.
proof fn lemma_same_marks(a: Seq<Token>, b: Seq<Token>, at: int)
    requires
        forall|i: int| is_mark(a, i) == #[trigger] is_mark(b, i),
    ensures
        marks_before(a, at) == marks_before(b, at),
    decreases at,
{
    if at > 0 {
        lemma_same_marks(a, b, at - 1);
        assert(is_mark(a, at - 1) == is_mark(b, at - 1));
    }
}

/// All quotation marks but the last of an odd number are in pairs.
pub proof fn lemma_marks_are_paired(tokens: Seq<Token>, at: int)
    requires
        tokens.len() <= usize::MAX,
        is_mark(tokens, at),
        marks_before(tokens, at) % 2 == 1 || !no_mark_between(tokens, at, tokens.len() as int),
    ensures
        is_twinned(with_twins(tokens)[at].kind),
{
    lemma_rank(tokens, at);
    lemma_marks_before(tokens, at);
    let rank: int = quotes_before(tokens, at) as int;
    if rank % 2 == 0 {
        let i = choose|i: int| at < i < tokens.len() && is_mark(tokens, i);
        lemma_rank(tokens, i);
        lemma_positions(tokens, TokenClass::Quote.test());
        let r: int = quotes_before(tokens, i) as int;
        if r < rank {
            assert(quote_positions(tokens)[r] < quote_positions(tokens)[rank]);
        }
    }
}

} // verus!
