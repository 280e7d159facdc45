//! Pairs of quotation marks.

use vstd::prelude::*;
use crate::positions::{
    lemma_positions, lemma_positions_prefix, lemma_positions_same, positions,
    positions_in_class, TokenClass,
};
use crate::punctuation::{Punctuation, Quote};
use crate::token::Token;
use crate::token_kind::TokenKind;

verus! {

/// Whether the token is a quotation mark that knows the other one of a pair.
pub open spec fn is_twinned(kind: TokenKind) -> bool {
    kind matches TokenKind::Punctuation(Punctuation::Quote(quote)) && quote.twin_loc is Some
}

/// Whether no quotation mark knows another one.
pub open spec fn untwinned(tokens: Seq<Token>) -> bool {
    forall|i: int| 0 <= i < tokens.len() ==> !is_twinned((#[trigger] tokens[i]).kind)
}

/// Where the quotation marks stand.
pub open spec fn quote_positions(tokens: Seq<Token>) -> Seq<usize> {
    positions(tokens, TokenClass::Quote.test())
}

/// How many quotation marks stand in front of a token.
pub open spec fn quotes_before(tokens: Seq<Token>, at: int) -> nat {
    quote_positions(tokens.take(at)).len()
}

/// Where the other mark of the pair stands to which the quotation mark at `at` belongs. The
/// first mark is paired with the second, the third with the fourth, and so on; the last of an
/// odd number of marks stays alone.
pub open spec fn twin(tokens: Seq<Token>, at: int) -> Option<usize> {
    let quotes = quote_positions(tokens);
    let rank: int = quotes_before(tokens, at) as int;
    if !tokens[at].kind.is_quote() {
        None
    } else if rank % 2 == 1 {
        Some(quotes[rank - 1])
    } else if rank + 1 < quotes.len() {
        Some(quotes[rank + 1])
    } else {
        None
    }
}

/// The token at `at`, which knows the other mark of its pair if it is one of a pair.
pub open spec fn with_twin(tokens: Seq<Token>, at: int) -> Token {
    match twin(tokens, at) {
        Some(other) => Token {
            span: tokens[at].span,
            kind: TokenKind::Punctuation(Punctuation::Quote(Quote { twin_loc: Some(other) })),
        },
        None => tokens[at],
    }
}

/// The tokens, each mark of a pair knowing the other.
pub open spec fn with_twins(tokens: Seq<Token>) -> Seq<Token> {
    Seq::new(tokens.len(), |at: int| with_twin(tokens, at))
}

/// A quotation mark is listed behind those in front of it.
pub proof fn lemma_rank(tokens: Seq<Token>, at: int)
    requires
        0 <= at < tokens.len() <= usize::MAX,
        tokens[at].kind.is_quote(),
    ensures
        quotes_before(tokens, at) < quote_positions(tokens).len(),
        quote_positions(tokens)[quotes_before(tokens, at) as int] == at,
{
    let test = TokenClass::Quote.test();
    lemma_positions_prefix(tokens, test, at + 1);
    assert(tokens.take(at + 1).drop_last() == tokens.take(at));
    assert(tokens.take(at + 1).last() == tokens[at]);
    let upto = positions(tokens.take(at + 1), test);
    assert(upto == quote_positions(tokens.take(at)).push(at as usize));
    assert(quote_positions(tokens)[upto.len() - 1] == upto[upto.len() - 1]);
}

/// As many quotation marks are listed before an entry as stand in front of it.
pub proof fn lemma_entry_rank(tokens: Seq<Token>, k: int)
    requires
        tokens.len() <= usize::MAX,
        0 <= k < quote_positions(tokens).len(),
    ensures
        quote_positions(tokens)[k] < tokens.len(),
        tokens[quote_positions(tokens)[k] as int].kind.is_quote(),
        quotes_before(tokens, quote_positions(tokens)[k] as int) == k,
{
    let quotes = quote_positions(tokens);
    lemma_positions(tokens, TokenClass::Quote.test());
    assert(quotes[k] < tokens.len());
    let at: int = quotes[k] as int;
    lemma_rank(tokens, at);
    let rank: int = quotes_before(tokens, at) as int;
    if rank < k {
        assert(quotes[rank] < quotes[k]);
    } else if k < rank {
        assert(quotes[k] < quotes[rank]);
    }
}

/// The marks of a pair know each other: the twin of the twin of a quotation mark is the mark
/// itself, and it is another token.
pub proof fn lemma_twins_are_mutual(tokens: Seq<Token>, at: int)
    requires
        0 <= at < tokens.len() <= usize::MAX,
        twin(tokens, at) is Some,
    ensures
        twin(tokens, at)->0 < tokens.len(),
        twin(tokens, at)->0 != at,
        twin(tokens, twin(tokens, at)->0 as int) == Some(at as usize),
        with_twins(tokens)[at].kind == TokenKind::Punctuation(
            Punctuation::Quote(Quote { twin_loc: twin(tokens, at) }),
        ),
        with_twins(tokens)[twin(tokens, at)->0 as int].kind == TokenKind::Punctuation(
            Punctuation::Quote(Quote { twin_loc: Some(at as usize) }),
        ),
{
    lemma_rank(tokens, at);
    lemma_positions(tokens, TokenClass::Quote.test());
    let rank: int = quotes_before(tokens, at) as int;
    if rank % 2 == 1 {
        lemma_entry_rank(tokens, rank - 1);
    } else {
        lemma_entry_rank(tokens, rank + 1);
    }
}

/// Which marks are pairs depends on nothing but where the quotation marks stand.
pub proof fn lemma_same_twin(a: Seq<Token>, b: Seq<Token>, at: int)
    requires
        a.len() == b.len(),
        0 <= at < a.len(),
        forall|i: int| 0 <= i < a.len() ==> (#[trigger] a[i]).kind.is_quote()
            == b[i].kind.is_quote(),
    ensures
        twin(a, at) == twin(b, at),
{
    let test = TokenClass::Quote.test();
    lemma_positions_same(a, b, test);
    assert forall|i: int| 0 <= i < at implies test(#[trigger] a.take(at)[i]) == test(
        b.take(at)[i],
    ) by {
        assert(a[i].kind.is_quote() == b[i].kind.is_quote());
    }
    lemma_positions_same(a.take(at), b.take(at), test);
}

/// At most one quotation mark is without a twin: the last, where their number is odd.
pub proof fn lemma_only_last_quote_alone(tokens: Seq<Token>, at: int)
    requires
        0 <= at < tokens.len() <= usize::MAX,
        tokens[at].kind.is_quote(),
    ensures
        twin(tokens, at) is None <==> quote_positions(tokens).len() % 2 == 1
            && quote_positions(tokens).last() == at,
{
    let quotes = quote_positions(tokens);
    lemma_rank(tokens, at);
    lemma_positions(tokens, TokenClass::Quote.test());
    let rank: int = quotes_before(tokens, at) as int;
    if rank < quotes.len() - 1 {
        assert(quotes[rank] < quotes[quotes.len() - 1]);
    }
}

fn paired(token: Token, other: usize) -> (out: Token)
    ensures
        out.span == token.span,
        out.kind == TokenKind::Punctuation(Punctuation::Quote(Quote { twin_loc: Some(other) })),
{
    Token {
        span: token.span,
        kind: TokenKind::Punctuation(Punctuation::Quote(Quote { twin_loc: Some(other) })),
    }
}

/// Tells each mark of a pair where the other stands.
pub fn fill_twins(tokens: &[Token]) -> (out: Vec<Token>)
    ensures
        out@ == with_twins(tokens@),
{
    let count: usize = tokens.len();
    let quotes: Vec<usize> = positions_in_class(tokens, TokenClass::Quote);
    let mut out: Vec<Token> = Vec::new();
    for i in 0..count
        invariant
            count == tokens@.len(),
            out@ == tokens@.take(i as int),
    {
        out.push(tokens[i]);
    }
    assert(out@ == tokens@);
    let marks: usize = quotes.len();
    let pairs: usize = marks / 2;
    for pair in 0..pairs
        invariant
            count == tokens@.len(),
            quotes@ == quote_positions(tokens@),
            marks == quotes@.len(),
            pairs == marks / 2,
            out@.len() == tokens@.len(),
            forall|i: int|
                0 <= i < tokens@.len() ==> (#[trigger] out@[i]) == (if tokens@[i].kind.is_quote()
                    && quotes_before(tokens@, i) < 2 * pair {
                    with_twin(tokens@, i)
                } else {
                    tokens@[i]
                }),
    {
        let ghost before = out@;
        proof {
            lemma_entry_rank(tokens@, 2 * pair as int);
            lemma_entry_rank(tokens@, 2 * pair as int + 1);
        }
        let a: usize = quotes[pair * 2];
        let b: usize = quotes[pair * 2 + 1];
        out[a] = paired(tokens[a], b);
        out[b] = paired(tokens[b], a);
        assert forall|i: int| 0 <= i < tokens@.len() implies (#[trigger] out@[i]) == (
        if tokens@[i].kind.is_quote() && quotes_before(tokens@, i) < 2 * (pair + 1) {
            with_twin(tokens@, i)
        } else {
            tokens@[i]
        }) by {
            if tokens@[i].kind.is_quote() {
                lemma_rank(tokens@, i);
                let rank: int = quotes_before(tokens@, i) as int;
                if i != a && i != b {
                    assert(out@[i] == before[i]);
                    assert(rank != 2 * pair && rank != 2 * pair + 1);
                }
            } else {
                assert(out@[i] == before[i]);
            }
        }
    }
    assert forall|i: int| 0 <= i < tokens@.len() implies (#[trigger] out@[i]) == with_twin(
        tokens@,
        i,
    ) by {
        if tokens@[i].kind.is_quote() {
            lemma_rank(tokens@, i);
        }
    }
    assert(out@ == with_twins(tokens@));
    out
}

} // verus!
