//! Expressions that match runs of tokens.

use vstd::prelude::*;
use crate::condense::condensed;
use crate::expr::{
    first_match_len, sequence_len, spells_one_of, whitespace_run, Expr, Matches, Pattern,
};
use crate::laws::characters::{lemma_same_letters, same_but_case};
use crate::laws::groups::{cut, lemma_cut};
use crate::punctuation::Punctuation;
use crate::token::Token;
use crate::token_kind::TokenKind;

verus! {

/// Whether the groups are the matches of an expression wherever it matches, and single tokens
/// elsewhere.
pub open spec fn match_groups<E: Expr>(
    expr: E,
    effect: spec_fn(TokenKind) -> TokenKind,
    tokens: Seq<Token>,
    source: Seq<char>,
    out: Seq<Token>,
    starts: Seq<int>,
) -> bool {
    &&& cut(tokens, out, starts)
    &&& forall|k: int, l: int|
        0 <= k && l == k + 1 && l < starts.len() ==> match expr.match_len(
            tokens,
            source,
            #[trigger] starts[k],
        ) {
            Some(n) => (#[trigger] starts[l]) == starts[k] + n && out[k].kind == effect(
                tokens[starts[k]].kind,
            ),
            None => starts[l] == starts[k] + 1 && out[k].kind == tokens[starts[k]].kind,
        }
}

/// Condensing the matches of an expression merges, from the first token on, the tokens of each
/// match, and changes nothing else.
pub proof fn lemma_matches_merged<E: Expr>(
    expr: E,
    effect: spec_fn(TokenKind) -> TokenKind,
    tokens: Seq<Token>,
    source: Seq<char>,
) -> (starts: Seq<int>)
    requires
        forall|at: int|
            0 <= at < tokens.len() ==> (#[trigger] expr.match_len(tokens, source, at)) != Some(
                0nat,
            ),
    ensures
        match_groups(
            expr,
            effect,
            tokens,
            source,
            condensed(Matches { expr, effect }, tokens, source),
            starts,
        ),
{
    let rule = Matches { expr, effect };
    let out = condensed(rule, tokens, source);
    let starts = lemma_cut(rule, tokens, source);
    assert forall|k: int, l: int| 0 <= k && l == k + 1 && l < starts.len() implies
        match expr.match_len(
        tokens,
        source,
        #[trigger] starts[k],
    ) {
        Some(n) => (#[trigger] starts[l]) == starts[k] + n && out[k].kind == effect(
            tokens[starts[k]].kind,
        ),
        None => starts[l] == starts[k] + 1 && out[k].kind == tokens[starts[k]].kind,
    } by {
        assert(starts[k] < starts[l]);
        expr.match_fits(tokens, source, starts[k]);
    }
    starts
}

/// Whether the tokens from `a` to `b` are what a pattern matches.
pub open spec fn is_match(
    pattern: Pattern,
    tokens: Seq<Token>,
    source: Seq<char>,
    a: int,
    b: int,
) -> bool {
    &&& 0 <= a < b <= tokens.len()
    &&& match pattern {
        Pattern::AnyWord => b == a + 1 && tokens[a].kind is Word,
        Pattern::Apostrophe => b == a + 1 && tokens[a].kind == TokenKind::Punctuation(
            Punctuation::Apostrophe,
        ),
        Pattern::Period => b == a + 1 && tokens[a].kind == TokenKind::Punctuation(
            Punctuation::Period,
        ),
        Pattern::Whitespace => (forall|i: int|
            a <= i < b ==> (#[trigger] tokens[i]).kind is Space || tokens[i].kind is Newline) && (b
            < tokens.len() ==> !(tokens[b].kind is Space) && !(tokens[b].kind is Newline)),
        Pattern::Words(words) => b == a + 1 && tokens[a].kind is Word && exists|k: int|
            0 <= k < words.len() && same_but_case(
                #[trigger] words[k],
                source.subrange(tokens[a].span.start as int, tokens[a].span.end as int),
            ),
    }
}

/// A pattern matches a word, a mark, one of some words in any case, or whitespace as far as it
/// goes, and nothing else.
pub proof fn lemma_pattern(
    pattern: Pattern,
    tokens: Seq<Token>,
    source: Seq<char>,
    at: int,
    end: int,
)
    requires
        0 <= at <= tokens.len(),
    ensures
        is_match(pattern, tokens, source, at, end) <==> pattern.len_at(tokens, source, at)
            == Some((end - at) as nat) && at <= end,
{
    lemma_gap(tokens, at);
    if at < tokens.len() {
        let chars = tokens[at].span.content(source);
        if let Pattern::Words(words) = pattern {
            assert(spells_one_of(words, chars) == exists|k: int|
                0 <= k < words.len() && same_but_case(#[trigger] words[k], chars)) by {
                assert forall|k: int| 0 <= k < words.len() implies crate::chars::same_letters(
                    #[trigger] words[k],
                    chars,
                ) == same_but_case(words[k], chars) by {
                    lemma_same_letters(words[k], chars);
                }
                if spells_one_of(words, chars) {
                    let k = choose|k: int|
                        0 <= k < words.len() && crate::chars::same_letters(
                            #[trigger] words[k],
                            chars,
                        );
                    assert(same_but_case(words[k], chars));
                }
                if exists|k: int| 0 <= k < words.len() && same_but_case(#[trigger] words[k], chars) {
                    let k = choose|k: int|
                        0 <= k < words.len() && same_but_case(#[trigger] words[k], chars);
                    assert(crate::chars::same_letters(words[k], chars));
                }
            }
        }
        if pattern is Whitespace && is_match(pattern, tokens, source, at, end) {
            let stop = at + whitespace_run(tokens, at);
            if end < stop {
                assert(tokens[end].kind is Space || tokens[end].kind is Newline);
            } else if stop < end {
                assert(tokens[stop].kind is Space || tokens[stop].kind is Newline);
            }
        }
    }
}

proof fn lemma_gap(tokens: Seq<Token>, at: int)
    requires
        0 <= at <= tokens.len(),
    ensures
        at + whitespace_run(tokens, at) <= tokens.len(),
        forall|i: int|
            at <= i < at + whitespace_run(tokens, at) ==> (#[trigger] tokens[i]).kind is Space
                || tokens[i].kind is Newline,
        at + whitespace_run(tokens, at) < tokens.len() ==> !(tokens[at + whitespace_run(
            tokens,
            at,
        )].kind is Space) && !(tokens[at + whitespace_run(tokens, at)].kind is Newline),
    decreases tokens.len() - at,
{
    if at < tokens.len() && (tokens[at].kind is Space || tokens[at].kind is Newline) {
        lemma_gap(tokens, at + 1);
    }
}

/// A sequence matches what its first part matches and, right behind that, what its second part
/// does; nothing matches no token.
pub proof fn lemma_sequence_parts(
    a: Seq<Pattern>,
    b: Seq<Pattern>,
    tokens: Seq<Token>,
    source: Seq<char>,
    at: int,
)
    ensures
        sequence_len(Seq::empty(), tokens, source, at) == Some(0nat),
        sequence_len(a + b, tokens, source, at) == match sequence_len(a, tokens, source, at) {
            Some(n) => match sequence_len(b, tokens, source, at + n) {
                Some(m) => Some(n + m),
                None => None,
            },
            None => None,
        },
    decreases a.len(),
{
    if a.len() == 0 {
        assert(a + b == b);
    } else {
        assert((a + b).drop_first() == a.drop_first() + b);
        assert((a + b)[0] == a[0]);
        if let Some(n) = a[0].len_at(tokens, source, at) {
            lemma_sequence_parts(a.drop_first(), b, tokens, source, at + n);
        }
    }
}

/// Of several sequences the first that matches is taken, and none only where none matches.
pub proof fn lemma_first_match(
    exprs: Seq<Seq<Pattern>>,
    tokens: Seq<Token>,
    source: Seq<char>,
    at: int,
)
    ensures
        match first_match_len(exprs, tokens, source, at) {
            Some(n) => exists|k: int|
                0 <= k < exprs.len() && sequence_len(#[trigger] exprs[k], tokens, source, at)
                    == Some(n) && forall|i: int|
                    0 <= i < k ==> sequence_len(#[trigger] exprs[i], tokens, source, at) is None,
            None => forall|i: int|
                0 <= i < exprs.len() ==> sequence_len(
                    #[trigger] exprs[i],
                    tokens,
                    source,
                    at,
                ) is None,
        },
    decreases exprs.len(),
{
    if exprs.len() > 0 {
        if sequence_len(exprs[0], tokens, source, at) is None {
            let rest = exprs.drop_first();
            lemma_first_match(rest, tokens, source, at);
            match first_match_len(rest, tokens, source, at) {
                Some(n) => {
                    let k = choose|k: int|
                        0 <= k < rest.len() && sequence_len(#[trigger] rest[k], tokens, source, at)
                            == Some(n) && forall|i: int|
                            0 <= i < k ==> sequence_len(
                                #[trigger] rest[i],
                                tokens,
                                source,
                                at,
                            ) is None;
                    assert(exprs[k + 1] == rest[k]);
                    assert forall|i: int| 0 <= i < k + 1 implies sequence_len(
                        #[trigger] exprs[i],
                        tokens,
                        source,
                        at,
                    ) is None by {
                        if i > 0 {
                            assert(exprs[i] == rest[i - 1]);
                        }
                    }
                },
                None => {
                    assert forall|i: int| 0 <= i < exprs.len() implies sequence_len(
                        #[trigger] exprs[i],
                        tokens,
                        source,
                        at,
                    ) is None by {
                        if i > 0 {
                            assert(exprs[i] == rest[i - 1]);
                        }
                    }
                },
            }
        } else {
            assert(sequence_len(exprs[0], tokens, source, at) is Some);
        }
    }
}

} // verus!
