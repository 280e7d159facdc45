//! Cutting a sequence of tokens into groups.

use vstd::prelude::*;
use crate::condense::{block_starts, condensed, lemma_block_starts, Grouping};
use crate::token::Token;

verus! {

/// Whether each token of `out` takes the place of a group of tokens: the group of the token at
/// `k` holds the tokens from `starts[k]` to `starts[k + 1]`, and the token reaches from the start
/// of the group's first token to the end of its last. The groups follow each other without a
/// gap, from the first token to the last.
pub open spec fn cut(tokens: Seq<Token>, out: Seq<Token>, starts: Seq<int>) -> bool {
    &&& starts.len() == out.len() + 1
    &&& starts[0] == 0
    &&& starts[out.len() as int] == tokens.len()
    &&& forall|k: int, l: int|
        0 <= k && l == k + 1 && l < starts.len() ==> 0 <= (#[trigger] starts[k]) < (
        #[trigger] starts[l]) <= tokens.len() && out[k].span.start == tokens[starts[k]].span.start
            && out[k].span.end == tokens[starts[l] - 1].span.end
}

/// Condensing by a rule cuts the tokens into groups, one for each block.
pub proof fn lemma_cut<G: Grouping>(rule: G, tokens: Seq<Token>, source: Seq<char>) -> (starts: Seq<
    int,
>)
    ensures
        cut(tokens, condensed(rule, tokens, source), starts),
        forall|k: int, l: int|
            0 <= k && l == k + 1 && l < starts.len() ==> (#[trigger] starts[l]) == (
            #[trigger] starts[k]) + rule.block(tokens, source, starts[k]).width && condensed(
                rule,
                tokens,
                source,
            )[k].kind == rule.block(tokens, source, starts[k]).kind,
{
    let out = condensed(rule, tokens, source);
    let inner = block_starts(rule, tokens, source, 0);
    let starts = inner.push(tokens.len() as int);
    lemma_block_starts(rule, tokens, source, 0);
    assert forall|k: int, l: int| 0 <= k && l == k + 1 && l < starts.len() implies 0 <= (
    #[trigger] starts[k]) < (#[trigger] starts[l]) <= tokens.len() && out[k].span.start
        == tokens[starts[k]].span.start && out[k].span.end == tokens[starts[l] - 1].span.end
        && starts[l] == starts[k] + rule.block(tokens, source, starts[k]).width && out[k].kind
        == rule.block(tokens, source, starts[k]).kind by {
        assert(starts[k] == inner[k]);
        rule.block_fits(tokens, source, inner[k]);
        if l < inner.len() {
            assert(starts[l] == inner[l]);
            assert(inner[l] == inner[k] + rule.block(tokens, source, inner[k]).width);
        } else {
            assert(inner[k] == inner.last());
        }
    }
    starts
}

/// Every token belongs to one of the groups.
pub proof fn lemma_group_of(
    tokens: Seq<Token>,
    out: Seq<Token>,
    starts: Seq<int>,
    at: int,
) -> (k: int)
    requires
        cut(tokens, out, starts),
        0 <= at < tokens.len(),
    ensures
        0 <= k < out.len(),
        starts[k] <= at < starts[k + 1],
{
    lemma_group_among(tokens, out, starts, at, out.len() as int)
}

proof fn lemma_group_among(
    tokens: Seq<Token>,
    out: Seq<Token>,
    starts: Seq<int>,
    at: int,
    n: int,
) -> (k: int)
    requires
        cut(tokens, out, starts),
        0 <= n <= out.len(),
        0 <= at < starts[n],
    ensures
        0 <= k < n,
        starts[k] <= at < starts[k + 1],
    decreases n,
{
    assert(n > 0);
    assert(starts[n - 1] < starts[n]);
    if starts[n - 1] <= at {
        n - 1
    } else {
        lemma_group_among(tokens, out, starts, at, n - 1)
    }
}

} // verus!
