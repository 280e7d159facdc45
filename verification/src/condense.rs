//! Merging neighbouring tokens into one.
//!
//! A pass over a document is given by the block that it makes of the tokens at each position:
//! how many tokens the block spans, and the kind of the one token that takes their place. The
//! pass starts at the first token and goes on behind each block.

use vstd::prelude::*;
use crate::span::Span;
use crate::token::{
    blanks, lemma_blanks_concat, lemma_blanks_one, tiles, well_formed, Token,
};
use crate::token_kind::TokenKind;

verus! {

/// A stretch of tokens that is to become one token.
pub struct Block {
    pub width: nat,
    pub kind: TokenKind,
}

/// A rule that says which block starts at a position.
pub trait Grouping: Sized {
    spec fn block(&self, tokens: Seq<Token>, source: Seq<char>, at: int) -> Block;

    /// A block holds a token and does not reach past the last one.
    proof fn block_fits(&self, tokens: Seq<Token>, source: Seq<char>, at: int)
        requires
            0 <= at < tokens.len(),
        ensures
            1 <= self.block(tokens, source, at).width <= tokens.len() - at,
    ;
}

/// A rule that can be carried out.
pub trait Group: Grouping {
    /// What the rule asks of the tokens that it is applied to.
    spec fn applies(&self, tokens: Seq<Token>) -> bool;

    /// The width and the kind of the block at a position.
    fn block_at(&self, tokens: &[Token], source: &[char], at: usize) -> (block: (usize, TokenKind))
        requires
            at < tokens@.len(),
            well_formed(tokens@, source@.len()),
            self.applies(tokens@),
        ensures
            block.0 == self.block(tokens@, source@, at as int).width,
            block.1 == self.block(tokens@, source@, at as int).kind,
    ;
}

/// The token that takes the place of a block: it reaches from the start of the block's first
/// token to the end of its last.
pub open spec fn merged(tokens: Seq<Token>, at: int, block: Block) -> Token {
    Token {
        span: Span {
            start: tokens[at].span.start,
            end: tokens[at + block.width - 1].span.end,
        },
        kind: block.kind,
    }
}

/// What a rule makes of the tokens from `at` on.
pub open spec fn condensed_from<G: Grouping>(
    rule: G,
    tokens: Seq<Token>,
    source: Seq<char>,
    at: int,
) -> Seq<Token>
    decreases tokens.len() - at,
{
    let block = rule.block(tokens, source, at);
    if at < 0 || at >= tokens.len() || block.width < 1 || at + block.width > tokens.len() {
        Seq::empty()
    } else {
        seq![merged(tokens, at, block)] + condensed_from(rule, tokens, source, at + block.width)
    }
}

/// What a rule makes of a sequence of tokens.
pub open spec fn condensed<G: Grouping>(rule: G, tokens: Seq<Token>, source: Seq<char>) -> Seq<
    Token,
> {
    condensed_from(rule, tokens, source, 0)
}

/// Replaces each block of tokens by one token.
pub fn condense<G: Group>(rule: &G, tokens: &[Token], source: &[char]) -> (out: Vec<Token>)
    requires
        well_formed(tokens@, source@.len()),
        rule.applies(tokens@),
    ensures
        out@ == condensed(*rule, tokens@, source@),
{
    let mut out: Vec<Token> = Vec::new();
    let mut at: usize = 0;
    while at < tokens.len()
        invariant
            at <= tokens@.len(),
            well_formed(tokens@, source@.len()),
            rule.applies(tokens@),
            out@ + condensed_from(*rule, tokens@, source@, at as int) == condensed(
                *rule,
                tokens@,
                source@,
            ),
        decreases tokens@.len() - at,
    {
        proof {
            rule.block_fits(tokens@, source@, at as int);
        }
        let (width, kind) = rule.block_at(tokens, source, at);
        let ghost before = out@;
        let span = Span { start: tokens[at].span.start, end: tokens[at + width - 1].span.end };
        let token = Token { span, kind };
        out.push(token);
        assert(token == merged(tokens@, at as int, rule.block(tokens@, source@, at as int)));
        assert(out@ + condensed_from(*rule, tokens@, source@, at + width) == before
            + condensed_from(*rule, tokens@, source@, at as int));
        at = at + width;
    }
    out
}

/// Two rules that make the same blocks make the same tokens.
pub proof fn lemma_same_blocks<G: Grouping, H: Grouping>(
    a: G,
    b: H,
    tokens: Seq<Token>,
    source: Seq<char>,
    at: int,
)
    requires
        0 <= at <= tokens.len(),
        forall|i: int|
            0 <= i < tokens.len() ==> (#[trigger] a.block(tokens, source, i)) == b.block(
                tokens,
                source,
                i,
            ),
    ensures
        condensed_from(a, tokens, source, at) == condensed_from(b, tokens, source, at),
    decreases tokens.len() - at,
{
    if at < tokens.len() {
        a.block_fits(tokens, source, at);
        let block = a.block(tokens, source, at);
        lemma_same_blocks(a, b, tokens, source, at + block.width);
    }
}

/// A rule all of whose blocks are single tokens as they were changes nothing.
pub proof fn lemma_condensed_unchanged<G: Grouping>(
    rule: G,
    tokens: Seq<Token>,
    source: Seq<char>,
    at: int,
)
    requires
        0 <= at <= tokens.len(),
        forall|i: int|
            0 <= i < tokens.len() ==> (#[trigger] rule.block(tokens, source, i)) == (Block {
                width: 1,
                kind: tokens[i].kind,
            }),
    ensures
        condensed_from(rule, tokens, source, at) == tokens.subrange(at, tokens.len() as int),
    decreases tokens.len() - at,
{
    if at < tokens.len() {
        lemma_condensed_unchanged(rule, tokens, source, at + 1);
        let block = rule.block(tokens, source, at);
        assert(merged(tokens, at, block) == tokens[at]);
        assert(condensed_from(rule, tokens, source, at) == seq![tokens[at]] + tokens.subrange(
            at + 1,
            tokens.len() as int,
        ));
    }
}

/// Where the blocks start that a rule makes of the tokens from `at` on.
pub open spec fn block_starts<G: Grouping>(
    rule: G,
    tokens: Seq<Token>,
    source: Seq<char>,
    at: int,
) -> Seq<int>
    decreases tokens.len() - at,
{
    let block = rule.block(tokens, source, at);
    if at < 0 || at >= tokens.len() || block.width < 1 || at + block.width > tokens.len() {
        Seq::empty()
    } else {
        seq![at] + block_starts(rule, tokens, source, at + block.width)
    }
}

/// Each condensed token takes the place of the block that starts where the block before it ends.
pub proof fn lemma_block_starts<G: Grouping>(
    rule: G,
    tokens: Seq<Token>,
    source: Seq<char>,
    at: int,
)
    requires
        0 <= at <= tokens.len(),
    ensures
        ({
            let starts = block_starts(rule, tokens, source, at);
            let out = condensed_from(rule, tokens, source, at);
            &&& starts.len() == out.len()
            &&& at < tokens.len() ==> starts.len() > 0 && starts[0] == at
            &&& at == tokens.len() ==> starts.len() == 0
            &&& forall|k: int|
                0 <= k < starts.len() ==> at <= (#[trigger] starts[k]) < tokens.len() && out[k]
                    == merged(tokens, starts[k], rule.block(tokens, source, starts[k]))
            &&& forall|k: int, l: int|
                0 <= k && l == k + 1 && l < starts.len() ==> (#[trigger] starts[l]) == (
                #[trigger] starts[k]) + rule.block(tokens, source, starts[k]).width
            &&& starts.len() > 0 ==> starts.last() + rule.block(
                tokens,
                source,
                starts.last(),
            ).width == tokens.len()
        }),
    decreases tokens.len() - at,
{
    if at < tokens.len() {
        rule.block_fits(tokens, source, at);
        let block = rule.block(tokens, source, at);
        let next: int = at + block.width;
        lemma_block_starts(rule, tokens, source, next);
        let starts = block_starts(rule, tokens, source, at);
        let out = condensed_from(rule, tokens, source, at);
        let rest = block_starts(rule, tokens, source, next);
        let rest_out = condensed_from(rule, tokens, source, next);
        assert(starts == seq![at] + rest);
        assert(out == seq![merged(tokens, at, block)] + rest_out);
        assert forall|k: int| 0 <= k < starts.len() implies at <= (#[trigger] starts[k])
            < tokens.len() && out[k] == merged(
            tokens,
            starts[k],
            rule.block(tokens, source, starts[k]),
        ) by {
            if k > 0 {
                assert(starts[k] == rest[k - 1]);
                assert(out[k] == rest_out[k - 1]);
            }
        }
        assert forall|k: int, l: int| 0 <= k && l == k + 1 && l < starts.len() implies (
        #[trigger] starts[l]) == (#[trigger] starts[k]) + rule.block(
            tokens,
            source,
            starts[k],
        ).width by {
            assert(starts[l] == rest[l - 1]);
            if k > 0 {
                assert(starts[k] == rest[k - 1]);
            }
        }
        if rest.len() > 0 {
            assert(starts.last() == rest.last());
        }
    }
}

/// Condensing keeps the tokens in order and within the source, and gives no more tokens than
/// there were.
pub proof fn lemma_condensed_well_formed<G: Grouping>(
    rule: G,
    tokens: Seq<Token>,
    source: Seq<char>,
    at: int,
)
    requires
        0 <= at <= tokens.len(),
        well_formed(tokens, source.len()),
    ensures
        well_formed(condensed_from(rule, tokens, source, at), source.len()),
        condensed_from(rule, tokens, source, at).len() <= tokens.len() - at,
        at < tokens.len() ==> forall|k: int|
            0 <= k < condensed_from(rule, tokens, source, at).len() ==> tokens[at].span.start <= (
            #[trigger] condensed_from(rule, tokens, source, at)[k]).span.start,
    decreases tokens.len() - at,
{
    let out = condensed_from(rule, tokens, source, at);
    if at < tokens.len() {
        rule.block_fits(tokens, source, at);
        let block = rule.block(tokens, source, at);
        let next: int = at + block.width;
        let rest = condensed_from(rule, tokens, source, next);
        lemma_condensed_well_formed(rule, tokens, source, next);
        let first = merged(tokens, at, block);
        assert(out == seq![first] + rest);
        assert(first.span.fits(source.len())) by {
            if block.width > 1 {
                assert(tokens[at].span.end <= tokens[next - 1].span.start);
            }
        }
        assert forall|k: int| 0 <= k < rest.len() implies first.span.end <= (
        #[trigger] rest[k]).span.start by {
            assert(tokens[next - 1].span.end <= tokens[next].span.start);
        }
        assert forall|k: int| 0 <= k < out.len() implies (#[trigger] out[k]).span.fits(
            source.len(),
        ) && tokens[at].span.start <= out[k].span.start by {
            if k > 0 {
                assert(out[k] == rest[k - 1]);
            }
        }
        assert forall|i: int, j: int| 0 <= i < j < out.len() implies (
        #[trigger] out[i]).span.end <= (#[trigger] out[j]).span.start by {
            assert(out[j] == rest[j - 1]);
            if i > 0 {
                assert(out[i] == rest[i - 1]);
            }
        }
    }
}

/// Whether no block stands for more blanks than its first token.
pub open spec fn adds_no_blanks<G: Grouping>(
    rule: G,
    tokens: Seq<Token>,
    source: Seq<char>,
) -> bool {
    forall|at: int|
        0 <= at < tokens.len() ==> (#[trigger] rule.block(tokens, source, at)).kind.blanks()
            <= tokens[at].kind.blanks()
}

/// Condensing by such a rule gives tokens that stand for no more blanks.
pub proof fn lemma_condensed_blanks<G: Grouping>(
    rule: G,
    tokens: Seq<Token>,
    source: Seq<char>,
    at: int,
)
    requires
        0 <= at <= tokens.len(),
        adds_no_blanks(rule, tokens, source),
    ensures
        blanks(condensed_from(rule, tokens, source, at)) <= blanks(
            tokens.subrange(at, tokens.len() as int),
        ),
    decreases tokens.len() - at,
{
    let left = tokens.subrange(at, tokens.len() as int);
    if at < tokens.len() {
        rule.block_fits(tokens, source, at);
        let block = rule.block(tokens, source, at);
        let next: int = at + block.width;
        let first = merged(tokens, at, block);
        let rest = condensed_from(rule, tokens, source, next);
        lemma_condensed_blanks(rule, tokens, source, next);
        assert(condensed_from(rule, tokens, source, at) == seq![first] + rest);
        lemma_blanks_concat(seq![first], rest);
        lemma_blanks_one(first);
        let inner = tokens.subrange(at + 1, next);
        let outer = tokens.subrange(next, tokens.len() as int);
        assert(left == (seq![tokens[at]] + inner) + outer);
        lemma_blanks_concat(seq![tokens[at]] + inner, outer);
        lemma_blanks_concat(seq![tokens[at]], inner);
        lemma_blanks_one(tokens[at]);
    }
}

/// Condensing tokens that cover a stretch of a text gives tokens that cover it too.
pub proof fn lemma_condensed_tiles<G: Grouping>(
    rule: G,
    tokens: Seq<Token>,
    source: Seq<char>,
    at: int,
    to: int,
)
    requires
        0 <= at < tokens.len(),
        tiles(tokens, tokens[0].span.start as int, to),
        well_formed(tokens, source.len()),
    ensures
        tiles(condensed_from(rule, tokens, source, at), tokens[at].span.start as int, to),
        condensed_from(rule, tokens, source, at).len() > 0,
    decreases tokens.len() - at,
{
    let out = condensed_from(rule, tokens, source, at);
    rule.block_fits(tokens, source, at);
    let block = rule.block(tokens, source, at);
    let next: int = at + block.width;
    let rest = condensed_from(rule, tokens, source, next);
    let first = merged(tokens, at, block);
    assert(out == seq![first] + rest);
    assert(first.span.start <= first.span.end) by {
        if block.width > 1 {
            assert(tokens[at].span.end <= tokens[next - 1].span.start);
        }
    }
    if next < tokens.len() {
        lemma_condensed_tiles(rule, tokens, source, next, to);
        assert(tokens[next - 1].span.end == tokens[next].span.start);
        assert(out.last() == rest.last());
        assert forall|i: int, j: int|
            0 <= i && j == i + 1 && j < out.len() implies (#[trigger] out[i]).span.end == (
        #[trigger] out[j]).span.start by {
            assert(out[j] == rest[j - 1]);
            if i > 0 {
                assert(out[i] == rest[i - 1]);
            }
        }
        assert forall|i: int| 0 <= i < out.len() implies (#[trigger] out[i]).span.start
            <= out[i].span.end by {
            if i > 0 {
                assert(out[i] == rest[i - 1]);
            }
        }
    } else {
        assert(out == seq![first]);
    }
}

} // verus!
