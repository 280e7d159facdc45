//! Stretches of tokens that are given by where they start, and ordinals.

use vstd::prelude::*;
use crate::condense::{condensed, condensed_from, merged, Block, Grouping};
use crate::number::{Number, OrdinalSuffix};
use crate::token::{well_formed, Token};
use crate::token_kind::TokenKind;

verus! {

/// The rule that makes one token of `len` tokens wherever a listed index stands.
pub struct Stretches {
    pub starts: Seq<usize>,
    pub len: nat,
}

impl Stretches {
    /// Whether the stretches hold a token each, lie in order, do not meet and end within a
    /// sequence of `count` tokens.
    pub open spec fn fit(self, count: nat) -> bool {
        &&& self.starts.len() > 0 ==> self.len >= 1
        &&& forall|i: int|
            0 <= i < self.starts.len() ==> (#[trigger] self.starts[i]) + self.len <= count
        &&& forall|i: int, j: int|
            0 <= i < j < self.starts.len() ==> (#[trigger] self.starts[i]) + self.len <= (
            #[trigger] self.starts[j])
    }

    /// Whether a stretch starts at `at`.
    pub open spec fn starts_at(self, at: int) -> bool {
        exists|i: int| 0 <= i < self.starts.len() && (#[trigger] self.starts[i]) == at
    }
}

impl Grouping for Stretches {
    open spec fn block(&self, tokens: Seq<Token>, source: Seq<char>, at: int) -> Block {
        if self.starts_at(at) && 1 <= self.len <= tokens.len() - at {
            Block { width: self.len, kind: tokens[at].kind }
        } else {
            Block { width: 1, kind: tokens[at].kind }
        }
    }

    proof fn block_fits(&self, tokens: Seq<Token>, source: Seq<char>, at: int) {
    }
}

/// Keeps of each stretch only the first token, which then reaches to the end of the stretch.
pub fn condense_stretches(
    tokens: &[Token],
    indices: &[usize],
    stretch_len: usize,
    Ghost(source): Ghost<Seq<char>>,
) -> (out: Vec<Token>)
    requires
        (Stretches { starts: indices@, len: stretch_len as nat }).fit(tokens@.len()),
    ensures
        out@ == condensed(
            Stretches { starts: indices@, len: stretch_len as nat },
            tokens@,
            source,
        ),
{
    let ghost rule = Stretches { starts: indices@, len: stretch_len as nat };
    let mut out: Vec<Token> = Vec::new();
    let mut at: usize = 0;
    let mut next: usize = 0;
    while at < tokens.len()
        invariant
            at <= tokens@.len(),
            next <= indices@.len(),
            rule == (Stretches { starts: indices@, len: stretch_len as nat }),
            rule.fit(tokens@.len()),
            forall|i: int| 0 <= i < next ==> (#[trigger] indices@[i]) < at,
            forall|i: int| next <= i < indices@.len() ==> (#[trigger] indices@[i]) >= at,
            out@ + condensed_from(rule, tokens@, source, at as int) == condensed(
                rule,
                tokens@,
                source,
            ),
        decreases tokens@.len() - at,
    {
        let ghost before = out@;
        let mut token: Token = tokens[at];
        let mut width: usize = 1;
        if next < indices.len() && indices[next] == at {
            assert(rule.starts[next as int] + rule.len <= tokens@.len());
            token.span.end = tokens[at + (stretch_len - 1)].span.end;
            width = stretch_len;
            next = next + 1;
            assert(rule.starts_at(at as int));
            assert forall|i: int| next <= i < indices@.len() implies (#[trigger] indices@[i]) >= at
                + width by {
                assert(rule.starts[next - 1] + rule.len <= rule.starts[i]);
            }
        } else {
            assert(!rule.starts_at(at as int));
        }
        out.push(token);
        assert(token == merged(tokens@, at as int, rule.block(tokens@, source, at as int)));
        assert(out@ + condensed_from(rule, tokens@, source, at + width) == before + condensed_from(
            rule,
            tokens@,
            source,
            at as int,
        ));
        at = at + width;
    }
    out
}

/// Of the tokens from `at` on, each stretch that is still to come loses all its tokens but one.
proof fn lemma_rest_shrinks(
    rule: Stretches,
    tokens: Seq<Token>,
    source: Seq<char>,
    at: int,
    next: int,
)
    requires
        rule.fit(tokens.len()),
        0 <= at <= tokens.len(),
        0 <= next <= rule.starts.len(),
        forall|i: int| 0 <= i < next ==> (#[trigger] rule.starts[i]) < at,
        forall|i: int| next <= i < rule.starts.len() ==> (#[trigger] rule.starts[i]) >= at,
    ensures
        condensed_from(rule, tokens, source, at).len() == tokens.len() - at - (rule.starts.len()
            - next) * (rule.len - 1),
    decreases tokens.len() - at,
{
    if at < tokens.len() {
        if next < rule.starts.len() && rule.starts[next] == at {
            assert(rule.starts_at(at));
            let end: int = at + rule.len;
            assert forall|i: int| next + 1 <= i < rule.starts.len() implies (
            #[trigger] rule.starts[i]) >= end by {
                assert(rule.starts[next] + rule.len <= rule.starts[i]);
            }
            lemma_rest_shrinks(rule, tokens, source, end, next + 1);
            let left: int = rule.starts.len() - next;
            let lost: int = rule.len - 1;
            assert(left * lost == (left - 1) * lost + lost) by (nonlinear_arith);
        } else {
            assert(!rule.starts_at(at));
            lemma_rest_shrinks(rule, tokens, source, at + 1, next);
        }
    } else {
        if next < rule.starts.len() {
            assert(rule.starts[next] + rule.len <= tokens.len());
        }
        assert((rule.starts.len() - next) * (rule.len - 1) == 0) by (nonlinear_arith)
            requires
                next == rule.starts.len(),
        ;
    }
}

/// Each stretch loses all its tokens but the first.
pub proof fn lemma_stretches_shrink(rule: Stretches, tokens: Seq<Token>, source: Seq<char>)
    requires
        rule.fit(tokens.len()),
    ensures
        condensed(rule, tokens, source).len() == tokens.len() - rule.starts.len() * (rule.len - 1),
{
    lemma_rest_shrinks(rule, tokens, source, 0, 0);
}

/// The rule that makes one token of a number and the ordinal suffix behind it.
pub struct NumberSuffixes;

impl NumberSuffixes {
    /// The suffix of the number at `at`, where the word behind a number spells one.
    pub open spec fn suffix(tokens: Seq<Token>, source: Seq<char>, at: int) -> Option<
        OrdinalSuffix,
    > {
        if 0 <= at && at + 1 < tokens.len() && tokens[at].kind.is_number() && tokens[at
            + 1].kind.is_word() {
            OrdinalSuffix::spelled_by(tokens[at + 1].span.content(source))
        } else {
            None
        }
    }

    /// The kind of the token at `at` once it knows its suffix.
    pub open spec fn kind(tokens: Seq<Token>, source: Seq<char>, at: int) -> TokenKind {
        match (NumberSuffixes::suffix(tokens, source, at), tokens[at].kind) {
            (Some(suffix), TokenKind::Number(number)) => TokenKind::Number(
                Number { suffix: Some(suffix), precision: number.precision },
            ),
            _ => tokens[at].kind,
        }
    }

    /// The tokens, each number knowing its suffix.
    pub open spec fn marked(tokens: Seq<Token>, source: Seq<char>) -> Seq<Token> {
        Seq::new(
            tokens.len(),
            |i: int|
                Token { span: tokens[i].span, kind: NumberSuffixes::kind(tokens, source, i) },
        )
    }
}

impl Grouping for NumberSuffixes {
    open spec fn block(&self, tokens: Seq<Token>, source: Seq<char>, at: int) -> Block {
        Block {
            width: if NumberSuffixes::suffix(tokens, source, at) is Some {
                2
            } else {
                1
            },
            kind: NumberSuffixes::kind(tokens, source, at),
        }
    }

    proof fn block_fits(&self, tokens: Seq<Token>, source: Seq<char>, at: int) {
    }
}

/// Whether `starts` lists, in order, the numbers that have a suffix behind them.
pub open spec fn lists_suffixed(
    starts: Seq<usize>,
    tokens: Seq<Token>,
    source: Seq<char>,
    until: int,
) -> bool {
    &&& forall|i: int|
        0 <= i < starts.len() ==> (#[trigger] starts[i]) < until && NumberSuffixes::suffix(
            tokens,
            source,
            starts[i] as int,
        ) is Some
    &&& forall|i: int, j: int|
        0 <= i < j < starts.len() ==> (#[trigger] starts[i]) < (#[trigger] starts[j])
    &&& forall|at: int|
        0 <= at < until && (#[trigger] NumberSuffixes::suffix(tokens, source, at)) is Some
            ==> exists|i: int| 0 <= i < starts.len() && #[trigger] starts[i] == at
}

/// Gives each number the suffix behind it, and lists the numbers that got one.
pub fn mark_suffixes(tokens: &[Token], source: &[char]) -> (found: (Vec<Token>, Vec<usize>))
    requires
        well_formed(tokens@, source@.len()),
    ensures
        found.0@ == NumberSuffixes::marked(tokens@, source@),
        lists_suffixed(found.1@, tokens@, source@, tokens@.len() as int),
{
    let mut marked: Vec<Token> = Vec::new();
    let mut starts: Vec<usize> = Vec::new();
    for at in 0..tokens.len()
        invariant
            well_formed(tokens@, source@.len()),
            marked@ == NumberSuffixes::marked(tokens@, source@).take(at as int),
            lists_suffixed(starts@, tokens@, source@, at as int),
    {
        let ghost before = starts@;
        let mut token: Token = tokens[at];
        if tokens.len() - at >= 2 && tokens[at + 1].kind.is_word() {
            if let TokenKind::Number(number) = token.kind {
                let suffix: Option<OrdinalSuffix> = OrdinalSuffix::from_chars(
                    tokens[at + 1].span.get_content(source),
                );
                if suffix.is_some() {
                    token.kind = TokenKind::Number(Number { suffix, precision: number.precision });
                    starts.push(at);
                }
            }
        }
        marked.push(token);
        assert forall|i: int|
            0 <= i < at + 1 && (#[trigger] NumberSuffixes::suffix(
                tokens@,
                source@,
                i,
            )) is Some implies exists|k: int|
            0 <= k < starts@.len() && #[trigger] starts@[k] == i by {
            if i < at {
                let k = choose|k: int| 0 <= k < before.len() && #[trigger] before[k] == i;
                assert(starts@[k] == i);
            } else {
                assert(starts@[starts@.len() - 1] == i);
            }
        }
    }
    assert(marked@ == NumberSuffixes::marked(tokens@, source@));
    (marked, starts)
}

/// The listed numbers start stretches of two tokens, and merging those gives the ordinals.
pub proof fn lemma_suffixes_are_stretches(
    starts: Seq<usize>,
    tokens: Seq<Token>,
    source: Seq<char>,
    at: int,
)
    requires
        0 <= at <= tokens.len(),
        lists_suffixed(starts, tokens, source, tokens.len() as int),
    ensures
        (Stretches { starts, len: 2 }).fit(tokens.len()),
        condensed_from(
            Stretches { starts, len: 2 },
            NumberSuffixes::marked(tokens, source),
            source,
            at,
        ) == condensed_from(NumberSuffixes, tokens, source, at),
    decreases tokens.len() - at,
{
    let rule = Stretches { starts, len: 2 };
    let marked = NumberSuffixes::marked(tokens, source);
    assert forall|i: int, j: int| 0 <= i < j < starts.len() implies (#[trigger] starts[i]) + 2 <= (
    #[trigger] starts[j]) by {
        if starts[i] + 1 == starts[j] {
            assert(tokens[starts[j] as int].kind.is_word());
            assert(tokens[starts[j] as int].kind.is_number());
        }
    }
    if at < tokens.len() {
        let suffixed = NumberSuffixes::suffix(tokens, source, at) is Some;
        assert(rule.starts_at(at) == suffixed) by {
            if suffixed {
                let i = choose|i: int| 0 <= i < starts.len() && #[trigger] starts[i] == at;
                assert(rule.starts[i] == at);
            }
        }
        let next: int = if suffixed { at + 2 } else { at + 1 };
        lemma_suffixes_are_stretches(starts, tokens, source, next);
        assert(merged(marked, at, rule.block(marked, source, at)) == merged(
            tokens,
            at,
            NumberSuffixes.block(tokens, source, at),
        ));
    }
}

} // verus!
