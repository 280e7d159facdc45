//! Runs of blanks and of line ends.

use vstd::prelude::*;
use crate::condense::{
    condensed, condensed_from, lemma_condensed_unchanged, merged, Block, Group, Grouping,
};
use crate::token::{
    blanks, lemma_blanks_concat, lemma_blanks_one, lemma_blanks_stretch, Token,
};
use crate::token_kind::TokenKind;

verus! {

/// The rule that makes one token of several blank tokens in a row.
#[derive(Clone, Copy)]
pub enum BlankRuns {
    /// Makes one of space tokens that follow each other with nothing between them.
    Spaces,
    /// Makes one of newline tokens that follow each other.
    Newlines,
}

impl BlankRuns {
    /// Whether the rule is about tokens of this kind.
    pub open spec fn collects(self, kind: TokenKind) -> bool {
        match self {
            BlankRuns::Spaces => kind is Space,
            BlankRuns::Newlines => kind is Newline,
        }
    }

    /// Whether two tokens, the second right behind the first, become one.
    pub open spec fn joins(self, a: Token, b: Token) -> bool {
        &&& self.collects(a.kind)
        &&& self.collects(b.kind)
        &&& self is Spaces ==> a.span.end == b.span.start
    }

    /// The kind of a token that stands for `count` blanks or line ends.
    pub open spec fn counting(self, count: usize) -> TokenKind {
        match self {
            BlankRuns::Spaces => TokenKind::Space(count),
            BlankRuns::Newlines => TokenKind::Newline(count),
        }
    }

    /// How many tokens from `at` on become one.
    pub open spec fn run(self, tokens: Seq<Token>, at: int) -> nat
        decreases tokens.len() - at,
    {
        if 0 <= at && at + 1 < tokens.len() && self.joins(tokens[at], tokens[at + 1]) {
            1 + self.run(tokens, at + 1)
        } else {
            1
        }
    }

    /// A run stays within the sequence, its tokens are all collected, and the token behind it
    /// does not belong to it.
    proof fn lemma_run(self, tokens: Seq<Token>, at: int)
        requires
            0 <= at < tokens.len(),
        ensures
            1 <= self.run(tokens, at) <= tokens.len() - at,
            self.collects(tokens[at].kind) ==> self.collects(
                tokens[at + self.run(tokens, at) - 1].kind,
            ),
            !self.collects(tokens[at].kind) ==> self.run(tokens, at) == 1,
            at + self.run(tokens, at) < tokens.len() ==> !self.joins(
                tokens[at + self.run(tokens, at) - 1],
                tokens[at + self.run(tokens, at)],
            ),
        decreases tokens.len() - at,
    {
        if at + 1 < tokens.len() && self.joins(tokens[at], tokens[at + 1]) {
            self.lemma_run(tokens, at + 1);
        }
    }

    fn is_collected(&self, kind: TokenKind) -> (yes: bool)
        ensures
            yes == self.collects(kind),
    {
        match self {
            BlankRuns::Spaces => kind.is_space(),
            BlankRuns::Newlines => kind.is_newline(),
        }
    }

    fn is_joined(&self, a: Token, b: Token) -> (yes: bool)
        ensures
            yes == self.joins(a, b),
    {
        self.is_collected(a.kind) && self.is_collected(b.kind) && match self {
            BlankRuns::Spaces => a.span.end == b.span.start,
            BlankRuns::Newlines => true,
        }
    }
}

/// How many blanks or line ends a kind of token stands for.
fn blanks_of(kind: TokenKind) -> (count: usize)
    ensures
        count == kind.blanks(),
{
    match kind {
        TokenKind::Space(n) => n,
        TokenKind::Newline(n) => n,
        _ => 0,
    }
}

impl Grouping for BlankRuns {
    open spec fn block(&self, tokens: Seq<Token>, source: Seq<char>, at: int) -> Block {
        let width = self.run(tokens, at);
        if self.collects(tokens[at].kind) {
            Block {
                width,
                kind: self.counting(blanks(tokens.subrange(at, at + width)) as usize),
            }
        } else {
            Block { width, kind: tokens[at].kind }
        }
    }

    proof fn block_fits(&self, tokens: Seq<Token>, source: Seq<char>, at: int) {
        self.lemma_run(tokens, at);
    }
}

impl Group for BlankRuns {
    open spec fn applies(&self, tokens: Seq<Token>) -> bool {
        blanks(tokens) <= usize::MAX
    }

    fn block_at(&self, tokens: &[Token], source: &[char], at: usize) -> (block: (
        usize,
        TokenKind,
    )) {
        let first: TokenKind = tokens[at].kind;
        if !self.is_collected(first) {
            return (1, first);
        }
        let mut last: usize = at;
        let mut count: usize = blanks_of(first);
        proof {
            self.lemma_run(tokens@, at as int);
            assert(tokens@.subrange(at as int, at + 1) == seq![tokens@[at as int]]);
            lemma_blanks_one(tokens@[at as int]);
        }
        while last + 1 < tokens.len() && self.is_joined(tokens[last], tokens[last + 1])
            invariant
                at <= last < tokens@.len(),
                blanks(tokens@) <= usize::MAX,
                count == blanks(tokens@.subrange(at as int, last + 1)),
                self.run(tokens@, at as int) == last - at + self.run(tokens@, last as int),
            decreases tokens@.len() - last,
        {
            proof {
                let next = seq![tokens@[last + 1]];
                assert(tokens@.subrange(at as int, last + 2) == tokens@.subrange(
                    at as int,
                    last + 1,
                ) + next);
                lemma_blanks_concat(tokens@.subrange(at as int, last + 1), next);
                lemma_blanks_one(tokens@[last + 1]);
                lemma_blanks_stretch(tokens@, at as int, last + 2);
            }
            last = last + 1;
            count = count + blanks_of(tokens[last].kind);
        }
        let kind: TokenKind = match self {
            BlankRuns::Spaces => TokenKind::Space(count),
            BlankRuns::Newlines => TokenKind::Newline(count),
        };
        (last - at + 1, kind)
    }
}

/// Condensing runs of blanks leaves the number of blanks as it was.
pub proof fn lemma_condensing_keeps_blanks(
    rule: BlankRuns,
    tokens: Seq<Token>,
    source: Seq<char>,
    at: int,
)
    requires
        0 <= at <= tokens.len(),
        blanks(tokens) <= usize::MAX,
    ensures
        blanks(condensed_from(rule, tokens, source, at)) == blanks(
            tokens.subrange(at, tokens.len() as int),
        ),
    decreases tokens.len() - at,
{
    if at < tokens.len() {
        let block = rule.block(tokens, source, at);
        rule.block_fits(tokens, source, at);
        rule.lemma_run(tokens, at);
        let next: int = at + block.width;
        let rest = condensed_from(rule, tokens, source, next);
        lemma_condensing_keeps_blanks(rule, tokens, source, next);
        let taken = tokens.subrange(at, next);
        assert(tokens.subrange(at, tokens.len() as int) == taken + tokens.subrange(
            next,
            tokens.len() as int,
        ));
        lemma_blanks_concat(taken, tokens.subrange(next, tokens.len() as int));
        lemma_blanks_stretch(tokens, at, next);
        assert(condensed_from(rule, tokens, source, at) == seq![merged(tokens, at, block)] + rest);
        lemma_blanks_concat(seq![merged(tokens, at, block)], rest);
        lemma_blanks_one(merged(tokens, at, block));
        if !rule.collects(tokens[at].kind) {
            assert(taken == seq![tokens[at]]);
            lemma_blanks_one(tokens[at]);
        }
    }
}

/// No run of blanks is left after runs of blanks were condensed: of two neighbouring tokens
/// that remain, the second does not belong to the first.
pub proof fn lemma_no_run_remains(
    rule: BlankRuns,
    tokens: Seq<Token>,
    source: Seq<char>,
    at: int,
)
    requires
        0 <= at <= tokens.len(),
    ensures
        forall|k: int, l: int|
            0 <= k && l == k + 1 && l < condensed_from(rule, tokens, source, at).len()
                ==> !rule.joins(
                #[trigger] condensed_from(rule, tokens, source, at)[k],
                #[trigger] condensed_from(rule, tokens, source, at)[l],
            ),
        at < tokens.len() ==> {
            let out = condensed_from(rule, tokens, source, at);
            &&& out.len() > 0
            &&& out[0].span.start == tokens[at].span.start
            &&& rule.collects(out[0].kind) == rule.collects(tokens[at].kind)
        },
    decreases tokens.len() - at,
{
    let out = condensed_from(rule, tokens, source, at);
    if at < tokens.len() {
        let block = rule.block(tokens, source, at);
        rule.block_fits(tokens, source, at);
        rule.lemma_run(tokens, at);
        let next: int = at + block.width;
        let rest = condensed_from(rule, tokens, source, next);
        lemma_no_run_remains(rule, tokens, source, next);
        assert(out == seq![merged(tokens, at, block)] + rest);
        assert forall|k: int, l: int| 0 <= k && l == k + 1 && l < out.len() implies !rule.joins(
            #[trigger] out[k],
            #[trigger] out[l],
        ) by {
            assert(out[l] == rest[l - 1]);
            if k > 0 {
                assert(out[k] == rest[k - 1]);
            }
        }
    }
}

/// Where no run of blanks starts, the rule leaves the token as it is.
proof fn lemma_no_run(rule: BlankRuns, tokens: Seq<Token>, source: Seq<char>, at: int)
    requires
        0 <= at < tokens.len(),
        at + 1 < tokens.len() ==> !rule.joins(tokens[at], tokens[at + 1]),
    ensures
        rule.block(tokens, source, at) == (Block { width: 1, kind: tokens[at].kind }),
{
    assert(tokens.subrange(at, at + 1) == seq![tokens[at]]);
    lemma_blanks_one(tokens[at]);
}

/// Condensing runs of blanks a second time changes nothing.
pub proof fn lemma_condensing_blanks_settles(
    rule: BlankRuns,
    tokens: Seq<Token>,
    source: Seq<char>,
)
    ensures
        condensed(rule, condensed(rule, tokens, source), source) == condensed(rule, tokens, source),
{
    let out = condensed(rule, tokens, source);
    lemma_no_run_remains(rule, tokens, source, 0);
    assert forall|i: int| 0 <= i < out.len() implies (#[trigger] rule.block(out, source, i)) == (
    Block { width: 1, kind: out[i].kind }) by {
        if i + 1 < out.len() {
            assert(!rule.joins(out[i], out[i + 1]));
        }
        lemma_no_run(rule, out, source, i);
    }
    lemma_condensed_unchanged(rule, out, source, 0);
    assert(out.subrange(0, out.len() as int) == out);
}

/// The most line ends that a token can stand for without parting two paragraphs.
pub const LINE_ENDS_WITHIN_PARAGRAPH: usize = 2;

/// The token, made a paragraph break where it stands for more than two line ends.
pub open spec fn as_break(token: Token) -> Token {
    match token.kind {
        TokenKind::Newline(n) if n > LINE_ENDS_WITHIN_PARAGRAPH => Token {
            span: token.span,
            kind: TokenKind::ParagraphBreak,
        },
        _ => token,
    }
}

/// The tokens with the longer runs of line ends made paragraph breaks.
pub open spec fn with_breaks(tokens: Seq<Token>) -> Seq<Token> {
    tokens.map_values(|token: Token| as_break(token))
}

/// Makes paragraph breaks of the longer runs of line ends.
pub fn make_breaks(tokens: &[Token]) -> (out: Vec<Token>)
    ensures
        out@ == with_breaks(tokens@),
{
    let mut out: Vec<Token> = Vec::new();
    for i in 0..tokens.len()
        invariant
            out@ == with_breaks(tokens@).take(i as int),
    {
        let mut token: Token = tokens[i];
        if let TokenKind::Newline(n) = token.kind {
            if n > LINE_ENDS_WITHIN_PARAGRAPH {
                token.kind = TokenKind::ParagraphBreak;
            }
        }
        out.push(token);
    }
    out
}

} // verus!
