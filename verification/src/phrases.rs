//! Contractions, ellipses and abbreviations of Latin phrases.

use vstd::prelude::*;
use std::rc::Rc;
use crate::condense::{
    block_starts, condensed, lemma_block_starts, lemma_condensed_unchanged, lemma_same_blocks,
    Block, Grouping,
};
use crate::expr::{
    first_match_len, matches_tokens, repeated_len, sequence_len, spells_one_of, whitespace_run,
    Expr, FirstMatchOf, Matches, Pattern, Repeating, SequenceExpr, WordSet,
};
use crate::punctuation::Punctuation;
use crate::token::Token;
use crate::token_kind::TokenKind;

verus! {

/// The rule that makes one word of a contraction: a word, an apostrophe and a word.
pub struct Contractions;

impl Contractions {
    /// Whether a contraction starts at `at`.
    pub open spec fn contraction(tokens: Seq<Token>, at: int) -> bool {
        &&& 0 <= at
        &&& at + 2 < tokens.len()
        &&& tokens[at].kind.is_word()
        &&& tokens[at + 1].kind.is_apostrophe()
        &&& tokens[at + 2].kind.is_word()
    }
}

impl Grouping for Contractions {
    open spec fn block(&self, tokens: Seq<Token>, source: Seq<char>, at: int) -> Block {
        Block {
            width: if Contractions::contraction(tokens, at) {
                3
            } else {
                1
            },
            kind: tokens[at].kind,
        }
    }

    proof fn block_fits(&self, tokens: Seq<Token>, source: Seq<char>, at: int) {
    }
}

/// What a contraction is matched by.
pub open spec fn contraction_pattern() -> Seq<Pattern> {
    seq![Pattern::AnyWord, Pattern::Apostrophe, Pattern::AnyWord]
}

/// The expression that matches contractions.
pub fn contraction_expr() -> (expr: Rc<SequenceExpr>)
    ensures
        expr@ == contraction_pattern(),
{
    let expr = SequenceExpr::default().then_any_word().then_apostrophe().then_any_word();
    assert(expr@ == contraction_pattern());
    Rc::new(expr)
}

/// Merging the matches of the expression for contractions merges the contractions.
pub proof fn lemma_contractions(expr: &SequenceExpr, tokens: Seq<Token>, source: Seq<char>)
    requires
        expr@ == contraction_pattern(),
    ensures
        matches_tokens(*expr, tokens, source),
        condensed(Matches { expr: *expr, effect: |kind: TokenKind| kind }, tokens, source) == condensed(
            Contractions,
            tokens,
            source,
        ),
{
    let rule = Matches { expr: *expr, effect: |kind: TokenKind| kind };
    let steps = contraction_pattern();
    assert(steps.drop_first().drop_first().drop_first() == Seq::<Pattern>::empty());
    assert forall|at: int| 0 <= at < tokens.len() implies (#[trigger] expr.match_len(
        tokens,
        source,
        at,
    )) == (if Contractions::contraction(tokens, at) {
        Some(3nat)
    } else {
        None
    }) by {
        reveal_with_fuel(sequence_len, 4);
    }
    lemma_same_blocks(rule, Contractions, tokens, source, 0);
}

/// The fewest periods that make an ellipsis.
pub const PERIODS_OF_ELLIPSIS: usize = 2;

/// The rule that makes an ellipsis of periods in a row.
pub struct Ellipses;

impl Ellipses {
    /// How many periods follow each other from `at` on.
    pub open spec fn periods(tokens: Seq<Token>, at: int) -> nat
        decreases tokens.len() - at,
    {
        if 0 <= at < tokens.len() && tokens[at].kind.is_period() {
            1 + Ellipses::periods(tokens, at + 1)
        } else {
            0
        }
    }

    proof fn lemma_periods_fit(tokens: Seq<Token>, at: int)
        requires
            0 <= at <= tokens.len(),
        ensures
            at + Ellipses::periods(tokens, at) <= tokens.len(),
        decreases tokens.len() - at,
    {
        if at < tokens.len() && tokens[at].kind.is_period() {
            Ellipses::lemma_periods_fit(tokens, at + 1);
        }
    }
}

impl Grouping for Ellipses {
    open spec fn block(&self, tokens: Seq<Token>, source: Seq<char>, at: int) -> Block {
        let periods = Ellipses::periods(tokens, at);
        if periods >= PERIODS_OF_ELLIPSIS {
            Block { width: periods, kind: TokenKind::Punctuation(Punctuation::Ellipsis) }
        } else {
            Block { width: 1, kind: tokens[at].kind }
        }
    }

    proof fn block_fits(&self, tokens: Seq<Token>, source: Seq<char>, at: int) {
        Ellipses::lemma_periods_fit(tokens, at);
    }
}

/// Condensing ellipses leaves no two periods in a row.
proof fn lemma_no_periods_in_a_row(tokens: Seq<Token>, source: Seq<char>, k: int)
    requires
        0 <= k,
        k + 1 < condensed(Ellipses, tokens, source).len(),
        condensed(Ellipses, tokens, source)[k].kind.is_period(),
    ensures
        !condensed(Ellipses, tokens, source)[k + 1].kind.is_period(),
{
    lemma_block_starts(Ellipses, tokens, source, 0);
    let starts = block_starts(Ellipses, tokens, source, 0);
    let at = starts[k];
    let next = starts[k + 1];
    assert(next == at + 1);
    assert(Ellipses::periods(tokens, at) == 1 + Ellipses::periods(tokens, next));
    assert(!tokens[next].kind.is_period());
}

/// Condensing ellipses a second time changes nothing.
pub proof fn lemma_condensing_ellipses_settles(tokens: Seq<Token>, source: Seq<char>)
    ensures
        condensed(Ellipses, condensed(Ellipses, tokens, source), source) == condensed(
            Ellipses,
            tokens,
            source,
        ),
{
    let out = condensed(Ellipses, tokens, source);
    assert forall|i: int| 0 <= i < out.len() implies (#[trigger] Ellipses.block(out, source, i))
        == (Block { width: 1, kind: out[i].kind }) by {
        if out[i].kind.is_period() && i + 1 < out.len() {
            lemma_no_periods_in_a_row(tokens, source, i);
        }
        assert(Ellipses::periods(out, i + 1) == 0 || !out[i].kind.is_period());
    }
    lemma_condensed_unchanged(Ellipses, out, source, 0);
    assert(out.subrange(0, out.len() as int) == out);
}

/// The expression that matches the periods of an ellipsis.
pub fn ellipsis_pattern() -> (expr: Rc<Repeating>)
    ensures
        expr.inner() == seq![Pattern::Period],
        expr.required() == PERIODS_OF_ELLIPSIS,
{
    let period = SequenceExpr::default().then_period();
    assert(period@ == seq![Pattern::Period]);
    Rc::new(Repeating::new(period, PERIODS_OF_ELLIPSIS))
}

proof fn lemma_repeated_periods(
    required: nat,
    tokens: Seq<Token>,
    source: Seq<char>,
    at: int,
    done: nat,
)
    requires
        0 <= at <= tokens.len(),
    ensures
        repeated_len(seq![Pattern::Period], required, tokens, source, at, done) == (if done
            + Ellipses::periods(tokens, at) >= required {
            Some(Ellipses::periods(tokens, at))
        } else {
            None
        }),
    decreases tokens.len() - at,
{
    let inner = seq![Pattern::Period];
    assert(inner.drop_first() == Seq::<Pattern>::empty());
    reveal_with_fuel(sequence_len, 2);
    if at < tokens.len() && tokens[at].kind.is_period() {
        assert(sequence_len(inner, tokens, source, at) == Some(1nat));
        lemma_repeated_periods(required, tokens, source, at + 1, done + 1);
    } else {
        assert(sequence_len(inner, tokens, source, at) is None);
    }
}

/// Merging the matches of the expression for ellipses makes the ellipses.
pub proof fn lemma_ellipses(expr: &Repeating, tokens: Seq<Token>, source: Seq<char>)
    requires
        expr.inner() == seq![Pattern::Period],
        expr.required() == PERIODS_OF_ELLIPSIS,
    ensures
        matches_tokens(*expr, tokens, source),
        condensed(
            Matches {
                expr: *expr,
                effect: |kind: TokenKind| TokenKind::Punctuation(Punctuation::Ellipsis),
            },
            tokens,
            source,
        ) == condensed(Ellipses, tokens, source),
{
    let rule = Matches {
        expr: *expr,
        effect: |kind: TokenKind| TokenKind::Punctuation(Punctuation::Ellipsis),
    };
    assert forall|at: int| 0 <= at < tokens.len() implies (#[trigger] expr.match_len(
        tokens,
        source,
        at,
    )) == (if Ellipses::periods(tokens, at) >= PERIODS_OF_ELLIPSIS {
        Some(Ellipses::periods(tokens, at))
    } else {
        None
    }) by {
        lemma_repeated_periods(PERIODS_OF_ELLIPSIS as nat, tokens, source, at, 0);
    }
    assert forall|at: int| 0 <= at < tokens.len() implies (#[trigger] rule.block(
        tokens,
        source,
        at,
    )) == Ellipses.block(tokens, source, at) by {
        assert(expr.match_len(tokens, source, at) == (if Ellipses::periods(tokens, at)
            >= PERIODS_OF_ELLIPSIS {
            Some(Ellipses::periods(tokens, at))
        } else {
            None
        }));
        Ellipses::lemma_periods_fit(tokens, at);
    }
    lemma_same_blocks(rule, Ellipses, tokens, source, 0);
}

/// The rule that makes one word of "etc.", "vs." and "et al.".
pub struct LatinPhrases;

impl LatinPhrases {
    /// Whether the token at `at` is one of the words, in any capitalization.
    pub open spec fn is_one_of(
        words: Seq<Seq<char>>,
        tokens: Seq<Token>,
        source: Seq<char>,
        at: int,
    ) -> bool {
        &&& 0 <= at < tokens.len()
        &&& tokens[at].kind.is_word()
        &&& spells_one_of(words, tokens[at].span.content(source))
    }

    /// Whether the token at `at` is a period.
    pub open spec fn is_period_at(tokens: Seq<Token>, at: int) -> bool {
        0 <= at < tokens.len() && tokens[at].kind.is_period()
    }

    /// Whether "etc." or "vs." starts at `at`.
    pub open spec fn abbreviation(tokens: Seq<Token>, source: Seq<char>, at: int) -> bool {
        &&& LatinPhrases::is_one_of(seq!["etc"@, "vs"@], tokens, source, at)
        &&& LatinPhrases::is_period_at(tokens, at + 1)
    }

    /// Whether "et al." starts at `at`, with whitespace between its two words.
    pub open spec fn et_al(tokens: Seq<Token>, source: Seq<char>, at: int) -> bool {
        let gap = whitespace_run(tokens, at + 1);
        &&& LatinPhrases::is_one_of(seq!["et"@], tokens, source, at)
        &&& gap >= 1
        &&& LatinPhrases::is_one_of(seq!["al"@], tokens, source, at + 1 + gap)
        &&& LatinPhrases::is_period_at(tokens, at + 2 + gap)
    }

    /// How many tokens the phrase at `at` is written with, or 1 where there is none.
    pub open spec fn width(tokens: Seq<Token>, source: Seq<char>, at: int) -> nat {
        if LatinPhrases::abbreviation(tokens, source, at) {
            2
        } else if LatinPhrases::et_al(tokens, source, at) {
            3 + whitespace_run(tokens, at + 1)
        } else {
            1
        }
    }
}

impl Grouping for LatinPhrases {
    open spec fn block(&self, tokens: Seq<Token>, source: Seq<char>, at: int) -> Block {
        Block { width: LatinPhrases::width(tokens, source, at), kind: tokens[at].kind }
    }

    proof fn block_fits(&self, tokens: Seq<Token>, source: Seq<char>, at: int) {
    }
}

/// What a Latin phrase is matched by.
pub open spec fn latin_patterns() -> Seq<Seq<Pattern>> {
    seq![
        seq![Pattern::Words(seq!["etc"@, "vs"@]), Pattern::Period],
        seq![
            Pattern::Words(seq!["et"@]),
            Pattern::Whitespace,
            Pattern::Words(seq!["al"@]),
            Pattern::Period,
        ],
    ]
}

/// The expression that matches Latin phrases.
pub fn latin_expr() -> (expr: Rc<FirstMatchOf>)
    ensures
        expr@ == latin_patterns(),
{
    let words: [&str; 2] = ["etc", "vs"];
    let set = WordSet::new(words.as_slice());
    assert(set@ == seq!["etc"@, "vs"@]);
    let abbreviation = SequenceExpr::default().then_word_set(set).then_period();
    assert(abbreviation@ == latin_patterns()[0]);
    let et_al = SequenceExpr::aco("et").then_whitespace().t_aco("al").then_period();
    assert(et_al@ == latin_patterns()[1]);
    let mut exprs: Vec<SequenceExpr> = Vec::new();
    exprs.push(abbreviation);
    exprs.push(et_al);
    let expr = FirstMatchOf::new(exprs);
    assert(expr@ == latin_patterns());
    Rc::new(expr)
}

proof fn lemma_latin_match(tokens: Seq<Token>, source: Seq<char>, at: int)
    requires
        0 <= at < tokens.len(),
    ensures
        first_match_len(latin_patterns(), tokens, source, at) == (if LatinPhrases::abbreviation(
            tokens,
            source,
            at,
        ) || LatinPhrases::et_al(tokens, source, at) {
            Some(LatinPhrases::width(tokens, source, at))
        } else {
            None
        }),
{
    let exprs = latin_patterns();
    assert(exprs.drop_first().drop_first() == Seq::<Seq<Pattern>>::empty());
    assert(exprs.drop_first()[0] == exprs[1]);
    reveal_with_fuel(first_match_len, 3);
    let short = exprs[0];
    assert(short.drop_first()[0] == Pattern::Period);
    assert(short.drop_first().drop_first() == Seq::<Pattern>::empty());
    assert(sequence_len(short, tokens, source, at) == (if LatinPhrases::abbreviation(
        tokens,
        source,
        at,
    ) {
        Some(2nat)
    } else {
        None
    })) by {
        reveal_with_fuel(sequence_len, 3);
    }
    let long = exprs[1];
    assert(long.drop_first()[0] == Pattern::Whitespace);
    assert(long.drop_first().drop_first()[0] == Pattern::Words(seq!["al"@]));
    assert(long.drop_first().drop_first().drop_first()[0] == Pattern::Period);
    assert(long.drop_first().drop_first().drop_first().drop_first() == Seq::<Pattern>::empty());
    assert(sequence_len(long, tokens, source, at) == (if LatinPhrases::et_al(tokens, source, at) {
        Some(3 + whitespace_run(tokens, at + 1))
    } else {
        None
    })) by {
        reveal_with_fuel(sequence_len, 5);
    }
}

/// Merging the matches of the expression for Latin phrases merges the Latin phrases.
pub proof fn lemma_latin_phrases(expr: &FirstMatchOf, tokens: Seq<Token>, source: Seq<char>)
    requires
        expr@ == latin_patterns(),
    ensures
        matches_tokens(*expr, tokens, source),
        condensed(Matches { expr: *expr, effect: |kind: TokenKind| kind }, tokens, source) == condensed(
            LatinPhrases,
            tokens,
            source,
        ),
{
    let rule = Matches { expr: *expr, effect: |kind: TokenKind| kind };
    assert forall|at: int| 0 <= at < tokens.len() implies (#[trigger] expr.match_len(
        tokens,
        source,
        at,
    )) != Some(0nat) by {
        lemma_latin_match(tokens, source, at);
    }
    assert forall|at: int| 0 <= at < tokens.len() implies (#[trigger] rule.block(
        tokens,
        source,
        at,
    )) == LatinPhrases.block(tokens, source, at) by {
        lemma_latin_match(tokens, source, at);
    }
    lemma_same_blocks(rule, LatinPhrases, tokens, source, 0);
}

} // verus!
