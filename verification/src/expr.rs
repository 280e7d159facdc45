//! Expressions that match runs of tokens.

use vstd::prelude::*;
use crate::chars::{chars_of, eq_letters, same_letters};
use crate::condense::{condensed, condensed_from, merged, Block, Grouping};
use crate::span::Span;
use crate::token::{well_formed, Token};
use crate::token_kind::TokenKind;

verus! {

/// Something that matches tokens from a position on.
pub trait Expr: Sized {
    /// How many tokens from `at` on are matched, if the expression matches there.
    spec fn match_len(&self, tokens: Seq<Token>, source: Seq<char>, at: int) -> Option<nat>;

    /// A match does not reach past the last token.
    proof fn match_fits(&self, tokens: Seq<Token>, source: Seq<char>, at: int)
        requires
            0 <= at <= tokens.len(),
        ensures
            self.match_len(tokens, source, at) matches Some(n) ==> at + n <= tokens.len(),
    ;

    /// The tokens that the expression matches from `cursor` on.
    fn run(&self, cursor: usize, tokens: &[Token], source: &[char]) -> (found: Option<Span>)
        requires
            cursor <= tokens@.len(),
            well_formed(tokens@, source@.len()),
        ensures
            match self.match_len(tokens@, source@, cursor as int) {
                Some(n) => found is Some && found->0.start == cursor && found->0.end == cursor + n,
                None => found is None,
            },
    ;
}

/// A set of words, which matches each of them in any capitalization.
pub struct WordSet {
    words: Vec<Vec<char>>,
}

impl View for WordSet {
    type V = Seq<Seq<char>>;

    closed spec fn view(&self) -> Seq<Seq<char>> {
        self.words@.map_values(|word: Vec<char>| word@)
    }
}

/// Whether one of the words is spelled as `chars` up to capitalization.
pub open spec fn spells_one_of(words: Seq<Seq<char>>, chars: Seq<char>) -> bool {
    exists|k: int| 0 <= k < words.len() && same_letters(#[trigger] words[k], chars)
}

impl WordSet {
    /// A set of the given words.
    pub fn new(words: &[&str]) -> (set: WordSet)
        ensures
            set@ == words@.map_values(|word: &str| word@),
    {
        let mut list: Vec<Vec<char>> = Vec::new();
        for i in 0..words.len()
            invariant
                list@.len() == i,
                forall|k: int| 0 <= k < i ==> (#[trigger] list@[k])@ == words@[k]@,
        {
            list.push(chars_of(words[i]));
        }
        let set = WordSet { words: list };
        assert(set@ == words@.map_values(|word: &str| word@));
        set
    }

    /// Whether one of the words is spelled as `chars` up to capitalization.
    pub fn matches_chars(&self, chars: &[char]) -> (yes: bool)
        ensures
            yes == spells_one_of(self@, chars@),
    {
        for i in 0..self.words.len()
            invariant
                forall|k: int| 0 <= k < i ==> !same_letters(#[trigger] self@[k], chars@),
        {
            assert(self@[i as int] == self.words@[i as int]@);
            if eq_letters(self.words[i].as_slice(), chars) {
                return true;
            }
        }
        false
    }
}

/// What one step of a sequence matches.
pub enum Pattern {
    /// A word.
    AnyWord,
    /// An apostrophe.
    Apostrophe,
    /// A period.
    Period,
    /// Whitespace tokens, as many as follow each other.
    Whitespace,
    /// One of some words, in any capitalization.
    Words(Seq<Seq<char>>),
}

/// How many whitespace tokens follow each other from `at` on.
pub open spec fn whitespace_run(tokens: Seq<Token>, at: int) -> nat
    decreases tokens.len() - at,
{
    if 0 <= at < tokens.len() && tokens[at].kind.is_whitespace() {
        1 + whitespace_run(tokens, at + 1)
    } else {
        0
    }
}

proof fn lemma_whitespace_run_fits(tokens: Seq<Token>, at: int)
    requires
        0 <= at <= tokens.len(),
    ensures
        at + whitespace_run(tokens, at) <= tokens.len(),
    decreases tokens.len() - at,
{
    if at < tokens.len() && tokens[at].kind.is_whitespace() {
        lemma_whitespace_run_fits(tokens, at + 1);
    }
}

impl Pattern {
    /// Whether the pattern matches the one token.
    pub open spec fn admits(self, token: Token, source: Seq<char>) -> bool {
        match self {
            Pattern::AnyWord => token.kind.is_word(),
            Pattern::Apostrophe => token.kind.is_apostrophe(),
            Pattern::Period => token.kind.is_period(),
            Pattern::Whitespace => token.kind.is_whitespace(),
            Pattern::Words(words) => token.kind.is_word() && spells_one_of(
                words,
                token.span.content(source),
            ),
        }
    }

    /// How many tokens from `at` on the pattern matches, if it matches there.
    pub open spec fn len_at(self, tokens: Seq<Token>, source: Seq<char>, at: int) -> Option<nat> {
        if 0 <= at < tokens.len() && self.admits(tokens[at], source) {
            if self is Whitespace {
                Some(whitespace_run(tokens, at))
            } else {
                Some(1)
            }
        } else {
            None
        }
    }
}

/// How many tokens from `at` on a sequence of patterns matches, each pattern behind the one
/// before it.
pub open spec fn sequence_len(
    steps: Seq<Pattern>,
    tokens: Seq<Token>,
    source: Seq<char>,
    at: int,
) -> Option<nat>
    decreases steps.len(),
{
    if steps.len() == 0 {
        Some(0)
    } else {
        match steps[0].len_at(tokens, source, at) {
            Some(n) => match sequence_len(steps.drop_first(), tokens, source, at + n) {
                Some(m) => Some(n + m),
                None => None,
            },
            None => None,
        }
    }
}

proof fn lemma_sequence_fits(steps: Seq<Pattern>, tokens: Seq<Token>, source: Seq<char>, at: int)
    requires
        0 <= at <= tokens.len(),
    ensures
        sequence_len(steps, tokens, source, at) matches Some(n) ==> at + n <= tokens.len(),
    decreases steps.len(),
{
    if steps.len() > 0 {
        lemma_whitespace_run_fits(tokens, at);
        if let Some(n) = steps[0].len_at(tokens, source, at) {
            lemma_sequence_fits(steps.drop_first(), tokens, source, at + n);
        }
    }
}

enum Step {
    AnyWord,
    Apostrophe,
    Period,
    Whitespace,
    Words(WordSet),
}

impl View for Step {
    type V = Pattern;

    closed spec fn view(&self) -> Pattern {
        match self {
            Step::AnyWord => Pattern::AnyWord,
            Step::Apostrophe => Pattern::Apostrophe,
            Step::Period => Pattern::Period,
            Step::Whitespace => Pattern::Whitespace,
            Step::Words(words) => Pattern::Words(words@),
        }
    }
}

impl Step {
    fn admits(&self, token: Token, source: &[char]) -> (yes: bool)
        requires
            token.span.fits(source@.len()),
        ensures
            yes == self@.admits(token, source@),
    {
        match self {
            Step::AnyWord => token.kind.is_word(),
            Step::Apostrophe => token.kind.is_apostrophe(),
            Step::Period => token.kind.is_period(),
            Step::Whitespace => token.kind.is_whitespace(),
            Step::Words(words) => token.kind.is_word() && words.matches_chars(
                token.span.get_content(source),
            ),
        }
    }

    /// Where the match of this step from `cursor` on ends.
    fn end_of_match(&self, cursor: usize, tokens: &[Token], source: &[char]) -> (end: Option<
        usize,
    >)
        requires
            cursor <= tokens@.len(),
            well_formed(tokens@, source@.len()),
        ensures
            match self@.len_at(tokens@, source@, cursor as int) {
                Some(n) => end is Some && end->0 == cursor + n && end->0 <= tokens@.len(),
                None => end is None,
            },
    {
        if cursor == tokens.len() || !self.admits(tokens[cursor], source) {
            return None;
        }
        let mut end: usize = cursor + 1;
        if let Step::Whitespace = self {
            while end < tokens.len() && tokens[end].kind.is_whitespace()
                invariant
                    cursor < end <= tokens@.len(),
                    whitespace_run(tokens@, cursor as int) == end - cursor + whitespace_run(
                        tokens@,
                        end as int,
                    ),
                decreases tokens@.len() - end,
            {
                end = end + 1;
            }
        }
        Some(end)
    }
}

/// An expression that matches one thing after the other.
pub struct SequenceExpr {
    steps: Vec<Step>,
}

impl View for SequenceExpr {
    type V = Seq<Pattern>;

    closed spec fn view(&self) -> Seq<Pattern> {
        self.steps@.map_values(|step: Step| step@)
    }
}

impl Default for SequenceExpr {
    /// A sequence of nothing.
    fn default() -> (expr: SequenceExpr)
        ensures
            expr@ == Seq::<Pattern>::empty(),
    {
        let expr = SequenceExpr { steps: Vec::new() };
        assert(expr@ == Seq::<Pattern>::empty());
        expr
    }
}

impl SequenceExpr {
    fn then_step(self, step: Step) -> (expr: SequenceExpr)
        ensures
            expr@ == self@.push(step@),
    {
        let mut steps: Vec<Step> = self.steps;
        steps.push(step);
        let expr = SequenceExpr { steps };
        assert(expr@ == self@.push(step@));
        expr
    }

    /// A sequence that starts with the word, in any capitalization.
    pub fn aco(word: &str) -> (expr: SequenceExpr)
        ensures
            expr@ == seq![Pattern::Words(seq![word@])],
    {
        let expr = SequenceExpr::default().t_aco(word);
        assert(expr@ == seq![Pattern::Words(seq![word@])]);
        expr
    }

    /// Goes on with the word, in any capitalization.
    pub fn t_aco(self, word: &str) -> (expr: SequenceExpr)
        ensures
            expr@ == self@.push(Pattern::Words(seq![word@])),
    {
        let words: [&str; 1] = [word];
        let set = WordSet::new(words.as_slice());
        assert(set@ == seq![word@]);
        self.then_word_set(set)
    }

    /// Goes on with one of the words.
    pub fn then_word_set(self, words: WordSet) -> (expr: SequenceExpr)
        ensures
            expr@ == self@.push(Pattern::Words(words@)),
    {
        self.then_step(Step::Words(words))
    }

    /// Goes on with a word.
    pub fn then_any_word(self) -> (expr: SequenceExpr)
        ensures
            expr@ == self@.push(Pattern::AnyWord),
    {
        self.then_step(Step::AnyWord)
    }

    /// Goes on with an apostrophe.
    pub fn then_apostrophe(self) -> (expr: SequenceExpr)
        ensures
            expr@ == self@.push(Pattern::Apostrophe),
    {
        self.then_step(Step::Apostrophe)
    }

    /// Goes on with a period.
    pub fn then_period(self) -> (expr: SequenceExpr)
        ensures
            expr@ == self@.push(Pattern::Period),
    {
        self.then_step(Step::Period)
    }

    /// Goes on with whitespace.
    pub fn then_whitespace(self) -> (expr: SequenceExpr)
        ensures
            expr@ == self@.push(Pattern::Whitespace),
    {
        self.then_step(Step::Whitespace)
    }
}

impl Expr for SequenceExpr {
    open spec fn match_len(&self, tokens: Seq<Token>, source: Seq<char>, at: int) -> Option<nat> {
        sequence_len(self@, tokens, source, at)
    }

    proof fn match_fits(&self, tokens: Seq<Token>, source: Seq<char>, at: int) {
        lemma_sequence_fits(self@, tokens, source, at);
    }

    fn run(&self, cursor: usize, tokens: &[Token], source: &[char]) -> (found: Option<Span>) {
        let mut end: usize = cursor;
        let mut k: usize = 0;
        assert(self@.skip(0) == self@);
        while k < self.steps.len()
            invariant
                k <= self.steps@.len(),
                cursor <= end <= tokens@.len(),
                well_formed(tokens@, source@.len()),
                sequence_len(self@, tokens@, source@, cursor as int) == match sequence_len(
                    self@.skip(k as int),
                    tokens@,
                    source@,
                    end as int,
                ) {
                    Some(m) => Some((end - cursor + m) as nat),
                    None => None,
                },
            decreases self.steps@.len() - k,
        {
            proof {
                assert(self@.skip(k as int)[0] == self.steps@[k as int]@);
                assert(self@.skip(k as int).drop_first() == self@.skip(k + 1));
            }
            match self.steps[k].end_of_match(end, tokens, source) {
                Some(next) => {
                    end = next;
                },
                None => {
                    return None;
                },
            }
            k = k + 1;
        }
        Some(Span { start: cursor, end })
    }
}

/// An expression that matches what the first matching one of several matches.
pub struct FirstMatchOf {
    exprs: Vec<SequenceExpr>,
}

impl View for FirstMatchOf {
    type V = Seq<Seq<Pattern>>;

    closed spec fn view(&self) -> Seq<Seq<Pattern>> {
        self.exprs@.map_values(|expr: SequenceExpr| expr@)
    }
}

/// How many tokens from `at` on are matched by the first of the sequences that matches there.
pub open spec fn first_match_len(
    exprs: Seq<Seq<Pattern>>,
    tokens: Seq<Token>,
    source: Seq<char>,
    at: int,
) -> Option<nat>
    decreases exprs.len(),
{
    if exprs.len() == 0 {
        None
    } else if sequence_len(exprs[0], tokens, source, at) is Some {
        sequence_len(exprs[0], tokens, source, at)
    } else {
        first_match_len(exprs.drop_first(), tokens, source, at)
    }
}

proof fn lemma_first_match_fits(
    exprs: Seq<Seq<Pattern>>,
    tokens: Seq<Token>,
    source: Seq<char>,
    at: int,
)
    requires
        0 <= at <= tokens.len(),
    ensures
        first_match_len(exprs, tokens, source, at) matches Some(n) ==> at + n <= tokens.len(),
    decreases exprs.len(),
{
    if exprs.len() > 0 {
        lemma_sequence_fits(exprs[0], tokens, source, at);
        lemma_first_match_fits(exprs.drop_first(), tokens, source, at);
    }
}

impl FirstMatchOf {
    /// Tries the expressions in the given order.
    pub fn new(exprs: Vec<SequenceExpr>) -> (expr: FirstMatchOf)
        ensures
            expr@ == exprs@.map_values(|expr: SequenceExpr| expr@),
    {
        FirstMatchOf { exprs }
    }
}

impl Expr for FirstMatchOf {
    open spec fn match_len(&self, tokens: Seq<Token>, source: Seq<char>, at: int) -> Option<nat> {
        first_match_len(self@, tokens, source, at)
    }

    proof fn match_fits(&self, tokens: Seq<Token>, source: Seq<char>, at: int) {
        lemma_first_match_fits(self@, tokens, source, at);
    }

    fn run(&self, cursor: usize, tokens: &[Token], source: &[char]) -> (found: Option<Span>) {
        assert(self@.skip(0) == self@);
        let mut k: usize = 0;
        while k < self.exprs.len()
            invariant
                k <= self.exprs@.len(),
                cursor <= tokens@.len(),
                well_formed(tokens@, source@.len()),
                first_match_len(self@, tokens@, source@, cursor as int) == first_match_len(
                    self@.skip(k as int),
                    tokens@,
                    source@,
                    cursor as int,
                ),
            decreases self.exprs@.len() - k,
        {
            proof {
                assert(self@.skip(k as int)[0] == self.exprs@[k as int]@);
                assert(self@.skip(k as int).drop_first() == self@.skip(k + 1));
            }
            let found = self.exprs[k].run(cursor, tokens, source);
            if found.is_some() {
                return found;
            }
            k = k + 1;
        }
        None
    }
}

/// An expression that matches another one as often as that matches, and at least a given number
/// of times.
pub struct Repeating {
    inner: SequenceExpr,
    required: usize,
}

/// How many tokens from `at` on repetitions of a sequence match, where `done` repetitions stand
/// in front of `at`. A repetition that matches no token ends the match.
pub open spec fn repeated_len(
    inner: Seq<Pattern>,
    required: nat,
    tokens: Seq<Token>,
    source: Seq<char>,
    at: int,
    done: nat,
) -> Option<nat>
    decreases tokens.len() - at,
{
    match sequence_len(inner, tokens, source, at) {
        None => if done >= required {
            Some(0)
        } else {
            None
        },
        Some(n) => if n == 0 || at + n > tokens.len() {
            Some(0)
        } else {
            match repeated_len(inner, required, tokens, source, at + n, done + 1) {
                Some(m) => Some(n + m),
                None => None,
            }
        },
    }
}

proof fn lemma_repeated_fits(
    inner: Seq<Pattern>,
    required: nat,
    tokens: Seq<Token>,
    source: Seq<char>,
    at: int,
    done: nat,
)
    requires
        0 <= at <= tokens.len(),
    ensures
        repeated_len(inner, required, tokens, source, at, done) matches Some(n) ==> at + n
            <= tokens.len(),
    decreases tokens.len() - at,
{
    if let Some(n) = sequence_len(inner, tokens, source, at) {
        if n > 0 && at + n <= tokens.len() {
            lemma_repeated_fits(inner, required, tokens, source, at + n, done + 1);
        }
    }
}

impl Repeating {
    /// The sequence that is repeated.
    pub closed spec fn inner(&self) -> Seq<Pattern> {
        self.inner@
    }

    /// How often the sequence has to match.
    pub closed spec fn required(&self) -> nat {
        self.required as nat
    }

    /// Repeats the sequence at least `required` times.
    pub fn new(inner: SequenceExpr, required: usize) -> (expr: Repeating)
        ensures
            expr.inner() == inner@,
            expr.required() == required,
    {
        Repeating { inner, required }
    }
}

impl Expr for Repeating {
    open spec fn match_len(&self, tokens: Seq<Token>, source: Seq<char>, at: int) -> Option<nat> {
        repeated_len(self.inner(), self.required(), tokens, source, at, 0)
    }

    proof fn match_fits(&self, tokens: Seq<Token>, source: Seq<char>, at: int) {
        lemma_repeated_fits(self.inner(), self.required(), tokens, source, at, 0);
    }

    fn run(&self, cursor: usize, tokens: &[Token], source: &[char]) -> (found: Option<Span>) {
        let count: usize = tokens.len();
        let mut end: usize = cursor;
        let mut done: usize = 0;
        while end <= count
            invariant
                count == tokens@.len(),
                cursor <= end <= count,
                done <= end,
                well_formed(tokens@, source@.len()),
                self.match_len(tokens@, source@, cursor as int) == match repeated_len(
                    self.inner(),
                    self.required(),
                    tokens@,
                    source@,
                    end as int,
                    done as nat,
                ) {
                    Some(m) => Some((end - cursor + m) as nat),
                    None => None,
                },
            decreases count - end,
        {
            proof {
                self.inner.match_fits(tokens@, source@, end as int);
            }
            match self.inner.run(end, tokens, source) {
                Some(span) => {
                    if span.end == end {
                        return Some(Span { start: cursor, end });
                    }
                    end = span.end;
                    done = done + 1;
                },
                None => {
                    if done >= self.required {
                        return Some(Span { start: cursor, end });
                    }
                    return None;
                },
            }
        }
        None
    }
}

/// The rule that makes one token of each match of an expression, and changes the kind of the
/// token by `effect`.
pub struct Matches<E: Expr> {
    pub expr: E,
    pub effect: spec_fn(TokenKind) -> TokenKind,
}

impl<E: Expr> Grouping for Matches<E> {
    open spec fn block(&self, tokens: Seq<Token>, source: Seq<char>, at: int) -> Block {
        match self.expr.match_len(tokens, source, at) {
            Some(n) if 1 <= n <= tokens.len() - at => Block {
                width: n,
                kind: (self.effect)(tokens[at].kind),
            },
            _ => Block { width: 1, kind: tokens[at].kind },
        }
    }

    proof fn block_fits(&self, tokens: Seq<Token>, source: Seq<char>, at: int) {
    }
}

/// Whether no match of the expression is without tokens.
pub open spec fn matches_tokens<E: Expr>(expr: E, tokens: Seq<Token>, source: Seq<char>) -> bool {
    forall|at: int|
        0 <= at < tokens.len() ==> (#[trigger] expr.match_len(tokens, source, at)) != Some(0nat)
}

/// Makes one token of each match of the expression, and lets `edit` change it.
pub fn condense_matches<E: Expr, F: Fn(&mut Token)>(
    tokens: &[Token],
    source: &[char],
    expr: &E,
    edit: F,
    Ghost(effect): Ghost<spec_fn(TokenKind) -> TokenKind>,
) -> (out: Vec<Token>)
    requires
        well_formed(tokens@, source@.len()),
        matches_tokens(*expr, tokens@, source@),
        forall|token: &mut Token| #[trigger] call_requires(edit, (token,)),
        forall|token: &mut Token| #[trigger]
            call_ensures(edit, (token,), ()) ==> *final(token) == (Token {
                span: token.span,
                kind: effect(token.kind),
            }),
    ensures
        out@ == condensed(Matches { expr: *expr, effect }, tokens@, source@),
{
    let ghost rule = Matches { expr: *expr, effect };
    let mut out: Vec<Token> = Vec::new();
    let mut at: usize = 0;
    while at < tokens.len()
        invariant
            at <= tokens@.len(),
            rule == (Matches { expr: *expr, effect }),
            well_formed(tokens@, source@.len()),
            matches_tokens(*expr, tokens@, source@),
            forall|token: &mut Token| #[trigger] call_requires(edit, (token,)),
            forall|token: &mut Token| #[trigger]
                call_ensures(edit, (token,), ()) ==> *final(token) == (Token {
                    span: token.span,
                    kind: effect(token.kind),
                }),
            out@ + condensed_from(rule, tokens@, source@, at as int) == condensed(
                rule,
                tokens@,
                source@,
            ),
        decreases tokens@.len() - at,
    {
        proof {
            expr.match_fits(tokens@, source@, at as int);
        }
        let ghost before = out@;
        let mut token: Token = tokens[at];
        let mut next: usize = at + 1;
        match expr.run(at, tokens, source) {
            Some(found) => {
                next = found.end;
                token.span.end = tokens[next - 1].span.end;
                edit(&mut token);
            },
            None => {},
        }
        out.push(token);
        assert(token == merged(tokens@, at as int, rule.block(tokens@, source@, at as int)));
        assert(out@ + condensed_from(rule, tokens@, source@, next as int) == before
            + condensed_from(rule, tokens@, source@, at as int));
        at = next;
    }
    out
}

} // verus!
