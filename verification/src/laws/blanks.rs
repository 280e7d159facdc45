//! Blanks, line ends and paragraph breaks.

use vstd::prelude::*;
use crate::blank_runs::{with_breaks, BlankRuns};
use crate::condense::{condensed, Grouping};
use crate::laws::groups::{cut, lemma_cut};
use crate::token::{blanks, lemma_blanks_stretch, Token};
use crate::token_kind::TokenKind;

verus! {

/// How many blanks and line ends the tokens stand for.
pub open spec fn count(tokens: Seq<Token>) -> int
    decreases tokens.len(),
{
    if tokens.len() == 0 {
        0
    } else {
        (match tokens[0].kind {
            TokenKind::Space(n) => n as int,
            TokenKind::Newline(n) => n as int,
            _ => 0,
        }) + count(tokens.drop_first())
    }
}

/// Whether the second token is to be merged into the first that stands in front of it: both are
/// space tokens and nothing is between them.
pub open spec fn spaces_touch(a: Token, b: Token) -> bool {
    a.kind is Space && b.kind is Space && a.span.end == b.span.start
}

/// Whether both are newline tokens.
pub open spec fn both_newlines(a: Token, b: Token) -> bool {
    a.kind is Newline && b.kind is Newline
}

/// Whether the second token is to be merged into the first, where either the spaces or the
/// newlines are looked at.
pub open spec fn belongs(spaces: bool, a: Token, b: Token) -> bool {
    if spaces {
        spaces_touch(a, b)
    } else {
        both_newlines(a, b)
    }
}

/// Whether the tokens from `s` to `e` are a run of which each token belongs to the one in front of
/// it, as long as it gets, and the kind counts what its tokens counted.
pub open spec fn is_run_group(
    tokens: Seq<Token>,
    s: int,
    e: int,
    kind: TokenKind,
    spaces: bool,
) -> bool {
    &&& forall|i: int, j: int|
        s <= i && j == i + 1 && j < e ==> belongs(
            spaces,
            #[trigger] tokens[i],
            #[trigger] tokens[j],
        )
    &&& e < tokens.len() ==> !belongs(spaces, tokens[e - 1], tokens[e])
    &&& match tokens[s].kind {
        TokenKind::Space(_) => kind matches TokenKind::Space(n) && n == count(
            tokens.subrange(s, e),
        ),
        TokenKind::Newline(_) => kind matches TokenKind::Newline(n) && n == count(
            tokens.subrange(s, e),
        ),
        _ => e == s + 1 && kind == tokens[s].kind,
    }
}

/// Whether the groups are the longest runs of tokens that belong to each other.
pub open spec fn run_groups(
    tokens: Seq<Token>,
    out: Seq<Token>,
    starts: Seq<int>,
    spaces: bool,
) -> bool {
    &&& cut(tokens, out, starts)
    &&& forall|k: int, l: int|
        0 <= k && l == k + 1 && l < starts.len() ==> is_run_group(
            tokens,
            #[trigger] starts[k],
            #[trigger] starts[l],
            out[k].kind,
            spaces,
        )
}

/// Whether `out` is what is left of the tokens when each run of space tokens with nothing between
/// them became one that counts all their blanks, and nothing else changed.
pub open spec fn spaces_merged(tokens: Seq<Token>, out: Seq<Token>) -> bool {
    exists|starts: Seq<int>| #[trigger]
        run_groups(tokens, out, starts, true)
}

/// Whether `out` is what is left of the tokens when each run of newline tokens became one that
/// counts all their line ends, and nothing else changed.
pub open spec fn newlines_merged(tokens: Seq<Token>, out: Seq<Token>) -> bool {
    exists|starts: Seq<int>| #[trigger]
        run_groups(tokens, out, starts, false)
}

/// Whether `out` holds the tokens with those of more than two line ends made paragraph breaks.
pub open spec fn breaks_made(tokens: Seq<Token>, out: Seq<Token>) -> bool {
    &&& out.len() == tokens.len()
    &&& forall|i: int|
        0 <= i < tokens.len() ==> (#[trigger] out[i]).span == tokens[i].span && out[i].kind
            == match tokens[i].kind {
            TokenKind::Newline(n) => if n > 2 {
                TokenKind::ParagraphBreak
            } else {
                tokens[i].kind
            },
            _ => tokens[i].kind,
        }
}

/// The tokens count what they stand for.
proof fn lemma_count(tokens: Seq<Token>)
    ensures
        count(tokens) == blanks(tokens),
    decreases tokens.len(),
{
    if tokens.len() > 0 {
        lemma_count(tokens.drop_first());
    }
}

/// The tokens of a run belong to each other, and no more of them follow.
proof fn lemma_run(rule: BlankRuns, tokens: Seq<Token>, at: int)
    requires
        0 <= at < tokens.len(),
    ensures
        1 <= rule.run(tokens, at) <= tokens.len() - at,
        forall|i: int, j: int|
            at <= i && j == i + 1 && j < at + rule.run(tokens, at) ==> rule.joins(
                #[trigger] tokens[i],
                #[trigger] tokens[j],
            ),
        at + rule.run(tokens, at) < tokens.len() ==> !rule.joins(
            tokens[at + rule.run(tokens, at) - 1],
            tokens[at + rule.run(tokens, at)],
        ),
    decreases tokens.len() - at,
{
    if at + 1 < tokens.len() && rule.joins(tokens[at], tokens[at + 1]) {
        lemma_run(rule, tokens, at + 1);
    }
}

/// Condensing spaces merges each run of space tokens with nothing between them.
pub proof fn lemma_spaces_merged(tokens: Seq<Token>, source: Seq<char>)
    requires
        blanks(tokens) <= usize::MAX,
    ensures
        spaces_merged(tokens, condensed(BlankRuns::Spaces, tokens, source)),
{
    let rule = BlankRuns::Spaces;
    let out = condensed(rule, tokens, source);
    let starts = lemma_cut(rule, tokens, source);
    assert forall|k: int, l: int| 0 <= k && l == k + 1 && l < starts.len() implies is_run_group(
        tokens,
        #[trigger] starts[k],
        #[trigger] starts[l],
        out[k].kind,
        true,
    ) by {
        assert(starts[k] < starts[l]);
        lemma_run_group(rule, tokens, source, starts[k], starts[l], true);
    }
    assert(run_groups(tokens, out, starts, true));
}

/// Condensing newlines merges each run of newline tokens.
pub proof fn lemma_newlines_merged(tokens: Seq<Token>, source: Seq<char>)
    requires
        blanks(tokens) <= usize::MAX,
    ensures
        newlines_merged(tokens, condensed(BlankRuns::Newlines, tokens, source)),
{
    let rule = BlankRuns::Newlines;
    let out = condensed(rule, tokens, source);
    let starts = lemma_cut(rule, tokens, source);
    assert forall|k: int, l: int| 0 <= k && l == k + 1 && l < starts.len() implies is_run_group(
        tokens,
        #[trigger] starts[k],
        #[trigger] starts[l],
        out[k].kind,
        false,
    ) by {
        assert(starts[k] < starts[l]);
        lemma_run_group(rule, tokens, source, starts[k], starts[l], false);
    }
    assert(run_groups(tokens, out, starts, false));
}

/// A block of a rule for blanks is such a group.
proof fn lemma_run_group(
    rule: BlankRuns,
    tokens: Seq<Token>,
    source: Seq<char>,
    s: int,
    e: int,
    spaces: bool,
)
    requires
        blanks(tokens) <= usize::MAX,
        0 <= s < e <= tokens.len(),
        e == s + rule.block(tokens, source, s).width,
        spaces == (rule is Spaces),
    ensures
        is_run_group(tokens, s, e, rule.block(tokens, source, s).kind, spaces),
{
    lemma_run(rule, tokens, s);
    lemma_count(tokens.subrange(s, e));
    lemma_blanks_stretch(tokens, s, e);
    if s + 1 < e {
        assert(rule.joins(tokens[s], tokens[s + 1]));
    }
    if !rule.collects(tokens[s].kind) {
        assert(tokens.subrange(s, e) == seq![tokens[s]]);
        assert(seq![tokens[s]].drop_first() == Seq::<Token>::empty());
        assert(count(Seq::<Token>::empty()) == 0);
        assert(count(seq![tokens[s]]) == tokens[s].kind.blanks());
    }
}

/// Making breaks makes them of the tokens of more than two line ends, and of no others.
pub proof fn lemma_breaks_made(tokens: Seq<Token>)
    ensures
        breaks_made(tokens, with_breaks(tokens)),
{
}

/// Once spaces were condensed no two space tokens touch.
pub proof fn lemma_no_spaces_touch(tokens: Seq<Token>, source: Seq<char>, k: int)
    requires
        blanks(tokens) <= usize::MAX,
        0 <= k,
        k + 1 < condensed(BlankRuns::Spaces, tokens, source).len(),
    ensures
        !spaces_touch(
            condensed(BlankRuns::Spaces, tokens, source)[k],
            condensed(BlankRuns::Spaces, tokens, source)[k + 1],
        ),
{
    let out = condensed(BlankRuns::Spaces, tokens, source);
    lemma_spaces_merged(tokens, source);
    let starts = choose|starts: Seq<int>| #[trigger]
        run_groups(tokens, out, starts, true);
    assert(starts[k] < starts[k + 1]);
    assert(starts[k + 1] < starts[k + 2]);
    assert(is_run_group(tokens, starts[k], starts[k + 1], out[k].kind, true));
    assert(is_run_group(tokens, starts[k + 1], starts[k + 2], out[k + 1].kind, true));
    let e = starts[k + 1];
    if e - starts[k] > 1 {
        assert(belongs(true, tokens[e - 2], tokens[e - 1]));
    }
    assert(!belongs(true, tokens[e - 1], tokens[e]));
}

/// Once newlines were condensed no two newline tokens stand in a row.
pub proof fn lemma_no_newlines_in_a_row(tokens: Seq<Token>, source: Seq<char>, k: int)
    requires
        blanks(tokens) <= usize::MAX,
        0 <= k,
        k + 1 < condensed(BlankRuns::Newlines, tokens, source).len(),
    ensures
        !both_newlines(
            condensed(BlankRuns::Newlines, tokens, source)[k],
            condensed(BlankRuns::Newlines, tokens, source)[k + 1],
        ),
{
    let out = condensed(BlankRuns::Newlines, tokens, source);
    lemma_newlines_merged(tokens, source);
    let starts = choose|starts: Seq<int>| #[trigger]
        run_groups(tokens, out, starts, false);
    assert(starts[k] < starts[k + 1]);
    assert(starts[k + 1] < starts[k + 2]);
    assert(is_run_group(tokens, starts[k], starts[k + 1], out[k].kind, false));
    assert(is_run_group(tokens, starts[k + 1], starts[k + 2], out[k + 1].kind, false));
    let e = starts[k + 1];
    if e - starts[k] > 1 {
        assert(belongs(false, tokens[e - 2], tokens[e - 1]));
    }
    assert(!belongs(false, tokens[e - 1], tokens[e]));
}

} // verus!
