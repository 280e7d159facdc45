//! Ellipses.

use vstd::prelude::*;
use crate::condense::condensed;
use crate::laws::groups::{cut, lemma_cut, lemma_group_of};
use crate::phrases::Ellipses;
use crate::punctuation::Punctuation;
use crate::token::Token;
use crate::token_kind::TokenKind;

verus! {

/// Whether a period stands at `at`.
pub open spec fn is_dot(tokens: Seq<Token>, at: int) -> bool {
    0 <= at < tokens.len() && tokens[at].kind == TokenKind::Punctuation(Punctuation::Period)
}

/// Whether the groups are the runs of two or more periods, as long as they get, which become
/// ellipses, and single tokens elsewhere.
pub open spec fn ellipsis_groups(tokens: Seq<Token>, out: Seq<Token>, starts: Seq<int>) -> bool {
    &&& cut(tokens, out, starts)
    &&& forall|k: int, l: int|
        0 <= k && l == k + 1 && l < starts.len() ==> {
            &&& (#[trigger] starts[l]) - (#[trigger] starts[k]) > 1 ==> (forall|i: int|
                starts[k] <= i < starts[l] ==> #[trigger] is_dot(tokens, i)) && !is_dot(
                tokens,
                starts[l],
            ) && out[k].kind == TokenKind::Punctuation(Punctuation::Ellipsis)
            &&& starts[l] - starts[k] == 1 ==> !(is_dot(tokens, starts[k]) && is_dot(
                tokens,
                starts[k] + 1,
            )) && out[k].kind == tokens[starts[k]].kind
        }
}

/// Whether `out` is what is left of the tokens when periods in a row became an ellipsis, and
/// nothing else changed.
pub open spec fn ellipses_merged(tokens: Seq<Token>, out: Seq<Token>) -> bool {
    exists|starts: Seq<int>| #[trigger] ellipsis_groups(tokens, out, starts)
}

/// The counted tokens are periods, and no more of them follow.
proof fn lemma_periods(tokens: Seq<Token>, at: int)
    requires
        0 <= at <= tokens.len(),
    ensures
        forall|i: int|
            at <= i < at + Ellipses::periods(tokens, at) ==> #[trigger] is_dot(tokens, i),
        !is_dot(tokens, at + Ellipses::periods(tokens, at)),
    decreases tokens.len() - at,
{
    if is_dot(tokens, at) {
        lemma_periods(tokens, at + 1);
    }
}

/// Condensing ellipses merges periods in a row.
pub proof fn lemma_ellipses_merged(tokens: Seq<Token>, source: Seq<char>)
    ensures
        ellipses_merged(tokens, condensed(Ellipses, tokens, source)),
{
    let out = condensed(Ellipses, tokens, source);
    let starts = lemma_cut(Ellipses, tokens, source);
    assert forall|k: int, l: int| 0 <= k && l == k + 1 && l < starts.len() implies {
        &&& (#[trigger] starts[l]) - (#[trigger] starts[k]) > 1 ==> (forall|i: int|
            starts[k] <= i < starts[l] ==> #[trigger] is_dot(tokens, i)) && !is_dot(
            tokens,
            starts[l],
        ) && out[k].kind == TokenKind::Punctuation(Punctuation::Ellipsis)
        &&& starts[l] - starts[k] == 1 ==> !(is_dot(tokens, starts[k]) && is_dot(
            tokens,
            starts[k] + 1,
        )) && out[k].kind == tokens[starts[k]].kind
    } by {
        let at = starts[k];
        assert(starts[k] < starts[l]);
        lemma_periods(tokens, at);
        if is_dot(tokens, at) && is_dot(tokens, at + 1) {
            assert(Ellipses::periods(tokens, at) != 0);
            assert(Ellipses::periods(tokens, at) != 1);
        }
    }
    assert(ellipsis_groups(tokens, out, starts));
}

/// Two or more periods in a row, with none in front of them and none behind them, become one
/// ellipsis that reaches over all of them.
pub proof fn lemma_periods_are_one_ellipsis(
    tokens: Seq<Token>,
    source: Seq<char>,
    from: int,
    to: int,
) -> (k: int)
    requires
        0 <= from,
        from + 2 <= to <= tokens.len(),
        forall|i: int| from <= i < to ==> #[trigger] is_dot(tokens, i),
        !is_dot(tokens, from - 1),
        !is_dot(tokens, to),
    ensures
        0 <= k < condensed(Ellipses, tokens, source).len(),
        condensed(Ellipses, tokens, source)[k].kind == TokenKind::Punctuation(
            Punctuation::Ellipsis,
        ),
        condensed(Ellipses, tokens, source)[k].span.start == tokens[from].span.start,
        condensed(Ellipses, tokens, source)[k].span.end == tokens[to - 1].span.end,
{
    let out = condensed(Ellipses, tokens, source);
    lemma_ellipses_merged(tokens, source);
    let starts = choose|starts: Seq<int>| #[trigger] ellipsis_groups(tokens, out, starts);
    let k = lemma_group_of(tokens, out, starts, from);
    let s = starts[k];
    let e = starts[k + 1];
    assert(s < e);
    assert(is_dot(tokens, from) && is_dot(tokens, from + 1));
    if s < from {
        assert(is_dot(tokens, from - 1));
    }
    if e < to {
        assert(is_dot(tokens, e));
    } else if to < e {
        assert(is_dot(tokens, to));
    }
    k
}

/// No two periods stand in a row once ellipses were condensed.
pub proof fn lemma_no_two_periods_remain(tokens: Seq<Token>, source: Seq<char>, k: int)
    ensures
        !(is_dot(condensed(Ellipses, tokens, source), k) && is_dot(
            condensed(Ellipses, tokens, source),
            k + 1,
        )),
{
    let out = condensed(Ellipses, tokens, source);
    lemma_ellipses_merged(tokens, source);
    let starts = choose|starts: Seq<int>| #[trigger] ellipsis_groups(tokens, out, starts);
    if is_dot(out, k) && is_dot(out, k + 1) {
        assert(starts[k] < starts[k + 1]);
        assert(starts[k + 1] < starts[k + 2]);
        assert(is_dot(tokens, starts[k]));
        assert(is_dot(tokens, starts[k] + 1));
    }
}

} // verus!
