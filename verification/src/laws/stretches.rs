//! Stretches of tokens that are given by where they start.

use vstd::prelude::*;
use crate::condense::condensed;
use crate::laws::groups::{cut, lemma_cut};
use crate::stretches::Stretches;
use crate::token::Token;

verus! {

/// Whether the index is one of those that are listed.
pub open spec fn is_listed(indices: Seq<usize>, at: int) -> bool {
    exists|i: int| 0 <= i < indices.len() && (#[trigger] indices[i]) == at
}

/// Whether the groups are `len` tokens long where they start at a listed index, and single tokens
/// elsewhere.
pub open spec fn stretch_groups(
    tokens: Seq<Token>,
    indices: Seq<usize>,
    len: int,
    out: Seq<Token>,
    starts: Seq<int>,
) -> bool {
    &&& cut(tokens, out, starts)
    &&& forall|k: int, l: int|
        0 <= k && l == k + 1 && l < starts.len() ==> (#[trigger] starts[l]) - (#[trigger] starts[k])
            == (if is_listed(indices, starts[k]) {
            len
        } else {
            1
        }) && out[k].kind == tokens[starts[k]].kind
}

/// Whether `out` is what is left of the tokens when the `len - 1` tokens behind each listed one
/// were merged into it, and nothing else changed.
pub open spec fn stretches_merged(
    tokens: Seq<Token>,
    indices: Seq<usize>,
    len: int,
    out: Seq<Token>,
) -> bool {
    exists|starts: Seq<int>| #[trigger] stretch_groups(tokens, indices, len, out, starts)
}

/// Condensing stretches merges the tokens behind each listed one into it.
pub proof fn lemma_stretches_merged(rule: Stretches, tokens: Seq<Token>, source: Seq<char>)
    requires
        rule.fit(tokens.len()),
    ensures
        stretches_merged(
            tokens,
            rule.starts,
            rule.len as int,
            condensed(rule, tokens, source),
        ),
{
    let out = condensed(rule, tokens, source);
    let starts = lemma_cut(rule, tokens, source);
    assert forall|k: int, l: int| 0 <= k && l == k + 1 && l < starts.len() implies (
    #[trigger] starts[l]) - (#[trigger] starts[k]) == (if is_listed(rule.starts, starts[k]) {
        rule.len as int
    } else {
        1
    }) && out[k].kind == tokens[starts[k]].kind by {
        let at = starts[k];
        assert(starts[k] < starts[l]);
        assert(is_listed(rule.starts, at) == rule.starts_at(at));
        if is_listed(rule.starts, at) {
            let i = choose|i: int| 0 <= i < rule.starts.len() && (#[trigger] rule.starts[i]) == at;
            assert(rule.starts[i] + rule.len <= tokens.len());
        }
    }
    assert(stretch_groups(tokens, rule.starts, rule.len as int, out, starts));
}

} // verus!
