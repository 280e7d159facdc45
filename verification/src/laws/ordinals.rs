//! Ordinals.

use vstd::prelude::*;
use crate::condense::condensed;
use crate::laws::groups::{cut, lemma_cut, lemma_group_of};
use crate::number::{Number, OrdinalSuffix};
use crate::stretches::NumberSuffixes;
use crate::token::Token;
use crate::token_kind::TokenKind;

verus! {

/// Whether the characters are those of a suffix, each in either case.
pub open spec fn spells_suffix(chars: Seq<char>, suffix: OrdinalSuffix) -> bool {
    &&& chars.len() == 2
    &&& match suffix {
        OrdinalSuffix::Th => (chars[0] == 't' || chars[0] == 'T') && (chars[1] == 'h' || chars[1]
            == 'H'),
        OrdinalSuffix::St => (chars[0] == 's' || chars[0] == 'S') && (chars[1] == 't' || chars[1]
            == 'T'),
        OrdinalSuffix::Nd => (chars[0] == 'n' || chars[0] == 'N') && (chars[1] == 'd' || chars[1]
            == 'D'),
        OrdinalSuffix::Rd => (chars[0] == 'r' || chars[0] == 'R') && (chars[1] == 'd' || chars[1]
            == 'D'),
    }
}

/// Whether a number and a word that spells the suffix follow each other from `at` on.
pub open spec fn is_ordinal(
    tokens: Seq<Token>,
    source: Seq<char>,
    at: int,
    suffix: OrdinalSuffix,
) -> bool {
    &&& 0 <= at
    &&& at + 1 < tokens.len()
    &&& tokens[at].kind is Number
    &&& tokens[at + 1].kind is Word
    &&& spells_suffix(
        source.subrange(tokens[at + 1].span.start as int, tokens[at + 1].span.end as int),
        suffix,
    )
}

/// Whether the tokens from `s` to `e` are an ordinal, which becomes a number of the kind that knows
/// its suffix, or one token of the kind that does not start an ordinal.
pub open spec fn is_ordinal_group(
    tokens: Seq<Token>,
    source: Seq<char>,
    s: int,
    e: int,
    kind: TokenKind,
) -> bool {
    &&& forall|suffix: OrdinalSuffix| #[trigger]
        is_ordinal(tokens, source, s, suffix) ==> e == s + 2 && kind == TokenKind::Number(
            Number { suffix: Some(suffix), precision: tokens[s].kind->Number_0.precision },
        )
    &&& (forall|suffix: OrdinalSuffix| !#[trigger] is_ordinal(tokens, source, s, suffix)) ==> e == s
        + 1 && kind == tokens[s].kind
}

/// Whether the groups are ordinals wherever one stands, which know their suffix, and single
/// tokens elsewhere.
pub open spec fn ordinal_groups(
    tokens: Seq<Token>,
    source: Seq<char>,
    out: Seq<Token>,
    starts: Seq<int>,
) -> bool {
    &&& cut(tokens, out, starts)
    &&& forall|k: int, l: int|
        0 <= k && l == k + 1 && l < starts.len() ==> is_ordinal_group(
            tokens,
            source,
            #[trigger] starts[k],
            #[trigger] starts[l],
            out[k].kind,
        )
}

/// Whether `out` is what is left of the tokens when a number and the suffix behind it became one
/// number wherever they stood, and nothing else changed.
pub open spec fn ordinals_merged(tokens: Seq<Token>, source: Seq<char>, out: Seq<Token>) -> bool {
    exists|starts: Seq<int>| #[trigger] ordinal_groups(tokens, source, out, starts)
}

/// What is taken for a suffix is one, and every suffix is taken for what it is.
proof fn lemma_spelled(chars: Seq<char>)
    ensures
        forall|suffix: OrdinalSuffix| #[trigger]
            spells_suffix(chars, suffix) <==> OrdinalSuffix::spelled_by(chars) == Some(suffix),
{
    assert forall|suffix: OrdinalSuffix| #[trigger]
        spells_suffix(chars, suffix) <==> OrdinalSuffix::spelled_by(chars) == Some(suffix) by {
        assert(seq!['t', 'h'][0] == 't' && seq!['t', 'h'][1] == 'h');
        assert(seq!['s', 't'][0] == 's' && seq!['s', 't'][1] == 't');
        assert(seq!['n', 'd'][0] == 'n' && seq!['n', 'd'][1] == 'd');
        assert(seq!['r', 'd'][0] == 'r' && seq!['r', 'd'][1] == 'd');
    }
}

/// Condensing number suffixes merges a number and the suffix behind it wherever they stand.
pub proof fn lemma_ordinals_merged(tokens: Seq<Token>, source: Seq<char>)
    ensures
        ordinals_merged(tokens, source, condensed(NumberSuffixes, tokens, source)),
{
    let out = condensed(NumberSuffixes, tokens, source);
    let starts = lemma_cut(NumberSuffixes, tokens, source);
    assert forall|k: int, l: int| 0 <= k && l == k + 1 && l < starts.len() implies is_ordinal_group(
        tokens,
        source,
        #[trigger] starts[k],
        #[trigger] starts[l],
        out[k].kind,
    ) by {
        let at = starts[k];
        assert(starts[k] < starts[l]);
        if at + 1 < tokens.len() {
            let chars = tokens[at + 1].span.content(source);
            lemma_spelled(chars);
            if let Some(suffix) = NumberSuffixes::suffix(tokens, source, at) {
                assert(spells_suffix(chars, suffix));
                assert(is_ordinal(tokens, source, at, suffix));
            }
        }
    }
    assert(ordinal_groups(tokens, source, out, starts));
}

/// A number and the suffix behind it become one number that reaches over both, knows the suffix
/// and is as precise as before, whatever stands behind them.
pub proof fn lemma_ordinal_is_one_number(
    tokens: Seq<Token>,
    source: Seq<char>,
    at: int,
    suffix: OrdinalSuffix,
) -> (k: int)
    requires
        is_ordinal(tokens, source, at, suffix),
    ensures
        0 <= k < condensed(NumberSuffixes, tokens, source).len(),
        condensed(NumberSuffixes, tokens, source)[k].kind == TokenKind::Number(
            Number {
                suffix: Some(suffix),
                precision: tokens[at].kind->Number_0.precision,
            },
        ),
        condensed(NumberSuffixes, tokens, source)[k].span.start == tokens[at].span.start,
        condensed(NumberSuffixes, tokens, source)[k].span.end == tokens[at + 1].span.end,
{
    let out = condensed(NumberSuffixes, tokens, source);
    lemma_ordinals_merged(tokens, source);
    let starts = choose|starts: Seq<int>| #[trigger] ordinal_groups(tokens, source, out, starts);
    let k = lemma_group_of(tokens, out, starts, at);
    assert(starts[k] < starts[k + 1]);
    assert(is_ordinal_group(tokens, source, starts[k], starts[k + 1], out[k].kind));
    if starts[k] < at {
        let other = choose|other: OrdinalSuffix| #[trigger]
            is_ordinal(tokens, source, starts[k], other);
        assert(is_ordinal(tokens, source, starts[k], other));
        assert(starts[k] + 1 == at);
    }
    k
}

/// No number without a suffix has a suffix behind it once number suffixes were condensed.
pub proof fn lemma_no_suffix_remains(
    tokens: Seq<Token>,
    source: Seq<char>,
    k: int,
    suffix: OrdinalSuffix,
)
    requires
        is_ordinal(condensed(NumberSuffixes, tokens, source), source, k, suffix),
    ensures
        condensed(NumberSuffixes, tokens, source)[k].kind->Number_0.suffix is Some,
{
    let out = condensed(NumberSuffixes, tokens, source);
    lemma_ordinals_merged(tokens, source);
    let starts = choose|starts: Seq<int>| #[trigger] ordinal_groups(tokens, source, out, starts);
    let s = starts[k];
    let e = starts[k + 1];
    assert(s < e);
    assert(e < starts[k + 2]);
    assert(is_ordinal_group(tokens, source, s, e, out[k].kind));
    assert(is_ordinal_group(tokens, source, e, starts[k + 2], out[k + 1].kind));
    if out[k].kind->Number_0.suffix is None {
        assert(forall|other: OrdinalSuffix| !#[trigger] is_ordinal(tokens, source, s, other));
        assert(e == s + 1);
        if exists|other: OrdinalSuffix| #[trigger] is_ordinal(tokens, source, e, other) {
            let other = choose|other: OrdinalSuffix| #[trigger]
                is_ordinal(tokens, source, e, other);
            assert(out[k + 1].kind is Number);
        }
        assert(starts[k + 2] == e + 1);
        assert(is_ordinal(tokens, source, s, suffix));
    }
}

} // verus!
