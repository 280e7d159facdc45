//! Dotted initialisms.

use vstd::prelude::*;
use crate::condense::condensed;
use crate::initialisms::Initialisms;
use crate::laws::groups::{cut, lemma_cut, lemma_group_of};
use crate::punctuation::Punctuation;
use crate::token::{well_formed, Token};
use crate::token_kind::TokenKind;

verus! {

/// Whether a word of one character and a period follow each other from `at` on.
pub open spec fn is_dotted(tokens: Seq<Token>, at: int) -> bool {
    &&& 0 <= at
    &&& at + 1 < tokens.len()
    &&& tokens[at].kind is Word
    &&& tokens[at].span.end - tokens[at].span.start == 1
    &&& tokens[at + 1].kind == TokenKind::Punctuation(Punctuation::Period)
}

/// Whether nothing but words of one character, each with a period behind it, stands from `from`
/// to `to`.
pub open spec fn all_dotted(tokens: Seq<Token>, from: int, to: int) -> bool {
    &&& (to - from) % 2 == 0
    &&& forall|i: int| from <= i < to && (i - from) % 2 == 0 ==> #[trigger] is_dotted(tokens, i)
}

/// Whether the two tokens at `at` end a document that is longer.
pub open spec fn ends_longer(tokens: Seq<Token>, at: int) -> bool {
    at > 0 && at + 2 == tokens.len()
}

/// Whether the groups are the runs of dotted letters, as long as they get, and single tokens
/// elsewhere. A single dotted letter that ends a longer document is no group.
pub open spec fn initialism_groups(
    tokens: Seq<Token>,
    out: Seq<Token>,
    starts: Seq<int>,
) -> bool {
    &&& cut(tokens, out, starts)
    &&& forall|k: int, l: int|
        0 <= k && l == k + 1 && l < starts.len() ==> {
            &&& (#[trigger] starts[l]) - (#[trigger] starts[k]) > 1 ==> all_dotted(
                tokens,
                starts[k],
                starts[l],
            ) && !is_dotted(tokens, starts[l])
            &&& starts[l] - starts[k] == 2 ==> !ends_longer(tokens, starts[k])
            &&& starts[l] - starts[k] == 1 ==> !is_dotted(tokens, starts[k]) || ends_longer(
                tokens,
                starts[k],
            )
            &&& out[k].kind == tokens[starts[k]].kind
        }
}

/// Whether `out` is what is left of the tokens when each run of dotted letters became one word,
/// but for a single one that ends a longer document, and nothing else changed.
pub open spec fn initialisms_merged(tokens: Seq<Token>, out: Seq<Token>) -> bool {
    exists|starts: Seq<int>| #[trigger] initialism_groups(tokens, out, starts)
}

/// The counted letters are dotted, and no more of them follow.
proof fn lemma_letters(tokens: Seq<Token>, at: int)
    requires
        0 <= at <= tokens.len(),
    ensures
        all_dotted(tokens, at, at + 2 * Initialisms::letters(tokens, at)),
        !is_dotted(tokens, at + 2 * Initialisms::letters(tokens, at)),
    decreases tokens.len() - at,
{
    if is_dotted(tokens, at) {
        lemma_letters(tokens, at + 2);
        let end = at + 2 * Initialisms::letters(tokens, at);
        assert forall|i: int| at <= i < end && (i - at) % 2 == 0 implies #[trigger] is_dotted(
            tokens,
            i,
        ) by {
            if i > at {
                assert((i - (at + 2)) % 2 == 0);
            }
        }
    }
}

/// Condensing initialisms merges each run of dotted letters.
pub proof fn lemma_initialisms_merged(tokens: Seq<Token>, source: Seq<char>)
    ensures
        initialisms_merged(tokens, condensed(Initialisms, tokens, source)),
{
    let out = condensed(Initialisms, tokens, source);
    let starts = lemma_cut(Initialisms, tokens, source);
    assert forall|k: int, l: int| 0 <= k && l == k + 1 && l < starts.len() implies {
        &&& (#[trigger] starts[l]) - (#[trigger] starts[k]) > 1 ==> all_dotted(
            tokens,
            starts[k],
            starts[l],
        ) && !is_dotted(tokens, starts[l])
        &&& starts[l] - starts[k] == 2 ==> !ends_longer(tokens, starts[k])
        &&& starts[l] - starts[k] == 1 ==> !is_dotted(tokens, starts[k]) || ends_longer(
            tokens,
            starts[k],
        )
        &&& out[k].kind == tokens[starts[k]].kind
    } by {
        assert(starts[k] < starts[l]);
        lemma_letters(tokens, starts[k]);
    }
    assert(initialism_groups(tokens, out, starts));
}

/// A run of dotted letters with none in front of it and none behind it becomes one word that
/// reaches over all of it, whatever else stands around it. The exception is a single letter with
/// its period at the end of a longer document.
pub proof fn lemma_initialism_is_one_word(
    tokens: Seq<Token>,
    source: Seq<char>,
    from: int,
    to: int,
) -> (k: int)
    requires
        0 <= from < to <= tokens.len(),
        all_dotted(tokens, from, to),
        !is_dotted(tokens, from - 2),
        !is_dotted(tokens, to),
        to - from == 2 ==> !ends_longer(tokens, from),
    ensures
        0 <= k < condensed(Initialisms, tokens, source).len(),
        condensed(Initialisms, tokens, source)[k].kind is Word,
        condensed(Initialisms, tokens, source)[k].span.start == tokens[from].span.start,
        condensed(Initialisms, tokens, source)[k].span.end == tokens[to - 1].span.end,
{
    let out = condensed(Initialisms, tokens, source);
    lemma_initialisms_merged(tokens, source);
    let starts = choose|starts: Seq<int>| #[trigger] initialism_groups(tokens, out, starts);
    let k = lemma_group_of(tokens, out, starts, from);
    let s = starts[k];
    let e = starts[k + 1];
    assert(s < e);
    assert(is_dotted(tokens, from));
    if s < from {
        assert(all_dotted(tokens, s, e));
        if (from - s) % 2 == 0 {
            assert((from - 2 - s) % 2 == 0);
            assert(is_dotted(tokens, from - 2));
        } else {
            assert((from - 1 - s) % 2 == 0);
            assert(is_dotted(tokens, from - 1));
        }
    }
    assert(s == from);
    if e - s == 1 {
        assert(ends_longer(tokens, from));
        assert(to - from != 2);
        assert(to - from >= 4);
    }
    if e < to {
        assert((e - from) % 2 == 0);
        assert(is_dotted(tokens, e));
    } else if e > to {
        assert((to - s) % 2 == 0);
        assert(is_dotted(tokens, to));
    }
    k
}

/// A condensed document holds no word of one character with a period behind it, but for one that
/// ends a longer document.
pub proof fn lemma_no_dotted_letter_remains(tokens: Seq<Token>, source: Seq<char>, k: int)
    requires
        well_formed(tokens, source.len()),
        forall|i: int|
            0 <= i < tokens.len() && (#[trigger] tokens[i]).kind == TokenKind::Punctuation(
                Punctuation::Period,
            ) ==> tokens[i].span.start < tokens[i].span.end,
        is_dotted(condensed(Initialisms, tokens, source), k),
    ensures
        ends_longer(condensed(Initialisms, tokens, source), k),
{
    let out = condensed(Initialisms, tokens, source);
    lemma_initialisms_merged(tokens, source);
    let starts = choose|starts: Seq<int>| #[trigger] initialism_groups(tokens, out, starts);
    let s = starts[k];
    let e = starts[k + 1];
    assert(s < e);
    assert(e < starts[k + 2]);
    if e - s > 1 {
        assert(all_dotted(tokens, s, e));
        assert((e - 2 - s) % 2 == 0);
        assert(is_dotted(tokens, e - 2));
        assert(is_dotted(tokens, s));
        assert(tokens[s].span.end <= tokens[e - 1].span.start);
    }
    assert(is_dotted(tokens, s));
    assert(starts[k + 2] == tokens.len());
    if k + 2 < out.len() {
        assert(starts[k + 2] < starts[k + 3]);
    }
}

} // verus!
