//! Nominal phrases.

use vstd::prelude::*;
use crate::token::Token;

verus! {

/// Whether the token can stand within a nominal phrase: it is a member of a noun phrase or
/// whitespace.
#[verifier::allow_in_spec]
pub fn within_phrase(token: Token) -> bool
    returns
        token.kind.is_np_member() || token.kind.is_whitespace(),
{
    token.kind.is_np_member() || token.kind.is_whitespace()
}

/// Where the run of tokens ends that can stand within a phrase, counted from `from`.
pub open spec fn run_end(tokens: Seq<Token>, from: int) -> int
    decreases tokens.len() - from,
{
    if from < 0 || from >= tokens.len() {
        tokens.len() as int
    } else if within_phrase(tokens[from]) {
        run_end(tokens, from + 1)
    } else {
        from
    }
}

/// The first position from `from` to `to` that does not hold whitespace, or `to`.
pub open spec fn trimmed_start(tokens: Seq<Token>, from: int, to: int) -> int
    decreases to - from,
{
    if from < to && tokens[from].kind.is_whitespace() {
        trimmed_start(tokens, from + 1, to)
    } else {
        from
    }
}

/// Where the tokens from `from` to `to` end without the whitespace behind them.
pub open spec fn trimmed_end(tokens: Seq<Token>, from: int, to: int) -> int
    decreases to - from,
{
    if from < to && tokens[to - 1].kind.is_whitespace() {
        trimmed_end(tokens, from, to - 1)
    } else {
        to
    }
}

/// The bounds of the nominal phrases from `from` on: of each run of tokens that can stand
/// within a phrase, what is left without the whitespace at its ends, if anything is left.
pub open spec fn phrases_from(tokens: Seq<Token>, from: int) -> Seq<(int, int)>
    decreases tokens.len() - from,
{
    if from < 0 || from >= tokens.len() {
        Seq::empty()
    } else {
        let end = run_end(tokens, from);
        let start = trimmed_start(tokens, from, end);
        let stop = trimmed_end(tokens, start, end);
        let rest = if end < from || end >= tokens.len() {
            Seq::empty()
        } else {
            phrases_from(tokens, end + 1)
        };
        if start < stop {
            seq![(start, stop)] + rest
        } else {
            rest
        }
    }
}

/// The bounds of the nominal phrases.
pub open spec fn nominal_phrases(tokens: Seq<Token>) -> Seq<(int, int)> {
    phrases_from(tokens, 0)
}

/// A run ends within the sequence, at a token that cannot stand within a phrase.
proof fn lemma_run_end(tokens: Seq<Token>, from: int)
    requires
        0 <= from <= tokens.len(),
    ensures
        from <= run_end(tokens, from) <= tokens.len(),
        forall|i: int| from <= i < run_end(tokens, from) ==> within_phrase(#[trigger] tokens[i]),
        run_end(tokens, from) < tokens.len() ==> !within_phrase(tokens[run_end(tokens, from)]),
    decreases tokens.len() - from,
{
    if from < tokens.len() && within_phrase(tokens[from]) {
        lemma_run_end(tokens, from + 1);
    }
}

/// Only whitespace is trimmed at the start.
proof fn lemma_trimmed_start(tokens: Seq<Token>, from: int, to: int)
    requires
        0 <= from <= to <= tokens.len(),
    ensures
        from <= trimmed_start(tokens, from, to) <= to,
        forall|i: int|
            from <= i < trimmed_start(tokens, from, to) ==> (
            #[trigger] tokens[i]).kind.is_whitespace(),
        trimmed_start(tokens, from, to) < to ==> !tokens[trimmed_start(
            tokens,
            from,
            to,
        )].kind.is_whitespace(),
    decreases to - from,
{
    if from < to && tokens[from].kind.is_whitespace() {
        lemma_trimmed_start(tokens, from + 1, to);
    }
}

/// Only whitespace is trimmed at the end.
proof fn lemma_trimmed_end(tokens: Seq<Token>, from: int, to: int)
    requires
        0 <= from <= to <= tokens.len(),
    ensures
        from <= trimmed_end(tokens, from, to) <= to,
        forall|i: int|
            trimmed_end(tokens, from, to) <= i < to ==> (
            #[trigger] tokens[i]).kind.is_whitespace(),
        from < trimmed_end(tokens, from, to) ==> !tokens[trimmed_end(
            tokens,
            from,
            to,
        ) - 1].kind.is_whitespace(),
    decreases to - from,
{
    if from < to && tokens[to - 1].kind.is_whitespace() {
        lemma_trimmed_end(tokens, from, to - 1);
    }
}

/// Whether the tokens from `bounds.0` to `bounds.1` make a phrase: members of noun phrases with
/// nothing but whitespace between them, the first and the last token being members.
pub open spec fn is_phrase(tokens: Seq<Token>, bounds: (int, int)) -> bool {
    &&& 0 <= bounds.0 < bounds.1 <= tokens.len()
    &&& tokens[bounds.0].kind.is_np_member()
    &&& tokens[bounds.1 - 1].kind.is_np_member()
    &&& forall|i: int| bounds.0 <= i < bounds.1 ==> within_phrase(#[trigger] tokens[i])
}

/// Whether a token between `a` and `b` cannot stand within a phrase.
pub open spec fn parted(tokens: Seq<Token>, a: int, b: int) -> bool {
    exists|i: int| a <= i < b && !within_phrase(#[trigger] tokens[i])
}

/// The phrase of the run at `from`, if the run has one, and the phrases behind the run.
spec fn first_phrase(tokens: Seq<Token>, from: int) -> Seq<(int, int)> {
    let end = run_end(tokens, from);
    let start = trimmed_start(tokens, from, end);
    let stop = trimmed_end(tokens, start, end);
    if start < stop {
        seq![(start, stop)]
    } else {
        Seq::empty()
    }
}

spec fn later_phrases(tokens: Seq<Token>, from: int) -> Seq<(int, int)> {
    let end = run_end(tokens, from);
    if end < tokens.len() {
        phrases_from(tokens, end + 1)
    } else {
        Seq::empty()
    }
}

/// The first run gives a phrase if it has a member of a noun phrase, and all its members are in
/// the phrase.
proof fn lemma_first_phrase(tokens: Seq<Token>, from: int)
    requires
        0 <= from < tokens.len(),
    ensures
        phrases_from(tokens, from) == first_phrase(tokens, from) + later_phrases(tokens, from),
        first_phrase(tokens, from).len() <= 1,
        forall|k: int|
            0 <= k < first_phrase(tokens, from).len() ==> is_phrase(
                tokens,
                #[trigger] first_phrase(tokens, from)[k],
            ) && from <= first_phrase(tokens, from)[k].0 && first_phrase(tokens, from)[k].1
                <= run_end(tokens, from),
        forall|i: int|
            from <= i < run_end(tokens, from) && (#[trigger] tokens[i]).kind.is_np_member()
                ==> first_phrase(tokens, from).len() == 1 && first_phrase(tokens, from)[0].0 <= i
                < first_phrase(tokens, from)[0].1,
{
    let end = run_end(tokens, from);
    lemma_run_end(tokens, from);
    let start = trimmed_start(tokens, from, end);
    lemma_trimmed_start(tokens, from, end);
    let stop = trimmed_end(tokens, start, end);
    lemma_trimmed_end(tokens, start, end);
    assert(phrases_from(tokens, from) == first_phrase(tokens, from) + later_phrases(
        tokens,
        from,
    ));
    if start < stop {
        assert(within_phrase(tokens[start]));
        assert(within_phrase(tokens[stop - 1]));
        assert(is_phrase(tokens, (start, stop)));
    }
}

/// Each nominal phrase is made of members of noun phrases and the whitespace between them.
pub proof fn lemma_phrases_are_nominal(tokens: Seq<Token>, from: int)
    requires
        0 <= from <= tokens.len(),
    ensures
        forall|k: int|
            0 <= k < phrases_from(tokens, from).len() ==> is_phrase(
                tokens,
                #[trigger] phrases_from(tokens, from)[k],
            ) && from <= phrases_from(tokens, from)[k].0,
    decreases tokens.len() - from,
{
    if from < tokens.len() {
        let all = phrases_from(tokens, from);
        let first = first_phrase(tokens, from);
        let rest = later_phrases(tokens, from);
        lemma_first_phrase(tokens, from);
        lemma_run_end(tokens, from);
        if run_end(tokens, from) < tokens.len() {
            lemma_phrases_are_nominal(tokens, run_end(tokens, from) + 1);
        }
        assert forall|k: int| 0 <= k < all.len() implies is_phrase(tokens, #[trigger] all[k])
            && from <= all[k].0 by {
            if k < first.len() {
                assert(all[k] == first[k]);
            } else {
                assert(all[k] == rest[k - first.len()]);
            }
        }
    }
}

/// Every member of a noun phrase is in one of the nominal phrases.
pub proof fn lemma_members_are_in_phrases(tokens: Seq<Token>, from: int, at: int)
    requires
        0 <= from <= at < tokens.len(),
        tokens[at].kind.is_np_member(),
    ensures
        exists|k: int|
            0 <= k < phrases_from(tokens, from).len() && (#[trigger] phrases_from(
                tokens,
                from,
            )[k]).0 <= at < phrases_from(tokens, from)[k].1,
    decreases tokens.len() - from,
{
    let all = phrases_from(tokens, from);
    let first = first_phrase(tokens, from);
    let rest = later_phrases(tokens, from);
    let end = run_end(tokens, from);
    lemma_first_phrase(tokens, from);
    lemma_run_end(tokens, from);
    if at < end {
        assert(all[0] == first[0]);
    } else {
        assert(at != end);
        lemma_members_are_in_phrases(tokens, end + 1, at);
        let k = choose|k: int| 0 <= k < rest.len() && (#[trigger] rest[k]).0 <= at < rest[k].1;
        assert(all[k + first.len()] == rest[k]);
    }
}

/// A token that cannot stand within a phrase parts each nominal phrase from the next.
pub proof fn lemma_phrases_are_parted(tokens: Seq<Token>, from: int)
    requires
        0 <= from <= tokens.len(),
    ensures
        forall|k: int, l: int|
            0 <= k && l == k + 1 && l < phrases_from(tokens, from).len() ==> parted(
                tokens,
                (#[trigger] phrases_from(tokens, from)[k]).1,
                (#[trigger] phrases_from(tokens, from)[l]).0,
            ),
    decreases tokens.len() - from,
{
    if from < tokens.len() {
        let all = phrases_from(tokens, from);
        let first = first_phrase(tokens, from);
        let rest = later_phrases(tokens, from);
        let end = run_end(tokens, from);
        lemma_first_phrase(tokens, from);
        lemma_run_end(tokens, from);
        if end < tokens.len() {
            lemma_phrases_are_parted(tokens, end + 1);
            lemma_phrases_are_nominal(tokens, end + 1);
        }
        assert forall|k: int, l: int| 0 <= k && l == k + 1 && l < all.len() implies parted(
            tokens,
            (#[trigger] all[k]).1,
            (#[trigger] all[l]).0,
        ) by {
            assert(all[l] == rest[l - first.len()]);
            if k < first.len() {
                assert(all[k] == first[k]);
                assert(!within_phrase(tokens[end]));
            } else {
                assert(all[k] == rest[k - first.len()]);
            }
        }
    }
}

fn find_run_end(tokens: &[Token], from: usize) -> (end: usize)
    requires
        from <= tokens@.len(),
    ensures
        end == run_end(tokens@, from as int),
        from <= end <= tokens@.len(),
{
    let mut end: usize = from;
    while end < tokens.len() && within_phrase(tokens[end])
        invariant
            from <= end <= tokens@.len(),
            run_end(tokens@, from as int) == run_end(tokens@, end as int),
        decreases tokens@.len() - end,
    {
        end = end + 1;
    }
    end
}

/// The bounds of the tokens from `from` to `to` without the whitespace at the ends.
fn trim(tokens: &[Token], from: usize, to: usize) -> (bounds: (usize, usize))
    requires
        from <= to <= tokens@.len(),
    ensures
        bounds.0 == trimmed_start(tokens@, from as int, to as int),
        bounds.1 == trimmed_end(tokens@, bounds.0 as int, to as int),
        from <= bounds.0 <= bounds.1 <= to,
{
    let mut start: usize = from;
    while start < to && tokens[start].kind.is_whitespace()
        invariant
            from <= start <= to <= tokens@.len(),
            trimmed_start(tokens@, from as int, to as int) == trimmed_start(
                tokens@,
                start as int,
                to as int,
            ),
        decreases to - start,
    {
        start = start + 1;
    }
    let mut end: usize = to;
    while end > start && tokens[end - 1].kind.is_whitespace()
        invariant
            start <= end <= to <= tokens@.len(),
            trimmed_end(tokens@, start as int, to as int) == trimmed_end(
                tokens@,
                start as int,
                end as int,
            ),
        decreases end - start,
    {
        end = end - 1;
    }
    (start, end)
}

/// Whether the slices are the nominal phrases of the tokens.
pub open spec fn are_phrases(slices: Seq<&[Token]>, tokens: Seq<Token>) -> bool {
    &&& slices.len() == nominal_phrases(tokens).len()
    &&& forall|k: int|
        0 <= k < slices.len() ==> (#[trigger] slices[k])@ == tokens.subrange(
            nominal_phrases(tokens)[k].0,
            nominal_phrases(tokens)[k].1,
        )
}

/// Finds the nominal phrases.
pub fn find_phrases(tokens: &[Token]) -> (slices: Vec<&[Token]>)
    ensures
        are_phrases(slices@, tokens@),
{
    let count: usize = tokens.len();
    let mut slices: Vec<&[Token]> = Vec::new();
    let mut from: usize = 0;
    let ghost all = nominal_phrases(tokens@);
    assert(all.skip(0) == all);
    while from < count
        invariant
            from <= count,
            count == tokens@.len(),
            all == nominal_phrases(tokens@),
            slices@.len() <= all.len(),
            all.skip(slices@.len() as int) == phrases_from(tokens@, from as int),
            forall|k: int|
                0 <= k < slices@.len() ==> (#[trigger] slices@[k])@ == tokens@.subrange(
                    all[k].0,
                    all[k].1,
                ),
        decreases count - from,
    {
        let end: usize = find_run_end(tokens, from);
        let (start, stop) = trim(tokens, from, end);
        let ghost done = slices@.len() as int;
        let ghost rest = if end < count {
            phrases_from(tokens@, end + 1)
        } else {
            Seq::empty()
        };
        if start < stop {
            proof {
                assert(all.skip(done) == seq![(start as int, stop as int)] + rest);
                assert(all[done] == all.skip(done)[0]);
                assert(all.skip(done + 1) == all.skip(done).skip(1));
                assert((seq![(start as int, stop as int)] + rest).skip(1) == rest);
            }
            slices.push(&tokens[start..stop]);
        }
        if end == count {
            assert(rest == Seq::<(int, int)>::empty());
            assert(phrases_from(tokens@, count as int) == Seq::<(int, int)>::empty());
            from = count;
        } else {
            from = end + 1;
        }
    }
    assert(all.skip(slices@.len() as int).len() == 0);
    slices
}

} // verus!
