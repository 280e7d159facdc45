//! Sentences, chunks and paragraphs: the pieces of a sequence of tokens that end with a
//! terminator.

use vstd::prelude::*;
use crate::positions::TokenClass;
use crate::token::Token;

verus! {

/// Where the piece ends that the token at `from` belongs to: behind the first terminator from
/// there on, or with the sequence.
pub open spec fn piece_end(tokens: Seq<Token>, terminator: TokenClass, from: int) -> int
    decreases tokens.len() - from,
{
    if from < 0 || from >= tokens.len() {
        tokens.len() as int
    } else if terminator.has(tokens[from].kind) {
        from + 1
    } else {
        piece_end(tokens, terminator, from + 1)
    }
}

/// Where the piece starts that the token at `at` belongs to: behind the last terminator in front
/// of it, or with the sequence.
pub open spec fn piece_start(tokens: Seq<Token>, terminator: TokenClass, at: int) -> int
    decreases at,
{
    if at <= 0 {
        0
    } else if terminator.has(tokens[at - 1].kind) {
        at
    } else {
        piece_start(tokens, terminator, at - 1)
    }
}

/// The bounds of the pieces from `from` on. A sequence without terminators is one piece, also
/// where it is without tokens.
pub open spec fn pieces_from(tokens: Seq<Token>, terminator: TokenClass, from: int) -> Seq<
    (int, int),
>
    decreases tokens.len() - from,
{
    let end = piece_end(tokens, terminator, from);
    if from < 0 || end <= from || end >= tokens.len() {
        seq![(from, tokens.len() as int)]
    } else {
        seq![(from, end)] + pieces_from(tokens, terminator, end)
    }
}

/// The bounds of the pieces.
pub open spec fn pieces(tokens: Seq<Token>, terminator: TokenClass) -> Seq<(int, int)> {
    pieces_from(tokens, terminator, 0)
}

/// A piece ends within the sequence, and only its last token can be a terminator.
pub proof fn lemma_piece_end(tokens: Seq<Token>, terminator: TokenClass, from: int)
    requires
        0 <= from <= tokens.len(),
    ensures
        from <= piece_end(tokens, terminator, from) <= tokens.len(),
        from < tokens.len() ==> from < piece_end(tokens, terminator, from),
        piece_end(tokens, terminator, from) < tokens.len() ==> terminator.has(
            tokens[piece_end(tokens, terminator, from) - 1].kind,
        ),
        forall|i: int|
            from <= i < piece_end(tokens, terminator, from) - 1 ==> !terminator.has(
                (#[trigger] tokens[i]).kind,
            ),
        forall|i: int|
            #![trigger tokens[i]]
            from <= i < piece_end(tokens, terminator, from) ==> piece_end(tokens, terminator, i)
                == piece_end(tokens, terminator, from),
    decreases tokens.len() - from,
{
    if from < tokens.len() && !terminator.has(tokens[from].kind) {
        lemma_piece_end(tokens, terminator, from + 1);
    }
}

/// The tokens of a piece belong to it.
pub proof fn lemma_piece_start(tokens: Seq<Token>, terminator: TokenClass, from: int, at: int)
    requires
        0 <= from <= at < piece_end(tokens, terminator, from),
        from < tokens.len(),
        from == 0 || terminator.has(tokens[from - 1].kind),
    ensures
        piece_start(tokens, terminator, at) == from,
    decreases at,
{
    lemma_piece_end(tokens, terminator, from);
    if at > from {
        assert(!terminator.has(tokens[at - 1].kind));
        lemma_piece_start(tokens, terminator, from, at - 1);
    }
}

/// A piece starts no later than the tokens that belong to it.
pub proof fn lemma_piece_start_fits(tokens: Seq<Token>, terminator: TokenClass, at: int)
    requires
        0 <= at,
    ensures
        0 <= piece_start(tokens, terminator, at) <= at,
    decreases at,
{
    if at > 0 && !terminator.has(tokens[at - 1].kind) {
        lemma_piece_start_fits(tokens, terminator, at - 1);
    }
}

/// The pieces follow each other without a gap, from the first token to the last.
pub proof fn lemma_pieces_cover(tokens: Seq<Token>, terminator: TokenClass, from: int)
    requires
        0 <= from <= tokens.len(),
    ensures
        pieces_from(tokens, terminator, from).len() > 0,
        pieces_from(tokens, terminator, from)[0].0 == from,
        pieces_from(tokens, terminator, from).last().1 == tokens.len(),
        forall|k: int|
            0 <= k < pieces_from(tokens, terminator, from).len() ==> from <= (
            #[trigger] pieces_from(tokens, terminator, from)[k]).0 <= pieces_from(
                tokens,
                terminator,
                from,
            )[k].1 <= tokens.len(),
        forall|k: int, l: int|
            0 <= k && l == k + 1 && l < pieces_from(tokens, terminator, from).len() ==> (
            #[trigger] pieces_from(tokens, terminator, from)[k]).1 == (#[trigger] pieces_from(
                tokens,
                terminator,
                from,
            )[l]).0,
    decreases tokens.len() - from,
{
    lemma_piece_end(tokens, terminator, from);
    let end = piece_end(tokens, terminator, from);
    let all = pieces_from(tokens, terminator, from);
    if from < end && end < tokens.len() {
        let rest = pieces_from(tokens, terminator, end);
        lemma_pieces_cover(tokens, terminator, end);
        assert(all == seq![(from, end)] + rest);
        assert(all.last() == rest.last());
        assert forall|k: int| 0 <= k < all.len() implies from <= (#[trigger] all[k]).0 <= all[k].1
            <= tokens.len() by {
            if k > 0 {
                assert(all[k] == rest[k - 1]);
            }
        }
        assert forall|k: int, l: int| 0 <= k && l == k + 1 && l < all.len() implies (
        #[trigger] all[k]).1 == (#[trigger] all[l]).0 by {
            assert(all[l] == rest[l - 1]);
            if k > 0 {
                assert(all[k] == rest[k - 1]);
            }
        }
    }
}

/// Where the piece ends that the token at `from` belongs to.
pub fn find_piece_end(tokens: &[Token], terminator: TokenClass, from: usize) -> (end: usize)
    requires
        from <= tokens@.len(),
    ensures
        end == piece_end(tokens@, terminator, from as int),
        from <= end <= tokens@.len(),
{
    let mut at: usize = from;
    while at < tokens.len()
        invariant
            from <= at <= tokens@.len(),
            piece_end(tokens@, terminator, from as int) == piece_end(
                tokens@,
                terminator,
                at as int,
            ),
        decreases tokens@.len() - at,
    {
        if terminator.has(tokens[at].kind) {
            return at + 1;
        }
        at = at + 1;
    }
    at
}

/// Whether the slices are the pieces of the tokens.
pub open spec fn are_pieces(
    slices: Seq<&[Token]>,
    tokens: Seq<Token>,
    terminator: TokenClass,
) -> bool {
    &&& slices.len() == pieces(tokens, terminator).len()
    &&& forall|k: int|
        0 <= k < slices.len() ==> (#[trigger] slices[k])@ == tokens.subrange(
            pieces(tokens, terminator)[k].0,
            pieces(tokens, terminator)[k].1,
        )
}

/// Cuts the tokens behind each terminator.
pub fn split_behind(tokens: &[Token], terminator: TokenClass) -> (slices: Vec<&[Token]>)
    ensures
        are_pieces(slices@, tokens@, terminator),
{
    let count: usize = tokens.len();
    let mut slices: Vec<&[Token]> = Vec::new();
    let mut from: usize = 0;
    let mut end: usize = find_piece_end(tokens, terminator, 0);
    proof {
        lemma_pieces_cover(tokens@, terminator, 0);
        assert(pieces(tokens@, terminator).skip(0) == pieces(tokens@, terminator));
    }
    while end < count
        invariant
            count == tokens@.len(),
            from <= end <= count,
            end == piece_end(tokens@, terminator, from as int),
            slices@.len() < pieces(tokens@, terminator).len(),
            pieces(tokens@, terminator).skip(slices@.len() as int) == pieces_from(
                tokens@,
                terminator,
                from as int,
            ),
            forall|k: int|
                0 <= k < slices@.len() ==> (#[trigger] slices@[k])@ == tokens@.subrange(
                    pieces(tokens@, terminator)[k].0,
                    pieces(tokens@, terminator)[k].1,
                ),
        decreases count - from,
    {
        let ghost all = pieces(tokens@, terminator);
        let ghost done = slices@.len() as int;
        proof {
            lemma_piece_end(tokens@, terminator, from as int);
            lemma_pieces_cover(tokens@, terminator, end as int);
            let rest = pieces_from(tokens@, terminator, end as int);
            assert(all.skip(done) == seq![(from as int, end as int)] + rest);
            assert(all[done] == all.skip(done)[0]);
            assert(all.skip(done + 1) == all.skip(done).skip(1));
            assert((seq![(from as int, end as int)] + rest).skip(1) == rest);
        }
        slices.push(&tokens[from..end]);
        from = end;
        end = find_piece_end(tokens, terminator, from);
    }
    proof {
        let all = pieces(tokens@, terminator);
        let done = slices@.len() as int;
        lemma_piece_end(tokens@, terminator, from as int);
        assert(all.skip(done) == seq![(from as int, count as int)]);
        assert(all[done] == all.skip(done)[0]);
    }
    slices.push(&tokens[from..count]);
    slices
}

} // verus!
