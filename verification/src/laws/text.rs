//! The text of tokens.

use vstd::prelude::*;
use crate::token::{spelled, Token};

verus! {

/// No tokens spell nothing, and one token spells the characters that it covers.
pub proof fn lemma_one_spelled(token: Token, source: Seq<char>)
    ensures
        spelled(Seq::<Token>::empty(), source) == Seq::<char>::empty(),
        spelled(seq![token], source) == source.subrange(
            token.span.start as int,
            token.span.end as int,
        ),
{
    assert(seq![token].drop_first() == Seq::<Token>::empty());
    assert(spelled(Seq::<Token>::empty(), source) == Seq::<char>::empty());
}

/// What two sequences of tokens spell together is what the first spells and then what the second
/// does.
pub proof fn lemma_spelled_together(a: Seq<Token>, b: Seq<Token>, source: Seq<char>)
    ensures
        spelled(a + b, source) == spelled(a, source) + spelled(b, source),
    decreases a.len(),
{
    if a.len() == 0 {
        assert(a + b == b);
    } else {
        assert((a + b).drop_first() == a.drop_first() + b);
        lemma_spelled_together(a.drop_first(), b, source);
    }
}

} // verus!
