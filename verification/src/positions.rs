//! Where in a sequence the tokens of some sort stand.

use vstd::prelude::*;
use crate::span::Span;
use crate::token::Token;
use crate::token_kind::TokenKind;

verus! {

/// The sorts of tokens that can be looked for.
#[derive(Clone, Copy)]
pub enum TokenClass {
    Adjective,
    Apostrophe,
    At,
    ChunkTerminator,
    Comma,
    Conjunction,
    Currency,
    Ellipsis,
    Hostname,
    LikelyHomograph,
    LinkingVerb,
    Noun,
    Number,
    ParagraphBreak,
    Pipe,
    Preposition,
    Punctuation,
    Quote,
    SentenceTerminator,
    Space,
    Unlintable,
    Verb,
    Word,
    WordLike,
}

impl TokenClass {
    /// Whether tokens of this kind belong to the class.
    #[verifier::allow_in_spec]
    pub fn has(self, kind: TokenKind) -> bool
        returns
            (match self {
                TokenClass::Adjective => kind.is_adjective(),
                TokenClass::Apostrophe => kind.is_apostrophe(),
                TokenClass::At => kind.is_at(),
                TokenClass::ChunkTerminator => kind.is_chunk_terminator(),
                TokenClass::Comma => kind.is_comma(),
                TokenClass::Conjunction => kind.is_conjunction(),
                TokenClass::Currency => kind.is_currency(),
                TokenClass::Ellipsis => kind.is_ellipsis(),
                TokenClass::Hostname => kind.is_hostname(),
                TokenClass::LikelyHomograph => kind.is_likely_homograph(),
                TokenClass::LinkingVerb => kind.is_linking_verb(),
                TokenClass::Noun => kind.is_noun(),
                TokenClass::Number => kind.is_number(),
                TokenClass::ParagraphBreak => kind.is_paragraph_break(),
                TokenClass::Pipe => kind.is_pipe(),
                TokenClass::Preposition => kind.is_preposition(),
                TokenClass::Punctuation => kind.is_punctuation(),
                TokenClass::Quote => kind.is_quote(),
                TokenClass::SentenceTerminator => kind.is_sentence_terminator(),
                TokenClass::Space => kind.is_space(),
                TokenClass::Unlintable => kind.is_unlintable(),
                TokenClass::Verb => kind.is_verb(),
                TokenClass::Word => kind.is_word(),
                TokenClass::WordLike => kind.is_word_like(),
            }),
    {
        match self {
            TokenClass::Adjective => kind.is_adjective(),
            TokenClass::Apostrophe => kind.is_apostrophe(),
            TokenClass::At => kind.is_at(),
            TokenClass::ChunkTerminator => kind.is_chunk_terminator(),
            TokenClass::Comma => kind.is_comma(),
            TokenClass::Conjunction => kind.is_conjunction(),
            TokenClass::Currency => kind.is_currency(),
            TokenClass::Ellipsis => kind.is_ellipsis(),
            TokenClass::Hostname => kind.is_hostname(),
            TokenClass::LikelyHomograph => kind.is_likely_homograph(),
            TokenClass::LinkingVerb => kind.is_linking_verb(),
            TokenClass::Noun => kind.is_noun(),
            TokenClass::Number => kind.is_number(),
            TokenClass::ParagraphBreak => kind.is_paragraph_break(),
            TokenClass::Pipe => kind.is_pipe(),
            TokenClass::Preposition => kind.is_preposition(),
            TokenClass::Punctuation => kind.is_punctuation(),
            TokenClass::Quote => kind.is_quote(),
            TokenClass::SentenceTerminator => kind.is_sentence_terminator(),
            TokenClass::Space => kind.is_space(),
            TokenClass::Unlintable => kind.is_unlintable(),
            TokenClass::Verb => kind.is_verb(),
            TokenClass::Word => kind.is_word(),
            TokenClass::WordLike => kind.is_word_like(),
        }
    }

    /// The test for being of the class.
    pub open spec fn test(self) -> spec_fn(Token) -> bool {
        |token: Token| self.has(token.kind)
    }
}

/// The indices of the tokens that pass the test, in order.
pub open spec fn positions(tokens: Seq<Token>, test: spec_fn(Token) -> bool) -> Seq<usize>
    decreases tokens.len(),
{
    if tokens.len() == 0 {
        Seq::empty()
    } else {
        let front = positions(tokens.drop_last(), test);
        if test(tokens.last()) {
            front.push((tokens.len() - 1) as usize)
        } else {
            front
        }
    }
}

/// The indices in the list are those of the tokens that pass the test, each listed once and the
/// smaller before the larger.
pub proof fn lemma_positions(tokens: Seq<Token>, test: spec_fn(Token) -> bool)
    requires
        tokens.len() <= usize::MAX,
    ensures
        positions(tokens, test).len() <= tokens.len(),
        forall|k: int|
            0 <= k < positions(tokens, test).len() ==> (#[trigger] positions(tokens, test)[k])
                < tokens.len() && test(tokens[positions(tokens, test)[k] as int]),
        forall|k: int, l: int|
            0 <= k < l < positions(tokens, test).len() ==> (#[trigger] positions(tokens, test)[k])
                < (#[trigger] positions(tokens, test)[l]),
        forall|i: int|
            0 <= i < tokens.len() && test(#[trigger] tokens[i]) ==> positions(
                tokens,
                test,
            ).contains(i as usize),
    decreases tokens.len(),
{
    if tokens.len() > 0 {
        let front = tokens.drop_last();
        let last: int = tokens.len() - 1;
        lemma_positions(front, test);
        let before = positions(front, test);
        let all = positions(tokens, test);
        assert forall|k: int| 0 <= k < all.len() implies (#[trigger] all[k]) < tokens.len() && test(
            tokens[all[k] as int],
        ) by {
            if k < before.len() {
                assert(all[k] == before[k]);
                assert(front[before[k] as int] == tokens[before[k] as int]);
            }
        }
        assert forall|k: int, l: int| 0 <= k < l < all.len() implies (#[trigger] all[k]) < (
        #[trigger] all[l]) by {
            assert(all[k] == before[k]);
            if l < before.len() {
                assert(all[l] == before[l]);
            }
        }
        assert forall|i: int| 0 <= i < tokens.len() && test(#[trigger] tokens[i]) implies
            all.contains(i as usize) by {
            if i < last {
                assert(front[i] == tokens[i]);
                assert(before.contains(i as usize));
                let k = choose|k: int| 0 <= k < before.len() && before[k] == i as usize;
                assert(all[k] == i as usize);
            } else {
                assert(all[all.len() - 1] == i as usize);
            }
        }
    }
}

/// The tokens behind the first `n` do not change which of the first `n` are listed.
pub proof fn lemma_positions_prefix(tokens: Seq<Token>, test: spec_fn(Token) -> bool, n: int)
    requires
        0 <= n <= tokens.len() <= usize::MAX,
    ensures
        positions(tokens.take(n), test).len() <= positions(tokens, test).len(),
        positions(tokens.take(n), test) == positions(tokens, test).take(
            positions(tokens.take(n), test).len() as int,
        ),
        forall|k: int|
            positions(tokens.take(n), test).len() <= k < positions(tokens, test).len() ==> (
            #[trigger] positions(tokens, test)[k]) >= n,
    decreases tokens.len() - n,
{
    let head = positions(tokens.take(n), test);
    let all = positions(tokens, test);
    if n == tokens.len() {
        assert(tokens.take(n) == tokens);
        assert(all.take(all.len() as int) == all);
    } else {
        lemma_positions_prefix(tokens, test, n + 1);
        let more = positions(tokens.take(n + 1), test);
        assert(tokens.take(n + 1).drop_last() == tokens.take(n));
        assert(tokens.take(n + 1).last() == tokens[n]);
        assert(more == all.take(more.len() as int));
        if test(tokens[n]) {
            assert(more == head.push(n as usize));
            assert(all[head.len() as int] == more[head.len() as int]);
        }
        assert(head == more.take(head.len() as int));
        assert(head == all.take(head.len() as int));
        assert forall|k: int| head.len() <= k < all.len() implies (#[trigger] all[k]) >= n by {
            if k < more.len() {
                assert(all[k] == more[k]);
            }
        }
    }
}

/// Which tokens are listed depends on nothing but which of them pass the test.
pub proof fn lemma_positions_same(a: Seq<Token>, b: Seq<Token>, test: spec_fn(Token) -> bool)
    requires
        a.len() == b.len(),
        forall|i: int| 0 <= i < a.len() ==> test(#[trigger] a[i]) == test(b[i]),
    ensures
        positions(a, test) == positions(b, test),
    decreases a.len(),
{
    if a.len() > 0 {
        assert(test(a[a.len() - 1]) == test(b[b.len() - 1]));
        assert forall|i: int| 0 <= i < a.drop_last().len() implies test(
            #[trigger] a.drop_last()[i],
        ) == test(b.drop_last()[i]) by {
            assert(test(a[i]) == test(b[i]));
        }
        lemma_positions_same(a.drop_last(), b.drop_last(), test);
    }
}

/// Lists the tokens of a class.
pub fn positions_in_class(tokens: &[Token], class: TokenClass) -> (found: Vec<usize>)
    ensures
        found@ == positions(tokens@, class.test()),
{
    let mut found: Vec<usize> = Vec::new();
    for i in 0..tokens.len()
        invariant
            found@ == positions(tokens@.take(i as int), class.test()),
    {
        assert(tokens@.take(i + 1).drop_last() == tokens@.take(i as int));
        if class.has(tokens[i].kind) {
            found.push(i);
        }
    }
    assert(tokens@.take(tokens@.len() as int) == tokens@);
    found
}

/// The test for sharing a position with a span.
pub open spec fn overlapping(span: Span) -> spec_fn(Token) -> bool {
    |token: Token| token.span.overlaps_with(span)
}

/// Lists the tokens that share a position with a span.
pub fn positions_overlapping(tokens: &[Token], span: Span) -> (found: Vec<usize>)
    ensures
        found@ == positions(tokens@, overlapping(span)),
{
    let mut found: Vec<usize> = Vec::new();
    for i in 0..tokens.len()
        invariant
            found@ == positions(tokens@.take(i as int), overlapping(span)),
    {
        assert(tokens@.take(i + 1).drop_last() == tokens@.take(i as int));
        if tokens[i].span.overlaps_with(span) {
            found.push(i);
        }
    }
    assert(tokens@.take(tokens@.len() as int) == tokens@);
    found
}

} // verus!
