//! What the dictionary, the tagger and the chunker say of the words of a document.

use vstd::prelude::*;
use crate::dictionary::{lookup_in, Dictionary};
use crate::metadata::{WordMetadata, UPOS};
use crate::pieces::{
    find_piece_end, lemma_piece_end, lemma_piece_start, lemma_piece_start_fits, piece_end,
    piece_start,
};
use crate::positions::TokenClass;
use crate::tagging::{brill_tags, burn_may_mark, chunk_sentence, contents, tag_sentence};
use crate::token::{well_formed, Token};
use crate::token_kind::TokenKind;

verus! {

/// How many of the first `n` tokens are not whitespace.
pub open spec fn solid(tokens: Seq<Token>, n: int) -> int
    decreases n,
{
    if n <= 0 {
        0
    } else {
        solid(tokens, n - 1) + (if tokens[n - 1].kind.is_whitespace() {
            0int
        } else {
            1
        })
    }
}

/// What is written by the tokens of a sentence that are not whitespace.
pub open spec fn sentence_words(sentence: Seq<Token>, source: Seq<char>) -> Seq<Seq<char>>
    decreases sentence.len(),
{
    if sentence.len() == 0 {
        Seq::empty()
    } else {
        let front = sentence_words(sentence.drop_last(), source);
        if sentence.last().kind.is_whitespace() {
            front
        } else {
            front.push(sentence.last().span.content(source))
        }
    }
}

/// The kind of a token that was tagged and chunked. A word takes the metadata that the
/// dictionary has of it, or none; where the tagger has no tag, the one that the metadata leave
/// open is taken. A token that is not a word stays what it was.
pub open spec fn annotated_kind(
    token: Token,
    source: Seq<char>,
    lookup: spec_fn(Seq<char>) -> Option<WordMetadata>,
    tag: Option<UPOS>,
    np_member: bool,
) -> TokenKind {
    match token.kind {
        TokenKind::Word(_) => TokenKind::Word(
            match lookup(token.span.content(source)) {
                Some(known) => Some(
                    WordMetadata {
                        pos_tag: if tag is Some {
                            tag
                        } else {
                            known.sole_tag()
                        },
                        np_member: Some(np_member),
                        ..known
                    },
                ),
                None => None,
            },
        ),
        other => other,
    }
}

/// A sentence whose tokens were tagged and chunked: the tags and the marks are those of the
/// tokens that are not whitespace, in order.
pub open spec fn annotated_sentence(
    sentence: Seq<Token>,
    source: Seq<char>,
    lookup: spec_fn(Seq<char>) -> Option<WordMetadata>,
    tags: Seq<Option<UPOS>>,
    np_members: Seq<bool>,
) -> Seq<Token> {
    Seq::new(
        sentence.len(),
        |k: int|
            Token {
                span: sentence[k].span,
                kind: annotated_kind(
                    sentence[k],
                    source,
                    lookup,
                    tags[solid(sentence, k)],
                    np_members[solid(sentence, k)],
                ),
            },
    )
}

/// The sentence that the token at `at` belongs to.
pub open spec fn sentence_around(tokens: Seq<Token>, at: int) -> Seq<Token> {
    tokens.subrange(
        piece_start(tokens, TokenClass::SentenceTerminator, at),
        piece_end(tokens, TokenClass::SentenceTerminator, at),
    )
}

/// The tag of the token at `at`, which the tagger found in the token's sentence.
pub open spec fn tag_at(tokens: Seq<Token>, source: Seq<char>, at: int) -> Option<UPOS> {
    brill_tags(sentence_words(sentence_around(tokens, at), source))[solid(tokens, at) - solid(
        tokens,
        piece_start(tokens, TokenClass::SentenceTerminator, at),
    )]
}

/// The tokens of a document that was tagged and chunked sentence by sentence. `np_members` holds
/// the marks of the tokens that are not whitespace, in order.
pub open spec fn annotated(
    tokens: Seq<Token>,
    source: Seq<char>,
    lookup: spec_fn(Seq<char>) -> Option<WordMetadata>,
    np_members: Seq<bool>,
) -> Seq<Token> {
    Seq::new(
        tokens.len(),
        |k: int|
            Token {
                span: tokens[k].span,
                kind: annotated_kind(
                    tokens[k],
                    source,
                    lookup,
                    tag_at(tokens, source, k),
                    np_members[solid(tokens, k)],
                ),
            },
    )
}

/// Whether the marks of the sentence around `at`, among the marks of all tokens that are not
/// whitespace, are some that the chunker may give the sentence with the tags it has.
pub open spec fn chunked_around(
    tokens: Seq<Token>,
    source: Seq<char>,
    np_members: Seq<bool>,
    at: int,
) -> bool {
    let words = sentence_words(sentence_around(tokens, at), source);
    burn_may_mark(
        words,
        brill_tags(words),
        np_members.subrange(
            solid(tokens, piece_start(tokens, TokenClass::SentenceTerminator, at)),
            solid(tokens, piece_end(tokens, TokenClass::SentenceTerminator, at)),
        ),
    )
}

/// Whether there is a mark for each token that is not whitespace, and the chunker may have given
/// them, sentence by sentence.
pub open spec fn chunked(tokens: Seq<Token>, source: Seq<char>, np_members: Seq<bool>) -> bool {
    &&& np_members.len() == solid(tokens, tokens.len() as int)
    &&& forall|at: int|
        0 <= at < tokens.len() ==> #[trigger] chunked_around(tokens, source, np_members, at)
}

/// Whether the chunker has but one way to mark the sentence around `at`.
pub open spec fn decided_around(tokens: Seq<Token>, source: Seq<char>, at: int) -> bool {
    let words = sentence_words(sentence_around(tokens, at), source);
    forall|a: Seq<bool>, b: Seq<bool>| #[trigger]
        burn_may_mark(words, brill_tags(words), a) && #[trigger] burn_may_mark(
            words,
            brill_tags(words),
            b,
        ) ==> a == b
}

/// Whether the chunker has but one way to mark each of the sentences.
pub open spec fn marks_decided(tokens: Seq<Token>, source: Seq<char>) -> bool {
    forall|at: int| 0 <= at < tokens.len() ==> #[trigger] decided_around(tokens, source, at)
}

/// The token without the mark for members of noun phrases.
pub open spec fn unmarked(token: Token) -> Token {
    match token.kind {
        TokenKind::Word(Some(known)) => Token {
            span: token.span,
            kind: TokenKind::Word(Some(WordMetadata { np_member: None, ..known })),
        },
        _ => token,
    }
}

/// The tokens without the marks for members of noun phrases.
pub open spec fn without_marks(tokens: Seq<Token>) -> Seq<Token> {
    tokens.map_values(|token: Token| unmarked(token))
}

/// Counting further tokens does not lower the count.
pub proof fn lemma_solid_grows(tokens: Seq<Token>, a: int, b: int)
    requires
        0 <= a <= b <= tokens.len(),
    ensures
        0 <= solid(tokens, a) <= solid(tokens, b),
        solid(tokens, b) - solid(tokens, a) <= b - a,
    decreases b,
{
    if b > 0 {
        if a < b {
            lemma_solid_grows(tokens, a, b - 1);
        } else {
            lemma_solid_grows(tokens, a - 1, b - 1);
        }
    }
}

/// Counting within a stretch is counting from where it starts.
pub proof fn lemma_solid_stretch(tokens: Seq<Token>, from: int, to: int, k: int)
    requires
        0 <= from <= to <= tokens.len(),
        0 <= k <= to - from,
    ensures
        solid(tokens.subrange(from, to), k) == solid(tokens, from + k) - solid(tokens, from),
    decreases k,
{
    if k > 0 {
        lemma_solid_stretch(tokens, from, to, k - 1);
        assert(tokens.subrange(from, to)[k - 1] == tokens[from + k - 1]);
    }
}

/// Where the chunker has but one way to mark the sentences, a document is annotated in one way.
pub proof fn lemma_annotated_alike(
    tokens: Seq<Token>,
    source: Seq<char>,
    lookup: spec_fn(Seq<char>) -> Option<WordMetadata>,
    a: Seq<bool>,
    b: Seq<bool>,
)
    requires
        chunked(tokens, source, a),
        chunked(tokens, source, b),
    ensures
        without_marks(annotated(tokens, source, lookup, a)) == without_marks(
            annotated(tokens, source, lookup, b),
        ),
        marks_decided(tokens, source) ==> annotated(tokens, source, lookup, a) == annotated(
            tokens,
            source,
            lookup,
            b,
        ),
{
    let terminator = TokenClass::SentenceTerminator;
    if marks_decided(tokens, source) {
        assert forall|k: int|
            0 <= k < tokens.len() && !(#[trigger] tokens[k]).kind.is_whitespace() implies a[solid(
            tokens,
            k,
        )] == b[solid(tokens, k)] by {
            let start = piece_start(tokens, terminator, k);
            let end = piece_end(tokens, terminator, k);
            lemma_piece_start_fits(tokens, terminator, k);
            lemma_piece_end(tokens, terminator, k);
            lemma_solid_grows(tokens, 0, start);
            lemma_solid_grows(tokens, start, k);
            lemma_solid_grows(tokens, k + 1, end);
            lemma_solid_grows(tokens, end, tokens.len() as int);
            assert(chunked_around(tokens, source, a, k));
            assert(chunked_around(tokens, source, b, k));
            assert(decided_around(tokens, source, k));
            let from = solid(tokens, start);
            let to = solid(tokens, end);
            assert(a.subrange(from, to) == b.subrange(from, to));
            assert(a.subrange(from, to)[solid(tokens, k) - from] == a[solid(tokens, k)]);
            assert(b.subrange(from, to)[solid(tokens, k) - from] == b[solid(tokens, k)]);
        }
    }
}

/// The words of a sentence are as many as its tokens that are not whitespace.
proof fn lemma_sentence_words_len(sentence: Seq<Token>, source: Seq<char>)
    ensures
        sentence_words(sentence, source).len() == solid(sentence, sentence.len() as int),
    decreases sentence.len(),
{
    if sentence.len() > 0 {
        let front = sentence.drop_last();
        lemma_sentence_words_len(front, source);
        lemma_solid_stretch(sentence, 0, sentence.len() - 1, front.len() as int);
        assert(sentence.subrange(0, sentence.len() - 1) == front);
    }
}

/// Gathers what is written by the tokens of a sentence that are not whitespace.
fn collect_words(sentence: &[Token], source: &[char]) -> (words: Vec<String>)
    requires
        well_formed(sentence@, source@.len()),
    ensures
        contents(words@) == sentence_words(sentence@, source@),
{
    let mut words: Vec<String> = Vec::new();
    assert(contents(words@) == Seq::<Seq<char>>::empty());
    for i in 0..sentence.len()
        invariant
            well_formed(sentence@, source@.len()),
            contents(words@) == sentence_words(sentence@.take(i as int), source@),
    {
        let ghost before = words@;
        assert(sentence@.take(i + 1).drop_last() == sentence@.take(i as int));
        if !sentence[i].kind.is_whitespace() {
            let word: String = sentence[i].span.get_content_string(source);
            words.push(word);
            assert(contents(words@) == contents(before).push(word@));
        }
    }
    assert(sentence@.take(sentence@.len() as int) == sentence@);
    words
}

/// Gives the words of a sentence their metadata, from the dictionary, the tags and the marks for
/// members of noun phrases.
pub fn annotate_sentence<D: Dictionary>(
    sentence: &[Token],
    source: &[char],
    dictionary: &D,
    tags: &[Option<UPOS>],
    np_members: &[bool],
) -> (out: Vec<Token>)
    requires
        well_formed(sentence@, source@.len()),
        tags@.len() >= solid(sentence@, sentence@.len() as int),
        np_members@.len() >= solid(sentence@, sentence@.len() as int),
    ensures
        out@ == annotated_sentence(sentence@, source@, lookup_in(*dictionary), tags@, np_members@),
{
    let mut out: Vec<Token> = Vec::new();
    let mut i: usize = 0;
    for k in 0..sentence.len()
        invariant
            well_formed(sentence@, source@.len()),
            tags@.len() >= solid(sentence@, sentence@.len() as int),
            np_members@.len() >= solid(sentence@, sentence@.len() as int),
            i == solid(sentence@, k as int),
            i <= k,
            out@ == annotated_sentence(
                sentence@,
                source@,
                lookup_in(*dictionary),
                tags@,
                np_members@,
            ).take(k as int),
    {
        let mut token: Token = sentence[k];
        proof {
            lemma_solid_grows(sentence@, k as int + 1, sentence@.len() as int);
        }
        if let TokenKind::Word(_) = token.kind {
            let mut found: Option<WordMetadata> = None;
            if let Some(known) = dictionary.get_word_metadata(token.span.get_content(source)) {
                let tag: Option<UPOS> = match tags[i] {
                    Some(tag) => Some(tag),
                    None => known.infer_pos_tag(),
                };
                found = Some(
                    WordMetadata { pos_tag: tag, np_member: Some(np_members[i]), ..*known },
                );
            }
            token.kind = TokenKind::Word(found);
            i = i + 1;
        } else if !token.kind.is_whitespace() {
            i = i + 1;
        }
        out.push(token);
    }
    out
}

/// A token is annotated in its document as it is in its sentence.
proof fn lemma_annotated_within_sentence(
    tokens: Seq<Token>,
    source: Seq<char>,
    lookup: spec_fn(Seq<char>) -> Option<WordMetadata>,
    before: Seq<bool>,
    np_members: Seq<bool>,
    after: Seq<bool>,
    from: int,
    at: int,
)
    requires
        0 <= from <= at < piece_end(tokens, TokenClass::SentenceTerminator, from),
        from < tokens.len(),
        from == 0 || TokenClass::SentenceTerminator.has(tokens[from - 1].kind),
        before.len() == solid(tokens, from),
        np_members.len() == solid(
            tokens,
            piece_end(tokens, TokenClass::SentenceTerminator, from),
        ) - solid(tokens, from),
    ensures
        ({
            let sentence = tokens.subrange(
                from,
                piece_end(tokens, TokenClass::SentenceTerminator, from),
            );
            annotated(tokens, source, lookup, before + (np_members + after))[at]
                == annotated_sentence(
                sentence,
                source,
                lookup,
                brill_tags(sentence_words(sentence, source)),
                np_members,
            )[at - from]
        }),
{
    let end = piece_end(tokens, TokenClass::SentenceTerminator, from);
    lemma_piece_end(tokens, TokenClass::SentenceTerminator, from);
    let sentence = tokens.subrange(from, end);
    let local: int = at - from;
    assert(tokens[at] == sentence[local]);
    lemma_piece_start(tokens, TokenClass::SentenceTerminator, from, at);
    assert(piece_end(tokens, TokenClass::SentenceTerminator, at) == end);
    lemma_solid_stretch(tokens, from, end, local);
    if !tokens[at].kind.is_whitespace() {
        lemma_solid_grows(tokens, at + 1, end);
        lemma_solid_grows(tokens, from, at);
        assert((before + (np_members + after))[solid(tokens, at)] == np_members[solid(
            sentence,
            local,
        )]);
    }
}

/// Tags and chunks a document, sentence by sentence.
pub fn annotate<D: Dictionary>(tokens: &[Token], source: &[char], dictionary: &D) -> (out: (
    Vec<Token>,
    Ghost<Seq<bool>>,
))
    requires
        well_formed(tokens@, source@.len()),
    ensures
        chunked(tokens@, source@, out.1@),
        out.0@ == annotated(tokens@, source@, lookup_in(*dictionary), out.1@),
{
    let mut out: Vec<Token> = Vec::new();
    let ghost mut marks: Seq<bool> = Seq::empty();
    let mut from: usize = 0;
    while from < tokens.len()
        invariant
            from <= tokens@.len(),
            from == 0 || from == tokens@.len() || TokenClass::SentenceTerminator.has(
                tokens@[from - 1].kind,
            ),
            well_formed(tokens@, source@.len()),
            marks.len() == solid(tokens@, from as int),
            out@.len() == from,
            forall|more: Seq<bool>, k: int|
                0 <= k < from ==> out@[k] == (#[trigger] annotated(
                    tokens@,
                    source@,
                    lookup_in(*dictionary),
                    marks + more,
                )[k]),
            forall|more: Seq<bool>, k: int|
                0 <= k < from ==> #[trigger] chunked_around(tokens@, source@, marks + more, k),
        decreases tokens@.len() - from,
    {
        let end: usize = find_piece_end(tokens, TokenClass::SentenceTerminator, from);
        let sentence: &[Token] = &tokens[from..end];
        proof {
            lemma_piece_end(tokens@, TokenClass::SentenceTerminator, from as int);
            lemma_solid_stretch(tokens@, from as int, end as int, end - from);
            lemma_sentence_words_len(sentence@, source@);
        }
        let words: Vec<String> = collect_words(sentence, source);
        let tags: Vec<Option<UPOS>> = tag_sentence(words.as_slice());
        let np_members: Vec<bool> = chunk_sentence(words.as_slice(), tags.as_slice());
        let mut annotated_part: Vec<Token> = annotate_sentence(
            sentence,
            source,
            dictionary,
            tags.as_slice(),
            np_members.as_slice(),
        );
        let ghost before = out@;
        let ghost old_marks = marks;
        let ghost part = annotated_part@;
        proof {
            marks = marks + np_members@;
        }
        out.append(&mut annotated_part);
        proof {
            assert forall|more: Seq<bool>, k: int| 0 <= k < end implies out@[k] == (
            #[trigger] annotated(tokens@, source@, lookup_in(*dictionary), marks + more)[k]) by {
                assert(marks + more == old_marks + (np_members@ + more));
                if k < from {
                    assert(out@[k] == before[k]);
                    assert(out@[k] == annotated(
                        tokens@,
                        source@,
                        lookup_in(*dictionary),
                        old_marks + (np_members@ + more),
                    )[k]);
                } else {
                    assert(out@[k] == part[k - from]);
                    lemma_annotated_within_sentence(
                        tokens@,
                        source@,
                        lookup_in(*dictionary),
                        old_marks,
                        np_members@,
                        more,
                        from as int,
                        k,
                    );
                }
            }
        }
        proof {
            assert forall|more: Seq<bool>, k: int| 0 <= k < end implies #[trigger] chunked_around(
                tokens@,
                source@,
                marks + more,
                k,
            ) by {
                assert(marks + more == old_marks + (np_members@ + more));
                if k < from {
                    assert(chunked_around(tokens@, source@, old_marks + (np_members@ + more), k));
                } else {
                    lemma_piece_start(
                        tokens@,
                        TokenClass::SentenceTerminator,
                        from as int,
                        k,
                    );
                    assert(piece_end(tokens@, TokenClass::SentenceTerminator, k) == end);
                    assert((marks + more).subrange(
                        solid(tokens@, from as int),
                        solid(tokens@, end as int),
                    ) == np_members@);
                }
            }
        }
        from = end;
    }
    assert(marks + Seq::<bool>::empty() == marks);
    assert(chunked(tokens@, source@, marks)) by {
        assert forall|at: int| 0 <= at < tokens@.len() implies #[trigger] chunked_around(
            tokens@,
            source@,
            marks,
            at,
        ) by {
            assert(chunked_around(tokens@, source@, marks + Seq::<bool>::empty(), at));
        }
    }
    assert(out@ == annotated(tokens@, source@, lookup_in(*dictionary), marks)) by {
        assert forall|k: int| 0 <= k < tokens@.len() implies out@[k] == annotated(
            tokens@,
            source@,
            lookup_in(*dictionary),
            marks,
        )[k] by {
            assert(out@[k] == annotated(
                tokens@,
                source@,
                lookup_in(*dictionary),
                marks + Seq::<bool>::empty(),
            )[k]);
        }
    }
    (out, Ghost(marks))
}

} // verus!
