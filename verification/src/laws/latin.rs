//! Latin phrases.

use vstd::prelude::*;
use crate::chars::same_letters;
use crate::condense::condensed;
use crate::expr::{spells_one_of, whitespace_run};
use crate::laws::groups::{cut, lemma_cut, lemma_group_of};
use crate::phrases::LatinPhrases;
use crate::punctuation::Punctuation;
use crate::token::Token;
use crate::token_kind::TokenKind;

verus! {

/// Whether the characters are the letters of a word in lower case, each in either case.
pub open spec fn reads(chars: Seq<char>, word: Seq<char>) -> bool {
    &&& chars.len() == word.len()
    &&& forall|i: int|
        0 <= i < word.len() ==> (#[trigger] chars[i]) == word[i] || chars[i] as int + 32
            == word[i] as int
}

/// Whether the token at `at` is the word, in any case.
pub open spec fn is_word_at(
    tokens: Seq<Token>,
    source: Seq<char>,
    at: int,
    word: Seq<char>,
) -> bool {
    &&& 0 <= at < tokens.len()
    &&& tokens[at].kind is Word
    &&& reads(source.subrange(tokens[at].span.start as int, tokens[at].span.end as int), word)
}

/// Whether "etc." or "vs." starts at `at`.
pub open spec fn is_abbreviation(tokens: Seq<Token>, source: Seq<char>, at: int) -> bool {
    &&& is_word_at(tokens, source, at, seq!['e', 't', 'c']) || is_word_at(
        tokens,
        source,
        at,
        seq!['v', 's'],
    )
    &&& at + 1 < tokens.len()
    &&& tokens[at + 1].kind == TokenKind::Punctuation(Punctuation::Period)
}

/// Whether "et al." is written by the tokens from `from` to `to`, with whitespace between its two
/// words.
pub open spec fn is_et_al(tokens: Seq<Token>, source: Seq<char>, from: int, to: int) -> bool {
    &&& from + 4 <= to <= tokens.len()
    &&& is_word_at(tokens, source, from, seq!['e', 't'])
    &&& forall|i: int|
        from < i < to - 2 ==> (#[trigger] tokens[i]).kind is Space || tokens[i].kind is Newline
    &&& is_word_at(tokens, source, to - 2, seq!['a', 'l'])
    &&& tokens[to - 1].kind == TokenKind::Punctuation(Punctuation::Period)
}

/// Whether the groups are Latin phrases wherever one stands, and single tokens elsewhere.
pub open spec fn latin_groups(
    tokens: Seq<Token>,
    source: Seq<char>,
    out: Seq<Token>,
    starts: Seq<int>,
) -> bool {
    &&& cut(tokens, out, starts)
    &&& forall|k: int, l: int|
        0 <= k && l == k + 1 && l < starts.len() ==> {
            &&& is_abbreviation(tokens, source, starts[k]) ==> (#[trigger] starts[l]) == (
            #[trigger] starts[k]) + 2
            &&& starts[l] - starts[k] > 1 ==> is_abbreviation(tokens, source, starts[k])
                || is_et_al(tokens, source, starts[k], starts[l])
            &&& forall|to: int| #[trigger]
                is_et_al(tokens, source, starts[k], to) ==> starts[l] == to
            &&& out[k].kind == tokens[starts[k]].kind
        }
}

/// Whether `out` is what is left of the tokens when each Latin phrase became one word, and
/// nothing else changed.
pub open spec fn latin_merged(tokens: Seq<Token>, source: Seq<char>, out: Seq<Token>) -> bool {
    exists|starts: Seq<int>| #[trigger] latin_groups(tokens, source, out, starts)
}

/// Characters have the letters of a word in lower case exactly if they read as it.
proof fn lemma_reads(chars: Seq<char>, word: Seq<char>)
    requires
        forall|i: int| 0 <= i < word.len() ==> 'a' <= (#[trigger] word[i]) <= 'z',
    ensures
        reads(chars, word) == same_letters(word, chars),
{
    if reads(chars, word) {
        assert forall|i: int| 0 <= i < word.len() implies crate::chars::folded(#[trigger] word[i])
            == crate::chars::folded(chars[i]) by {
            assert(chars[i] == word[i] || chars[i] as int + 32 == word[i] as int);
        }
    }
    if same_letters(word, chars) {
        assert forall|i: int| 0 <= i < word.len() implies (#[trigger] chars[i]) == word[i]
            || chars[i] as int + 32 == word[i] as int by {
            assert(crate::chars::folded(word[i]) == crate::chars::folded(chars[i]));
        }
    }
}

/// The words of the phrases are found where they stand.
proof fn lemma_words(tokens: Seq<Token>, source: Seq<char>, at: int)
    ensures
        LatinPhrases::is_one_of(seq!["etc"@, "vs"@], tokens, source, at) == (is_word_at(
            tokens,
            source,
            at,
            seq!['e', 't', 'c'],
        ) || is_word_at(tokens, source, at, seq!['v', 's'])),
        LatinPhrases::is_one_of(seq!["et"@], tokens, source, at) == is_word_at(
            tokens,
            source,
            at,
            seq!['e', 't'],
        ),
        LatinPhrases::is_one_of(seq!["al"@], tokens, source, at) == is_word_at(
            tokens,
            source,
            at,
            seq!['a', 'l'],
        ),
{
    reveal_strlit("etc");
    reveal_strlit("vs");
    reveal_strlit("et");
    reveal_strlit("al");
    assert("etc"@ == seq!['e', 't', 'c']);
    assert("vs"@ == seq!['v', 's']);
    assert("et"@ == seq!['e', 't']);
    assert("al"@ == seq!['a', 'l']);
    if 0 <= at < tokens.len() {
        let chars = tokens[at].span.content(source);
        lemma_reads(chars, seq!['e', 't', 'c']);
        lemma_reads(chars, seq!['v', 's']);
        lemma_reads(chars, seq!['e', 't']);
        lemma_reads(chars, seq!['a', 'l']);
        let both = seq!["etc"@, "vs"@];
        assert(both[0] == "etc"@ && both[1] == "vs"@);
        assert(spells_one_of(both, chars) == (same_letters("etc"@, chars) || same_letters(
            "vs"@,
            chars,
        ))) by {
            if same_letters("etc"@, chars) {
                assert(same_letters(both[0], chars));
            }
            if same_letters("vs"@, chars) {
                assert(same_letters(both[1], chars));
            }
        }
        let et = seq!["et"@];
        assert(et[0] == "et"@);
        assert(spells_one_of(et, chars) == same_letters("et"@, chars)) by {
            if same_letters("et"@, chars) {
                assert(same_letters(et[0], chars));
            }
        }
        let al = seq!["al"@];
        assert(al[0] == "al"@);
        assert(spells_one_of(al, chars) == same_letters("al"@, chars)) by {
            if same_letters("al"@, chars) {
                assert(same_letters(al[0], chars));
            }
        }
    }
}

/// The counted tokens are whitespace, and no more of it follows.
proof fn lemma_gap(tokens: Seq<Token>, at: int)
    requires
        0 <= at <= tokens.len(),
    ensures
        at + whitespace_run(tokens, at) <= tokens.len(),
        forall|i: int|
            at <= i < at + whitespace_run(tokens, at) ==> (#[trigger] tokens[i]).kind is Space
                || tokens[i].kind is Newline,
        at + whitespace_run(tokens, at) < tokens.len() ==> {
            let next = tokens[at + whitespace_run(tokens, at)].kind;
            !(next is Space) && !(next is Newline)
        },
    decreases tokens.len() - at,
{
    if at < tokens.len() && (tokens[at].kind is Space || tokens[at].kind is Newline) {
        lemma_gap(tokens, at + 1);
    }
}

/// "et al." is found where it is written, and ends with its period.
proof fn lemma_et_al(tokens: Seq<Token>, source: Seq<char>, from: int)
    requires
        0 <= from < tokens.len(),
    ensures
        LatinPhrases::et_al(tokens, source, from) ==> is_et_al(
            tokens,
            source,
            from,
            from + 3 + whitespace_run(tokens, from + 1),
        ),
        forall|to: int| #[trigger]
            is_et_al(tokens, source, from, to) ==> LatinPhrases::et_al(tokens, source, from) && to
                == from + 3 + whitespace_run(tokens, from + 1),
{
    let gap = whitespace_run(tokens, from + 1);
    lemma_words(tokens, source, from);
    lemma_words(tokens, source, from + 1 + gap);
    lemma_gap(tokens, from + 1);
    assert forall|to: int| #[trigger] is_et_al(tokens, source, from, to) implies
        LatinPhrases::et_al(tokens, source, from) && to == from + 3 + gap by {
        if to - 2 < from + 1 + gap {
            assert(tokens[to - 2].kind is Space || tokens[to - 2].kind is Newline);
        } else if from + 1 + gap < to - 2 {
            let i = from + 1 + gap;
            assert(tokens[i].kind is Space || tokens[i].kind is Newline);
        }
    }
}

/// Condensing Latin phrases merges them wherever they stand.
pub proof fn lemma_latin_merged(tokens: Seq<Token>, source: Seq<char>)
    ensures
        latin_merged(tokens, source, condensed(LatinPhrases, tokens, source)),
{
    let out = condensed(LatinPhrases, tokens, source);
    let starts = lemma_cut(LatinPhrases, tokens, source);
    assert forall|k: int, l: int| 0 <= k && l == k + 1 && l < starts.len() implies {
        &&& is_abbreviation(tokens, source, starts[k]) ==> (#[trigger] starts[l]) == (
        #[trigger] starts[k]) + 2
        &&& starts[l] - starts[k] > 1 ==> is_abbreviation(tokens, source, starts[k]) || is_et_al(
            tokens,
            source,
            starts[k],
            starts[l],
        )
        &&& forall|to: int| #[trigger] is_et_al(tokens, source, starts[k], to) ==> starts[l] == to
        &&& out[k].kind == tokens[starts[k]].kind
    } by {
        let at = starts[k];
        assert(starts[k] < starts[l]);
        lemma_words(tokens, source, at);
        lemma_et_al(tokens, source, at);
        assert(is_abbreviation(tokens, source, at) == LatinPhrases::abbreviation(
            tokens,
            source,
            at,
        ));
        let chars = tokens[at].span.content(source);
        assert(!(is_abbreviation(tokens, source, at) && is_word_at(
            tokens,
            source,
            at,
            seq!['e', 't'],
        ))) by {
            if is_word_at(tokens, source, at, seq!['v', 's']) && reads(chars, seq!['e', 't']) {
                assert(seq!['v', 's'][0] == 'v' && seq!['e', 't'][0] == 'e');
                assert(chars[0] == 'v' || chars[0] as int + 32 == 'v' as int);
                assert(chars[0] == 'e' || chars[0] as int + 32 == 'e' as int);
            }
        }
    }
    assert(latin_groups(tokens, source, out, starts));
}

/// No word is two of the words that the phrases are made of.
proof fn lemma_words_differ(chars: Seq<char>)
    ensures
        !(reads(chars, seq!['a', 'l']) && reads(chars, seq!['e', 't'])),
        !(reads(chars, seq!['a', 'l']) && reads(chars, seq!['v', 's'])),
        !(reads(chars, seq!['a', 'l']) && reads(chars, seq!['e', 't', 'c'])),
{
    if chars.len() == 2 {
        assert(seq!['a', 'l'][0] == 'a' && seq!['e', 't'][0] == 'e' && seq!['v', 's'][0] == 'v');
        assert(reads(chars, seq!['a', 'l']) ==> chars[0] == 'a' || chars[0] as int + 32
            == 'a' as int);
        assert(reads(chars, seq!['e', 't']) ==> chars[0] == 'e' || chars[0] as int + 32
            == 'e' as int);
        assert(reads(chars, seq!['v', 's']) ==> chars[0] == 'v' || chars[0] as int + 32
            == 'v' as int);
    }
}

/// "etc." and "vs." become one word that reaches over the period, wherever they stand.
pub proof fn lemma_abbreviation_is_one_word(
    tokens: Seq<Token>,
    source: Seq<char>,
    at: int,
) -> (k: int)
    requires
        is_abbreviation(tokens, source, at),
    ensures
        0 <= k < condensed(LatinPhrases, tokens, source).len(),
        condensed(LatinPhrases, tokens, source)[k].kind is Word,
        condensed(LatinPhrases, tokens, source)[k].span.start == tokens[at].span.start,
        condensed(LatinPhrases, tokens, source)[k].span.end == tokens[at + 1].span.end,
{
    let out = condensed(LatinPhrases, tokens, source);
    lemma_latin_merged(tokens, source);
    let starts = choose|starts: Seq<int>| #[trigger] latin_groups(tokens, source, out, starts);
    let k = lemma_group_of(tokens, out, starts, at);
    assert(starts[k] < starts[k + 1]);
    lemma_words_differ(tokens[at].span.content(source));
    if starts[k] < at && !is_abbreviation(tokens, source, starts[k]) {
        assert(is_et_al(tokens, source, starts[k], starts[k + 1]));
    }
    assert(starts[k] == at);
    k
}

/// "et al." becomes one word that reaches over all of it, wherever it stands.
pub proof fn lemma_et_al_is_one_word(
    tokens: Seq<Token>,
    source: Seq<char>,
    from: int,
    to: int,
) -> (k: int)
    requires
        is_et_al(tokens, source, from, to),
    ensures
        0 <= k < condensed(LatinPhrases, tokens, source).len(),
        condensed(LatinPhrases, tokens, source)[k].kind is Word,
        condensed(LatinPhrases, tokens, source)[k].span.start == tokens[from].span.start,
        condensed(LatinPhrases, tokens, source)[k].span.end == tokens[to - 1].span.end,
{
    let out = condensed(LatinPhrases, tokens, source);
    lemma_latin_merged(tokens, source);
    let starts = choose|starts: Seq<int>| #[trigger] latin_groups(tokens, source, out, starts);
    let k = lemma_group_of(tokens, out, starts, from);
    assert(starts[k] < starts[k + 1]);
    lemma_words_differ(tokens[from].span.content(source));
    if starts[k] < from && !is_abbreviation(tokens, source, starts[k]) {
        assert(is_et_al(tokens, source, starts[k], starts[k + 1]));
    }
    assert(starts[k] == from);
    k
}

} // verus!
