//! What holds of every parsed document: of its text, its blanks and its quotation marks.

use vstd::prelude::*;
use crate::blank_runs::{lemma_no_run_remains, with_breaks, BlankRuns};
use crate::condense::{condensed, condensed_from, merged, Grouping};
use crate::extensions::FilenameExtensions;
use crate::initialisms::Initialisms;
use crate::metadata::WordMetadata;
use crate::parsers::{lemma_lexed_tiles, lemma_lexed_untwinned, lexed, Lexer};
use crate::phrases::{Contractions, Ellipses, LatinPhrases};
use crate::punctuation::{Punctuation, Quote};
use crate::quotes::{is_twinned, lemma_same_twin, lemma_twins_are_mutual, twin, untwinned};
use crate::settle::{
    fully_condensed, is_parse_of, lemma_fully_condensed_well_formed, lemma_parse_keeps_text,
    settled, with_blanks_settled,
};
use crate::stretches::NumberSuffixes;
use crate::token::{lemma_tiles_well_formed, spelled, tiles, well_formed, Token};
use crate::token_kind::TokenKind;

verus! {

/// Whether `b` stands right behind `a` somewhere among the tokens.
pub open spec fn follows(tokens: Seq<Token>, a: Token, b: Token) -> bool {
    exists|i: int|
        0 <= i && i + 1 < tokens.len() && #[trigger] tokens[i] == a && tokens[i + 1] == b
}

/// Whether a rule neither makes tokens of certain kinds nor merges anything into them.
pub open spec fn spares<G: Grouping>(
    rule: G,
    tokens: Seq<Token>,
    source: Seq<char>,
    kinds: spec_fn(TokenKind) -> bool,
) -> bool {
    forall|at: int|
        0 <= at < tokens.len() && kinds((#[trigger] rule.block(tokens, source, at)).kind) ==> {
            let block = rule.block(tokens, source, at);
            block.width == 1 && block.kind == tokens[at].kind
        }
}

/// Tokens of spared kinds are as they were, and those of them that are neighbours were
/// neighbours before.
pub proof fn lemma_spared<G: Grouping>(
    rule: G,
    tokens: Seq<Token>,
    source: Seq<char>,
    kinds: spec_fn(TokenKind) -> bool,
    at: int,
)
    requires
        0 <= at <= tokens.len(),
        spares(rule, tokens, source, kinds),
    ensures
        ({
            let out = condensed_from(rule, tokens, source, at);
            &&& forall|k: int|
                0 <= k < out.len() && kinds((#[trigger] out[k]).kind) ==> tokens.contains(out[k])
            &&& forall|k: int, l: int|
                0 <= k && l == k + 1 && l < out.len() && kinds((#[trigger] out[k]).kind) && kinds(
                    (#[trigger] out[l]).kind,
                ) ==> follows(tokens, out[k], out[l])
            &&& out.len() > 0 ==> at < tokens.len() && (kinds(out[0].kind) ==> out[0]
                == tokens[at])
        }),
    decreases tokens.len() - at,
{
    let out = condensed_from(rule, tokens, source, at);
    if at < tokens.len() {
        rule.block_fits(tokens, source, at);
        let block = rule.block(tokens, source, at);
        let next: int = at + block.width;
        let rest = condensed_from(rule, tokens, source, next);
        lemma_spared(rule, tokens, source, kinds, next);
        let first = merged(tokens, at, block);
        assert(out == seq![first] + rest);
        assert forall|k: int| 0 <= k < out.len() && kinds(
            (#[trigger] out[k]).kind,
        ) implies tokens.contains(out[k]) by {
            if k > 0 {
                assert(out[k] == rest[k - 1]);
            } else {
                assert(out[0] == tokens[at]);
            }
        }
        assert forall|k: int, l: int|
            0 <= k && l == k + 1 && l < out.len() && kinds((#[trigger] out[k]).kind) && kinds(
                (#[trigger] out[l]).kind,
            ) implies follows(tokens, out[k], out[l]) by {
            assert(out[l] == rest[l - 1]);
            if k > 0 {
                assert(out[k] == rest[k - 1]);
            } else {
                assert(tokens[at] == out[k]);
                assert(tokens[at + 1] == out[l]);
            }
        }
    }
}

/// Whether no two neighbouring tokens are space tokens with nothing between them or newline
/// tokens.
pub open spec fn blanks_apart(rule: BlankRuns, tokens: Seq<Token>) -> bool {
    forall|k: int, l: int|
        0 <= k && l == k + 1 && l < tokens.len() ==> !rule.joins(
            #[trigger] tokens[k],
            #[trigger] tokens[l],
        )
}

/// A pass that spares the blanks of a rule leaves them apart.
proof fn lemma_stay_apart<G: Grouping>(
    pass: G,
    tokens: Seq<Token>,
    source: Seq<char>,
    rule: BlankRuns,
)
    requires
        spares(pass, tokens, source, |kind: TokenKind| rule.collects(kind)),
        blanks_apart(rule, tokens),
    ensures
        blanks_apart(rule, condensed(pass, tokens, source)),
{
    let out = condensed(pass, tokens, source);
    lemma_spared(pass, tokens, source, |kind: TokenKind| rule.collects(kind), 0);
    assert forall|k: int, l: int| 0 <= k && l == k + 1 && l < out.len() implies !rule.joins(
        #[trigger] out[k],
        #[trigger] out[l],
    ) by {
        if rule.joins(out[k], out[l]) {
            assert(follows(tokens, out[k], out[l]));
            let i = choose|i: int|
                0 <= i && i + 1 < tokens.len() && #[trigger] tokens[i] == out[k] && tokens[i + 1]
                    == out[l];
            assert(!rule.joins(tokens[i], tokens[i + 1]));
        }
    }
}

/// Condensing everything leaves no two space tokens that touch and no two newline tokens in a
/// row.
proof fn lemma_condensed_apart(tokens: Seq<Token>, source: Seq<char>, rule: BlankRuns)
    ensures
        blanks_apart(rule, fully_condensed(tokens, source)),
{
    let spaces = condensed(BlankRuns::Spaces, tokens, source);
    let newlines = condensed(BlankRuns::Newlines, spaces, source);
    if rule is Spaces {
        lemma_no_run_remains(BlankRuns::Spaces, tokens, source, 0);
        lemma_stay_apart(BlankRuns::Newlines, spaces, source, rule);
    } else {
        lemma_no_run_remains(BlankRuns::Newlines, spaces, source, 0);
    }
    let blanks = with_blanks_settled(tokens, source);
    assert(blanks_apart(rule, blanks)) by {
        assert forall|k: int, l: int| 0 <= k && l == k + 1 && l < blanks.len() implies !rule.joins(
            #[trigger] blanks[k],
            #[trigger] blanks[l],
        ) by {
            assert(!rule.joins(newlines[k], newlines[l]));
        }
    }
    let contractions = condensed(Contractions, blanks, source);
    lemma_stay_apart(Contractions, blanks, source, rule);
    let initialisms = condensed(Initialisms, contractions, source);
    lemma_stay_apart(Initialisms, contractions, source, rule);
    let ordinals = condensed(NumberSuffixes, initialisms, source);
    lemma_stay_apart(NumberSuffixes, initialisms, source, rule);
    let ellipses = condensed(Ellipses, ordinals, source);
    lemma_stay_apart(Ellipses, ordinals, source, rule);
    let phrases = condensed(LatinPhrases, ellipses, source);
    lemma_stay_apart(LatinPhrases, ellipses, source, rule);
    lemma_stay_apart(FilenameExtensions, phrases, source, rule);
}

/// A parsed document holds no two space tokens that touch and no two newline tokens in a row.
pub proof fn lemma_parsed_blanks_apart(
    out: Seq<Token>,
    tokens: Seq<Token>,
    source: Seq<char>,
    lookup: spec_fn(Seq<char>) -> Option<WordMetadata>,
    rule: BlankRuns,
)
    requires
        is_parse_of(out, tokens, source, lookup),
    ensures
        blanks_apart(rule, out),
{
    let all = fully_condensed(tokens, source);
    lemma_condensed_apart(tokens, source, rule);
    assert forall|k: int, l: int| 0 <= k && l == k + 1 && l < out.len() implies !rule.joins(
        #[trigger] out[k],
        #[trigger] out[l],
    ) by {
        assert(!rule.joins(all[k], all[l]));
    }
}

/// Whether quotation marks that know another one are known by it.
pub open spec fn twins_mutual(tokens: Seq<Token>) -> bool {
    forall|i: int|
        0 <= i < tokens.len() && is_twinned((#[trigger] tokens[i]).kind) ==> {
            let other = tokens[i].kind->Punctuation_0->Quote_0.twin_loc->0;
            &&& other < tokens.len()
            &&& other != i
            &&& tokens[other as int].kind == TokenKind::Punctuation(
                Punctuation::Quote(Quote { twin_loc: Some(i as usize) }),
            )
        }
}

/// A pass that spares quotation marks makes no pairs.
proof fn lemma_stay_untwinned<G: Grouping>(pass: G, tokens: Seq<Token>, source: Seq<char>)
    requires
        spares(pass, tokens, source, |kind: TokenKind| is_twinned(kind)),
        untwinned(tokens),
    ensures
        untwinned(condensed(pass, tokens, source)),
{
    lemma_spared(pass, tokens, source, |kind: TokenKind| is_twinned(kind), 0);
}

/// Condensing everything makes no pairs of quotation marks.
pub proof fn lemma_condensed_untwinned(tokens: Seq<Token>, source: Seq<char>)
    requires
        untwinned(tokens),
    ensures
        untwinned(fully_condensed(tokens, source)),
{
    let spaces = condensed(BlankRuns::Spaces, tokens, source);
    lemma_stay_untwinned(BlankRuns::Spaces, tokens, source);
    let newlines = condensed(BlankRuns::Newlines, spaces, source);
    lemma_stay_untwinned(BlankRuns::Newlines, spaces, source);
    let blanks = with_breaks(newlines);
    assert(untwinned(blanks)) by {
        assert forall|i: int| 0 <= i < blanks.len() implies !is_twinned(
            (#[trigger] blanks[i]).kind,
        ) by {
            assert(!is_twinned(newlines[i].kind));
        }
    }
    let contractions = condensed(Contractions, blanks, source);
    lemma_stay_untwinned(Contractions, blanks, source);
    let initialisms = condensed(Initialisms, contractions, source);
    lemma_stay_untwinned(Initialisms, contractions, source);
    let ordinals = condensed(NumberSuffixes, initialisms, source);
    lemma_stay_untwinned(NumberSuffixes, initialisms, source);
    let ellipses = condensed(Ellipses, ordinals, source);
    lemma_stay_untwinned(Ellipses, ordinals, source);
    let phrases = condensed(LatinPhrases, ellipses, source);
    lemma_stay_untwinned(LatinPhrases, ellipses, source);
    lemma_stay_untwinned(FilenameExtensions, phrases, source);
}

/// In a parsed document the quotation marks of a pair know each other: a mark that knows
/// another one is known by it.
pub proof fn lemma_parsed_twins_mutual(
    out: Seq<Token>,
    tokens: Seq<Token>,
    source: Seq<char>,
    lookup: spec_fn(Seq<char>) -> Option<WordMetadata>,
)
    requires
        tokens.len() <= usize::MAX,
        well_formed(tokens, source.len()),
        untwinned(tokens),
        is_parse_of(out, tokens, source, lookup),
    ensures
        twins_mutual(out),
{
    let all = fully_condensed(tokens, source);
    lemma_condensed_untwinned(tokens, source);
    lemma_fully_condensed_well_formed(tokens, source);
    let paired = settled(tokens, source);
    assert forall|i: int| 0 <= i < out.len() && is_twinned((#[trigger] out[i]).kind) implies {
        let other = out[i].kind->Punctuation_0->Quote_0.twin_loc->0;
        &&& other < out.len()
        &&& other != i
        &&& out[other as int].kind == TokenKind::Punctuation(
            Punctuation::Quote(Quote { twin_loc: Some(i as usize) }),
        )
    } by {
        assert(out[i] == paired[i]);
        assert(!is_twinned(all[i].kind));
        assert(twin(all, i) is Some);
        lemma_twins_are_mutual(all, i);
        let other: int = twin(all, i)->0 as int;
        assert(out[other] == paired[other]);
    }
}

/// Whether each quotation mark knows the other one of its pair, the first mark being paired with
/// the second, the third with the fourth and so on, and a last one without a pair knows none.
pub open spec fn quotes_paired(tokens: Seq<Token>) -> bool {
    forall|i: int|
        0 <= i < tokens.len() && (#[trigger] tokens[i]).kind.is_quote() ==> tokens[i].kind
            == TokenKind::Punctuation(Punctuation::Quote(Quote { twin_loc: twin(tokens, i) }))
}

/// In a parsed document the quotation marks are paired in the order in which they stand.
pub proof fn lemma_parsed_quotes_paired(
    out: Seq<Token>,
    tokens: Seq<Token>,
    source: Seq<char>,
    lookup: spec_fn(Seq<char>) -> Option<WordMetadata>,
)
    requires
        untwinned(tokens),
        is_parse_of(out, tokens, source, lookup),
    ensures
        quotes_paired(out),
{
    let all = fully_condensed(tokens, source);
    lemma_condensed_untwinned(tokens, source);
    let paired = settled(tokens, source);
    assert forall|i: int| 0 <= i < all.len() implies (#[trigger] all[i]).kind.is_quote()
        == out[i].kind.is_quote() by {
        assert(paired[i].kind.is_quote() == all[i].kind.is_quote());
    }
    assert forall|i: int| 0 <= i < out.len() && (
    #[trigger] out[i]).kind.is_quote() implies out[i].kind == TokenKind::Punctuation(
        Punctuation::Quote(Quote { twin_loc: twin(out, i) }),
    ) by {
        assert(out[i] == paired[i]);
        assert(!is_twinned(all[i].kind));
        lemma_same_twin(all, out, i);
    }
}

/// A document that was cut into the pieces of a lexer covers its text, and its tokens put one
/// behind the other spell it.
pub proof fn lemma_lexed_keeps_text<L: Lexer>(
    lexer: L,
    out: Seq<Token>,
    source: Seq<char>,
    lookup: spec_fn(Seq<char>) -> Option<WordMetadata>,
)
    requires
        source.len() <= usize::MAX,
        is_parse_of(out, lexed(lexer, source), source, lookup),
    ensures
        tiles(out, 0, source.len() as int),
        spelled(out, source) == source,
{
    lemma_lexed_tiles(lexer, source, 0);
    lemma_tiles_well_formed(lexed(lexer, source), 0, source.len() as int);
    lemma_parse_keeps_text(out, lexed(lexer, source), source, lookup);
}

/// A document that was cut into the pieces of a lexer has its quotation marks paired in the order
/// in which they stand, and those of a pair know each other.
pub proof fn lemma_lexed_quotes_paired<L: Lexer>(
    lexer: L,
    out: Seq<Token>,
    source: Seq<char>,
    lookup: spec_fn(Seq<char>) -> Option<WordMetadata>,
)
    requires
        source.len() <= usize::MAX,
        is_parse_of(out, lexed(lexer, source), source, lookup),
    ensures
        quotes_paired(out),
        twins_mutual(out),
{
    lemma_lexed_tiles(lexer, source, 0);
    lemma_lexed_untwinned(lexer, source, 0);
    lemma_tiles_well_formed(lexed(lexer, source), 0, source.len() as int);
    lemma_parsed_quotes_paired(out, lexed(lexer, source), source, lookup);
    lemma_parsed_twins_mutual(out, lexed(lexer, source), source, lookup);
}

} // verus!
