//! Documents that are made in different ways of the same things.
//!
//! Each law speaks of two documents by what their constructors ensure. The chunker is not claimed
//! to mark a sentence in the same way each time, so what two documents have in common is all but
//! its marks, and the marks too where it has no choice.

use vstd::prelude::*;
use crate::dictionary::{curated_entries, curated_lookup, lookup_in, Dictionary, FstDictionary};
use crate::document::Document;
use crate::parsers::{lexed, Markdown, MarkdownOptions, Parser, PlainEnglish};
use crate::settle::lemma_parses_agree;
use crate::token::Token;

verus! {

/// The tokens that the parser for Markdown makes of a text in its default options.
pub open spec fn default_markdown(text: Seq<char>) -> Seq<Token> {
    lexed(Markdown { options: MarkdownOptions { ignore_link_title: false } }, text)
}

/// A dictionary that holds the curated words knows of a word what the curated dictionary does.
proof fn lemma_curated(dictionary: FstDictionary)
    requires
        dictionary@ == curated_entries(),
    ensures
        lookup_in(dictionary) == curated_lookup(),
{
    assert(lookup_in(dictionary) =~= curated_lookup());
}

/// [`Document::new`] makes the document that [`Document::new_from_vec`] makes of the characters of
/// the text.
pub proof fn lemma_new<P: Parser, D: Dictionary>(
    text: Seq<char>,
    source: Seq<char>,
    parser: P,
    dictionary: D,
    a: Document,
    b: Document,
)
    requires
        source == text,
        a.made_of(text, parser.tokens(text), lookup_in(dictionary)),
        b.made_of(text, parser.tokens(source), lookup_in(dictionary)),
    ensures
        a.agrees_with(&b, parser.tokens(text)),
{
    lemma_parses_agree(
        a.token_seq(),
        b.token_seq(),
        parser.tokens(text),
        text,
        lookup_in(dictionary),
    );
}

/// [`Document::new_curated`] makes the document that [`Document::new`] makes with the curated
/// dictionary.
pub proof fn lemma_new_curated<P: Parser>(
    text: Seq<char>,
    parser: P,
    curated: FstDictionary,
    a: Document,
    b: Document,
)
    requires
        curated@ == curated_entries(),
        a.made_of(text, parser.tokens(text), curated_lookup()),
        b.made_of(text, parser.tokens(text), lookup_in(curated)),
    ensures
        a.agrees_with(&b, parser.tokens(text)),
{
    lemma_curated(curated);
    lemma_parses_agree(a.token_seq(), b.token_seq(), parser.tokens(text), text, curated_lookup());
}

/// [`Document::new_plain_english`] makes the document that [`Document::new`] makes with the parser
/// for plain English.
pub proof fn lemma_new_plain_english<D: Dictionary>(
    text: Seq<char>,
    dictionary: D,
    a: Document,
    b: Document,
)
    requires
        a.made_of(text, lexed(PlainEnglish, text), lookup_in(dictionary)),
        b.made_of(text, PlainEnglish.tokens(text), lookup_in(dictionary)),
    ensures
        a.agrees_with(&b, lexed(PlainEnglish, text)),
{
    lemma_parses_agree(
        a.token_seq(),
        b.token_seq(),
        lexed(PlainEnglish, text),
        text,
        lookup_in(dictionary),
    );
}

/// [`Document::new_plain_english_curated`] makes the document that [`Document::new`] makes with the
/// parser for plain English and the curated dictionary.
pub proof fn lemma_new_plain_english_curated(
    text: Seq<char>,
    curated: FstDictionary,
    a: Document,
    b: Document,
)
    requires
        curated@ == curated_entries(),
        a.made_of(text, lexed(PlainEnglish, text), curated_lookup()),
        b.made_of(text, PlainEnglish.tokens(text), lookup_in(curated)),
    ensures
        a.agrees_with(&b, lexed(PlainEnglish, text)),
{
    lemma_curated(curated);
    lemma_parses_agree(
        a.token_seq(),
        b.token_seq(),
        lexed(PlainEnglish, text),
        text,
        curated_lookup(),
    );
}

/// [`Document::new_markdown`] makes the document that [`Document::new`] makes with the parser for
/// Markdown.
pub proof fn lemma_new_markdown<D: Dictionary>(
    text: Seq<char>,
    options: MarkdownOptions,
    dictionary: D,
    a: Document,
    b: Document,
)
    requires
        a.made_of(text, lexed(Markdown { options }, text), lookup_in(dictionary)),
        b.made_of(text, (Markdown { options }).tokens(text), lookup_in(dictionary)),
    ensures
        a.agrees_with(&b, lexed(Markdown { options }, text)),
{
    lemma_parses_agree(
        a.token_seq(),
        b.token_seq(),
        lexed(Markdown { options }, text),
        text,
        lookup_in(dictionary),
    );
}

/// [`Document::new_markdown_curated`] makes the document that [`Document::new`] makes with the
/// parser for Markdown and the curated dictionary.
pub proof fn lemma_new_markdown_curated(
    text: Seq<char>,
    options: MarkdownOptions,
    curated: FstDictionary,
    a: Document,
    b: Document,
)
    requires
        curated@ == curated_entries(),
        a.made_of(text, lexed(Markdown { options }, text), curated_lookup()),
        b.made_of(text, (Markdown { options }).tokens(text), lookup_in(curated)),
    ensures
        a.agrees_with(&b, lexed(Markdown { options }, text)),
{
    lemma_curated(curated);
    lemma_parses_agree(
        a.token_seq(),
        b.token_seq(),
        lexed(Markdown { options }, text),
        text,
        curated_lookup(),
    );
}

/// [`Document::new_markdown_default`] makes the document that [`Document::new_markdown`] makes with
/// the default options.
pub proof fn lemma_new_markdown_default<D: Dictionary>(
    text: Seq<char>,
    options: MarkdownOptions,
    dictionary: D,
    a: Document,
    b: Document,
)
    requires
        options == (MarkdownOptions { ignore_link_title: false }),
        a.made_of(text, default_markdown(text), lookup_in(dictionary)),
        b.made_of(text, lexed(Markdown { options }, text), lookup_in(dictionary)),
    ensures
        a.agrees_with(&b, default_markdown(text)),
{
    lemma_parses_agree(
        a.token_seq(),
        b.token_seq(),
        default_markdown(text),
        text,
        lookup_in(dictionary),
    );
}

/// [`Document::new_markdown_default_curated`] makes the document that [`Document::new`] makes with
/// the parser for Markdown in its default options and the curated dictionary.
pub proof fn lemma_new_markdown_default_curated(
    text: Seq<char>,
    options: MarkdownOptions,
    curated: FstDictionary,
    a: Document,
    b: Document,
)
    requires
        options == (MarkdownOptions { ignore_link_title: false }),
        curated@ == curated_entries(),
        a.made_of(text, default_markdown(text), curated_lookup()),
        b.made_of(text, (Markdown { options }).tokens(text), lookup_in(curated)),
    ensures
        a.agrees_with(&b, default_markdown(text)),
{
    lemma_curated(curated);
    lemma_parses_agree(
        a.token_seq(),
        b.token_seq(),
        default_markdown(text),
        text,
        curated_lookup(),
    );
}

} // verus!
