# harper_document

Lexed and condensed English documents, written in Rust and verified with Verus.

A parser cuts a text into tokens. `Document` takes the text and the tokens, and

- merges runs of blanks and of line ends, and makes paragraph breaks of the longer ones;
- merges the parts of contractions, dotted initialisms, ordinals, ellipses, Latin phrases and
  filename extensions;
- pairs the quotation marks;
- looks the words up in a dictionary, and notes for each known word its part of speech and whether
  it belongs to a noun phrase.

It then answers questions about the tokens: which one stands at a character, which ones a span
touches, what the sentences, paragraphs and nominal phrases are.

## Layout

- `src/document.rs` holds `Document`.
- `src/condense.rs` says what it is to merge tokens by a rule; `blank_runs.rs`, `initialisms.rs`,
  `extensions.rs`, `stretches.rs`, `phrases.rs` and `expr.rs` hold the rules.
- `src/settle.rs` puts the passes together and proves that no text is lost; `kept.rs` proves what
  holds of every parsed document, and `alike.rs` that the constructors agree.
- `src/quotes.rs`, `nominal.rs`, `pieces.rs`, `positions.rs` and `token_string_ext.rs` hold the
  pairs of quotation marks, the nominal phrases, the sentences and paragraphs, and the searches.
- `src/annotate.rs` gives words their metadata. The tagger and the chunker come from
  `harper-brill`; what is taken from it on trust stands in `tagging.rs`.
- `src/chars.rs` holds the ways between strings and characters, with the one thing that is taken
  on trust from the standard library: how a string is built of characters.
- `src/parsers/` holds the parsers for plain English and for Markdown.
- `app/` prints documents.
