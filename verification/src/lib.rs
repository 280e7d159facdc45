//! Lexed and condensed English documents.
//!
//! A parser cuts a text into tokens. A [`Document`] holds the text and the tokens: it merges what
//! belongs together, such as the parts of a contraction or of an ellipsis, pairs the quotation
//! marks, and notes what a dictionary, a part-of-speech tagger and a noun phrase chunker say of
//! the words.

pub mod alike;
pub mod annotate;
pub mod blank_runs;
pub mod chars;
pub mod condense;
pub mod dictionary;
pub mod document;
pub mod expr;
pub mod extensions;
pub mod initialisms;
pub mod kept;
pub mod laws;
pub mod metadata;
pub mod nominal;
pub mod number;
pub mod parsers;
pub mod phrases;
pub mod pieces;
pub mod positions;
pub mod punctuation;
pub mod quotes;
pub mod settle;
pub mod span;
pub mod stretches;
pub mod tagging;
pub mod token;
pub mod token_kind;
pub mod token_string_ext;

pub use annotate::annotate_sentence;
pub use chars::chars_of;
pub use dictionary::{Dictionary, FstDictionary};
pub use document::{Document, Lrc};
pub use metadata::{NounData, VerbData, WordMetadata, UPOS};
pub use number::{Number, OrdinalSuffix};
pub use parsers::{Markdown, MarkdownOptions, Parser, PlainEnglish};
pub use punctuation::{Currency, Punctuation, Quote};
pub use span::Span;
pub use token::{FatStringToken, FatToken, Token};
pub use token_kind::TokenKind;
pub use token_string_ext::TokenStringExt;
