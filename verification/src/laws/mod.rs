//! What the passes over a document come to, said of the tokens that go in and come out.
//!
//! The laws speak of the kinds of tokens, of their spans and of the characters that they cover,
//! and of nothing else: what a pass merges is said by the tokens themselves.

pub mod blanks;
pub mod characters;
pub mod contractions;
pub mod ellipses;
pub mod expressions;
pub mod extensions;
pub mod groups;
pub mod initialisms;
pub mod latin;
pub mod lexing;
pub mod nominal;
pub mod ordinals;
pub mod parse;
pub mod quotes;
pub mod searching;
pub mod stretches;
pub mod text;
pub mod words;
