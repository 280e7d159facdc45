//! The kinds of tokens.

use vstd::prelude::*;
use crate::metadata::WordMetadata;
use crate::number::Number;
use crate::punctuation::Punctuation;

verus! {

#[derive(Clone, Copy, Debug, PartialEq, Eq, Structural)]
pub enum TokenKind {
    /// A word, with its metadata where the dictionary has the word.
    Word(Option<WordMetadata>),
    Punctuation(Punctuation),
    /// A number, such as `42` or `42nd`.
    Number(Number),
    /// A decade, such as `1980s`.
    Decade,
    /// A run of blanks within a line, with their count.
    Space(usize),
    /// A run of line ends, with their count.
    Newline(usize),
    EmailAddress,
    Url,
    Hostname,
    /// Text that is not prose.
    Unlintable,
    ParagraphBreak,
}

impl TokenKind {
    /// How many blanks or line ends the token stands for.
    pub open spec fn blanks(self) -> nat {
        match self {
            TokenKind::Space(n) => n as nat,
            TokenKind::Newline(n) => n as nat,
            _ => 0,
        }
    }

    /// Whether the token is a word.
    #[verifier::allow_in_spec]
    pub fn is_word(&self) -> bool
        returns
            (*self is Word),
    {
        matches!(self, TokenKind::Word(_))
    }

    /// Whether the token is a number.
    #[verifier::allow_in_spec]
    pub fn is_number(&self) -> bool
        returns
            (*self is Number),
    {
        matches!(self, TokenKind::Number(_))
    }

    /// Whether the token is a run of blanks within a line.
    #[verifier::allow_in_spec]
    pub fn is_space(&self) -> bool
        returns
            (*self is Space),
    {
        matches!(self, TokenKind::Space(_))
    }

    /// Whether the token is a run of line ends.
    #[verifier::allow_in_spec]
    pub fn is_newline(&self) -> bool
        returns
            (*self is Newline),
    {
        matches!(self, TokenKind::Newline(_))
    }

    /// Whether the token is the name of a host.
    #[verifier::allow_in_spec]
    pub fn is_hostname(&self) -> bool
        returns
            (*self is Hostname),
    {
        matches!(self, TokenKind::Hostname)
    }

    /// Whether the token is text that is not prose.
    #[verifier::allow_in_spec]
    pub fn is_unlintable(&self) -> bool
        returns
            (*self is Unlintable),
    {
        matches!(self, TokenKind::Unlintable)
    }

    /// Whether the token parts two paragraphs.
    #[verifier::allow_in_spec]
    pub fn is_paragraph_break(&self) -> bool
        returns
            (*self is ParagraphBreak),
    {
        matches!(self, TokenKind::ParagraphBreak)
    }

    /// Whether the token is a punctuation mark.
    #[verifier::allow_in_spec]
    pub fn is_punctuation(&self) -> bool
        returns
            (*self is Punctuation),
    {
        matches!(self, TokenKind::Punctuation(_))
    }

    /// Whether the token is an apostrophe.
    #[verifier::allow_in_spec]
    pub fn is_apostrophe(&self) -> bool
        returns
            (*self == TokenKind::Punctuation(Punctuation::Apostrophe)),
    {
        matches!(self, TokenKind::Punctuation(Punctuation::Apostrophe))
    }

    /// Whether the token is an at sign.
    #[verifier::allow_in_spec]
    pub fn is_at(&self) -> bool
        returns
            (*self == TokenKind::Punctuation(Punctuation::At)),
    {
        matches!(self, TokenKind::Punctuation(Punctuation::At))
    }

    /// Whether the token is a comma.
    #[verifier::allow_in_spec]
    pub fn is_comma(&self) -> bool
        returns
            (*self == TokenKind::Punctuation(Punctuation::Comma)),
    {
        matches!(self, TokenKind::Punctuation(Punctuation::Comma))
    }

    /// Whether the token is an ellipsis.
    #[verifier::allow_in_spec]
    pub fn is_ellipsis(&self) -> bool
        returns
            (*self == TokenKind::Punctuation(Punctuation::Ellipsis)),
    {
        matches!(self, TokenKind::Punctuation(Punctuation::Ellipsis))
    }

    /// Whether the token is a vertical bar.
    #[verifier::allow_in_spec]
    pub fn is_pipe(&self) -> bool
        returns
            (*self == TokenKind::Punctuation(Punctuation::Pipe)),
    {
        matches!(self, TokenKind::Punctuation(Punctuation::Pipe))
    }

    /// Whether the token is a period.
    #[verifier::allow_in_spec]
    pub fn is_period(&self) -> bool
        returns
            (*self == TokenKind::Punctuation(Punctuation::Period)),
    {
        matches!(self, TokenKind::Punctuation(Punctuation::Period))
    }

    /// Whether the token is an opening round bracket.
    #[verifier::allow_in_spec]
    pub fn is_open_round(&self) -> bool
        returns
            (*self == TokenKind::Punctuation(Punctuation::OpenRound)),
    {
        matches!(self, TokenKind::Punctuation(Punctuation::OpenRound))
    }

    /// Whether the token is a closing round bracket.
    #[verifier::allow_in_spec]
    pub fn is_close_round(&self) -> bool
        returns
            (*self == TokenKind::Punctuation(Punctuation::CloseRound)),
    {
        matches!(self, TokenKind::Punctuation(Punctuation::CloseRound))
    }

    /// Whether the token is a sign of a currency.
    #[verifier::allow_in_spec]
    pub fn is_currency(&self) -> bool
        returns
            (*self matches TokenKind::Punctuation(mark) && mark is Currency),
    {
        matches!(self, TokenKind::Punctuation(Punctuation::Currency(_)))
    }

    /// Whether the token is a quotation mark.
    #[verifier::allow_in_spec]
    pub fn is_quote(&self) -> bool
        returns
            (*self matches TokenKind::Punctuation(mark) && mark is Quote),
    {
        matches!(self, TokenKind::Punctuation(Punctuation::Quote(_)))
    }

    /// Whether the token is a word that can be an adjective.
    #[verifier::allow_in_spec]
    pub fn is_adjective(&self) -> bool
        returns
            (*self matches TokenKind::Word(Some(word)) && word.adjective),
    {
        match self {
            TokenKind::Word(Some(word)) => word.adjective,
            _ => false,
        }
    }

    /// Whether the token is a word that can be a conjunction.
    #[verifier::allow_in_spec]
    pub fn is_conjunction(&self) -> bool
        returns
            (*self matches TokenKind::Word(Some(word)) && word.conjunction),
    {
        match self {
            TokenKind::Word(Some(word)) => word.conjunction,
            _ => false,
        }
    }

    /// Whether the token is a word that can be a noun.
    #[verifier::allow_in_spec]
    pub fn is_noun(&self) -> bool
        returns
            (*self matches TokenKind::Word(Some(word)) && word.noun is Some),
    {
        match self {
            TokenKind::Word(Some(word)) => word.noun.is_some(),
            _ => false,
        }
    }

    /// Whether the token is a word that can be a preposition.
    #[verifier::allow_in_spec]
    pub fn is_preposition(&self) -> bool
        returns
            (*self matches TokenKind::Word(Some(word)) && word.preposition),
    {
        match self {
            TokenKind::Word(Some(word)) => word.preposition,
            _ => false,
        }
    }

    /// Whether the token is a word that can be a verb.
    #[verifier::allow_in_spec]
    pub fn is_verb(&self) -> bool
        returns
            (*self matches TokenKind::Word(Some(word)) && word.verb is Some),
    {
        match self {
            TokenKind::Word(Some(word)) => word.verb.is_some(),
            _ => false,
        }
    }

    /// Whether the token is a word that is likely to be read in several ways.
    #[verifier::allow_in_spec]
    pub fn is_likely_homograph(&self) -> bool
        returns
            (*self matches TokenKind::Word(Some(word)) && word.is_likely_homograph()),
    {
        match self {
            TokenKind::Word(Some(word)) => word.is_likely_homograph(),
            _ => false,
        }
    }

    /// Whether the token is a verb that links a subject to what is said of it.
    #[verifier::allow_in_spec]
    pub fn is_linking_verb(&self) -> bool
        returns
            (*self matches TokenKind::Word(Some(word)) && word.is_linking_verb()),
    {
        match self {
            TokenKind::Word(Some(word)) => word.is_linking_verb(),
            _ => false,
        }
    }

    /// Whether the token is a word that was found to be part of a noun phrase.
    #[verifier::allow_in_spec]
    pub fn is_np_member(&self) -> bool
        returns
            (*self matches TokenKind::Word(Some(word)) && word.np_member == Some(true)),
    {
        match self {
            TokenKind::Word(Some(word)) => word.np_member == Some(true),
            _ => false,
        }
    }

    /// Whether the token is a run of blanks or of line ends.
    #[verifier::allow_in_spec]
    pub fn is_whitespace(&self) -> bool
        returns
            (*self is Space || *self is Newline),
    {
        matches!(self, TokenKind::Space(_) | TokenKind::Newline(_))
    }

    /// Whether the token reads as a word.
    #[verifier::allow_in_spec]
    pub fn is_word_like(&self) -> bool
        returns
            (*self is Word || *self is EmailAddress || *self is Hostname || *self is Decade || *self is Number),
    {
        matches!(
            self,
            TokenKind::Word(_)
                | TokenKind::EmailAddress
                | TokenKind::Hostname
                | TokenKind::Decade
                | TokenKind::Number(_)
        )
    }

    /// Whether the token ends a sentence.
    #[verifier::allow_in_spec]
    pub fn is_sentence_terminator(&self) -> bool
        returns
            (match *self {
                TokenKind::Punctuation(mark) => mark is Period || mark is Bang || mark is Question,
                TokenKind::ParagraphBreak => true,
                _ => false,
            }),
    {
        match self {
            TokenKind::Punctuation(mark) => matches!(
                mark,
                Punctuation::Period | Punctuation::Bang | Punctuation::Question
            ),
            TokenKind::ParagraphBreak => true,
            _ => false,
        }
    }

    /// Whether the token ends a chunk of a sentence.
    #[verifier::allow_in_spec]
    pub fn is_chunk_terminator(&self) -> bool
        returns
            (self.is_sentence_terminator() || (*self matches TokenKind::Punctuation(mark) && (mark is Comma
                || mark is Quote || mark is Colon))),
    {
        self.is_sentence_terminator() || matches!(
            self,
            TokenKind::Punctuation(Punctuation::Comma | Punctuation::Quote(_) | Punctuation::Colon)
        )
    }
}

} // verus!
