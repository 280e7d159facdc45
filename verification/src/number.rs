//! Written numbers.

use vstd::prelude::*;
use crate::chars::{eq_letters, same_letters};

verus! {

/// The letters that turn a numeral into an ordinal.
#[derive(Clone, Copy, Debug, PartialEq, Eq, Structural)]
pub enum OrdinalSuffix {
    Th,
    St,
    Nd,
    Rd,
}

impl OrdinalSuffix {
    /// The suffix that the letters spell in any capitalization, if they spell one.
    pub open spec fn spelled_by(chars: Seq<char>) -> Option<OrdinalSuffix> {
        if same_letters(chars, seq!['t', 'h']) {
            Some(OrdinalSuffix::Th)
        } else if same_letters(chars, seq!['s', 't']) {
            Some(OrdinalSuffix::St)
        } else if same_letters(chars, seq!['n', 'd']) {
            Some(OrdinalSuffix::Nd)
        } else if same_letters(chars, seq!['r', 'd']) {
            Some(OrdinalSuffix::Rd)
        } else {
            None
        }
    }

    /// Reads a suffix, in any capitalization.
    pub fn from_chars(chars: &[char]) -> (suffix: Option<OrdinalSuffix>)
        ensures
            suffix == OrdinalSuffix::spelled_by(chars@),
    {
        let th: [char; 2] = ['t', 'h'];
        let st: [char; 2] = ['s', 't'];
        let nd: [char; 2] = ['n', 'd'];
        let rd: [char; 2] = ['r', 'd'];
        assert(th@ == seq!['t', 'h']);
        assert(st@ == seq!['s', 't']);
        assert(nd@ == seq!['n', 'd']);
        assert(rd@ == seq!['r', 'd']);
        if eq_letters(chars, th.as_slice()) {
            Some(OrdinalSuffix::Th)
        } else if eq_letters(chars, st.as_slice()) {
            Some(OrdinalSuffix::St)
        } else if eq_letters(chars, nd.as_slice()) {
            Some(OrdinalSuffix::Nd)
        } else if eq_letters(chars, rd.as_slice()) {
            Some(OrdinalSuffix::Rd)
        } else {
            None
        }
    }
}

/// What is known of a number besides the characters that write it.
#[derive(Clone, Copy, Debug, PartialEq, Eq, Structural)]
pub struct Number {
    pub suffix: Option<OrdinalSuffix>,
    /// How many digits stand after the decimal point.
    pub precision: usize,
}

} // verus!
