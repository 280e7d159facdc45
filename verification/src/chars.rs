//! Characters, and the ways between strings and sequences of characters.

use vstd::prelude::*;

verus! {

/// Builds a string with `String::from_iter`. The string holds the characters of the slice, in
/// their order and nothing else.
#[verifier::external_body]
pub(crate) fn string_from_chars(chars: &[char]) -> (text: String)
    ensures
        text@ == chars@,
{
    String::from_iter(chars)
}

/// The characters of a string, in order.
pub fn chars_of(text: &str) -> (chars: Vec<char>)
    ensures
        chars@ == text@,
{
    let mut chars: Vec<char> = Vec::new();
    for c in it: text.chars()
        invariant
            it.seq() == text@,
            chars@ == it.seq().take(it.index() as int),
    {
        chars.push(c);
    }
    chars
}

/// A copy of a slice of characters.
pub fn copy_chars(chars: &[char]) -> (copy: Vec<char>)
    ensures
        copy@ == chars@,
{
    let mut copy: Vec<char> = Vec::new();
    for i in 0..chars.len()
        invariant
            copy@ == chars@.take(i as int),
    {
        copy.push(chars[i]);
    }
    copy
}

/// Whether the character is one of `a` to `z`.
#[verifier::allow_in_spec]
pub fn is_ascii_lower(c: char) -> bool
    returns
        'a' <= c && c <= 'z',
{
    'a' <= c && c <= 'z'
}

/// Whether the character is one of `A` to `Z`.
#[verifier::allow_in_spec]
pub fn is_ascii_upper(c: char) -> bool
    returns
        'A' <= c && c <= 'Z',
{
    'A' <= c && c <= 'Z'
}

/// The distance from an upper case ASCII letter to its lower case form.
pub const CASE_OFFSET: u8 = 32;

/// The code of the character, with the upper case ASCII letters brought to lower case.
pub open spec fn folded(c: char) -> int {
    if is_ascii_upper(c) {
        c as int + CASE_OFFSET
    } else {
        c as int
    }
}

/// Whether two words are spelled alike up to the case of ASCII letters.
pub open spec fn same_letters(a: Seq<char>, b: Seq<char>) -> bool {
    &&& a.len() == b.len()
    &&& forall|i: int| 0 <= i < a.len() ==> folded(#[trigger] a[i]) == folded(b[i])
}

fn fold(c: char) -> (code: u32)
    ensures
        code == folded(c),
{
    if is_ascii_upper(c) {
        c as u32 + CASE_OFFSET as u32
    } else {
        c as u32
    }
}

/// Compares two words without regard to the case of ASCII letters.
pub fn eq_letters(a: &[char], b: &[char]) -> (same: bool)
    ensures
        same == same_letters(a@, b@),
{
    if a.len() != b.len() {
        return false;
    }
    for i in 0..a.len()
        invariant
            a@.len() == b@.len(),
            forall|j: int| 0 <= j < i ==> folded(#[trigger] a@[j]) == folded(b@[j]),
    {
        if fold(a[i]) != fold(b[i]) {
            return false;
        }
    }
    true
}

} // verus!
