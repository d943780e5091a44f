//! What the library takes from the standard library's Unicode tables:
//! case mappings and character classes.  Their contracts are believed,
//! not proved.

use vstd::prelude::*;

verus! {

/// The lowercase mapping of a character, as `char::to_lowercase` yields it.
pub uninterp spec fn lowercase_of(c: char) -> Seq<char>;

/// The uppercase mapping of a character, as `char::to_uppercase` yields it.
pub uninterp spec fn uppercase_of(c: char) -> Seq<char>;

/// Whether a character has the Unicode property `White_Space`.
pub uninterp spec fn is_whitespace_char(c: char) -> bool;

/// Whether a character has the Unicode property `Alphabetic`.
pub uninterp spec fn is_alphabetic_char(c: char) -> bool;

/// Whether a number is a Unicode scalar value, that is, a `char`.
pub open spec fn is_scalar(x: int) -> bool {
    0 <= x <= 0xD7FF || 0xE000 <= x <= 0x10FFFF
}

/// `char::is_whitespace` decides the property `White_Space`; the result
/// depends on the character alone.
pub assume_specification[ char::is_whitespace ](c: char) -> (b: bool)
    ensures
        b == is_whitespace_char(c),
;

/// `char::is_alphabetic` decides the property `Alphabetic`; the result
/// depends on the character alone.
pub assume_specification[ char::is_alphabetic ](c: char) -> (b: bool)
    ensures
        b == is_alphabetic_char(c),
;

/// `char::from_u32` gives the character with the given code, and `None`
/// for a number that is no Unicode scalar value.
pub assume_specification[ char::from_u32 ](x: u32) -> (c: Option<char>)
    ensures
        c == if is_scalar(x as int) { Some(x as char) } else { None::<char> },
;

/// Calls `char::to_lowercase` and collects the characters it yields.
#[verifier::external_body]
pub(crate) fn to_lowercase(c: char) -> (lower: Vec<char>)
    ensures
        lower@ == lowercase_of(c),
{
    c.to_lowercase().collect()
}

/// Calls `char::to_uppercase` and collects the characters it yields.
#[verifier::external_body]
pub(crate) fn to_uppercase(c: char) -> (upper: Vec<char>)
    ensures
        upper@ == uppercase_of(c),
{
    c.to_uppercase().collect()
}

/// Collects characters into a string, as `String::from_iter` does.
#[verifier::external_body]
pub(crate) fn string_from_chars(chars: &Vec<char>) -> (s: String)
    ensures
        s@ == chars@,
{
    chars.iter().collect()
}

/// The characters of a string, in order.
pub fn chars_of(text: &str) -> (chars: Vec<char>)
    ensures
        chars@ == text@,
{
    let mut chars: Vec<char> = Vec::new();
    for c in it: text.chars()
        invariant
            chars@.len() == it.index(),
            forall|j: int| 0 <= j < chars@.len() ==> chars@[j] == it.seq()[j],
            it.seq() == text@,
    {
        chars.push(c);
    }
    chars
}

/// The lowercase mappings of the first `n` characters of `text`, joined.
pub open spec fn lowercased_prefix(text: Seq<char>, n: int) -> Seq<char>
    decreases n,
{
    if n <= 0 {
        Seq::empty()
    } else {
        lowercased_prefix(text, n - 1) + lowercase_of(text[n - 1])
    }
}

/// The text with every character replaced by its lowercase mapping.
pub open spec fn lowercased(text: Seq<char>) -> Seq<char> {
    lowercased_prefix(text, text.len() as int)
}

/// Folds a text to lower case, character by character.
pub fn lowercase_text(text: &str) -> (lower: Vec<char>)
    ensures
        lower@ == lowercased(text@),
{
    let chars = chars_of(text);
    let mut lower: Vec<char> = Vec::new();
    let mut i: usize = 0;
    while i < chars.len()
        invariant
            i <= chars@.len(),
            chars@ == text@,
            lower@ == lowercased_prefix(text@, i as int),
        decreases chars@.len() - i,
    {
        let mut mapped = to_lowercase(chars[i]);
        lower.append(&mut mapped);
        i += 1;
    }
    lower
}

} // verus!
