//! Alphabets written as a list of characters and ranges, such as
//! `-_a-z;,./<>?:`.

use vstd::prelude::*;
use crate::chars::{chars_of, is_scalar};
use crate::ngram::{char_with_code, lemma_char_code};

verus! {

/// The characters with the codes from `lo` up to, but without, `hi`, in
/// the order of their codes.
pub open spec fn chars_between(lo: int, hi: int) -> Seq<char>
    decreases hi - lo,
{
    if hi <= lo {
        Seq::empty()
    } else if is_scalar(hi - 1) {
        chars_between(lo, hi - 1).push(char_with_code(hi - 1))
    } else {
        chars_between(lo, hi - 1)
    }
}

/// What is known while an alphabet is read: the characters found, the
/// last character that was written by itself, and whether a hyphen after
/// it is waiting for the end of a range.
pub struct AlphabetState {
    pub found: Seq<char>,
    pub last: char,
    pub in_range: bool,
}

/// Reads one more character.  After a hyphen it ends a range, which adds
/// the characters between the last character and this one, and this one
/// too if it is the larger; the last character itself was added before.
/// A hyphen after a character opens a range.  Any other character is
/// added.
pub open spec fn alphabet_step(state: AlphabetState, c: char) -> AlphabetState {
    if state.in_range {
        AlphabetState {
            found: if c as int > state.last as int {
                state.found + chars_between(state.last as int + 1, c as int + 1)
            } else {
                state.found + chars_between(c as int, state.last as int)
            },
            last: state.last,
            in_range: false,
        }
    } else if c == '-' && state.last != '\0' {
        AlphabetState { found: state.found, last: state.last, in_range: true }
    } else {
        AlphabetState { found: state.found.push(c), last: c, in_range: false }
    }
}

/// What is known after the first `n` characters of `text` were read.
pub open spec fn alphabet_state(text: Seq<char>, n: int) -> AlphabetState
    decreases n,
{
    if n <= 0 {
        AlphabetState { found: Seq::empty(), last: '\0', in_range: false }
    } else {
        alphabet_step(alphabet_state(text, n - 1), text[n - 1])
    }
}

/// The characters of the alphabet that `text` describes, in the order
/// in which they are found.
pub open spec fn alphabet_of(text: Seq<char>) -> Seq<char> {
    alphabet_state(text, text.len() as int).found
}

/// Adds the characters with the codes from `lo` up to `hi` to `out`.
fn push_between(out: &mut Vec<char>, lo: u32, hi: u32)
    requires
        hi <= 0x110000,
    ensures
        final(out)@ == old(out)@ + chars_between(lo as int, hi as int),
{
    let mut code: u32 = lo;
    proof {
        assert(out@ =~= old(out)@ + chars_between(lo as int, lo as int));
    }
    while code < hi
        invariant
            hi <= 0x110000,
            lo <= code,
            code <= hi || hi <= lo,
            hi <= lo ==> code == lo,
            out@ == old(out)@ + chars_between(lo as int, code as int),
        decreases hi - code,
    {
        match char::from_u32(code) {
            Some(c) => {
                out.push(c);
                assert(out@ =~= old(out)@ + chars_between(lo as int, code + 1));
            },
            None => {},
        }
        code += 1;
    }
    proof {
        if hi <= lo {
            assert(code == lo);
            assert(chars_between(lo as int, hi as int) =~= chars_between(lo as int, lo as int));
        }
    }
}

/// Reads an alphabet: the characters of `text`, where `a-z` stands for
/// all characters from `a` to `z`.
pub fn parse_alphabet(text: &str) -> (alphabet: Vec<char>)
    ensures
        alphabet@ == alphabet_of(text@),
{
    let chars = chars_of(text);
    let mut out: Vec<char> = Vec::new();
    let mut last: char = '\0';
    let mut in_range = false;
    let mut i: usize = 0;
    while i < chars.len()
        invariant
            i <= chars@.len(),
            chars@ == text@,
            alphabet_state(text@, i as int) == (AlphabetState { found: out@, last, in_range }),
        decreases chars@.len() - i,
    {
        let c = chars[i];
        proof {
            lemma_char_code(c);
            lemma_char_code(last);
        }
        if in_range {
            if c > last {
                push_between(&mut out, last as u32 + 1, c as u32 + 1);
            } else {
                push_between(&mut out, c as u32, last as u32);
            }
            in_range = false;
        } else if c == '-' && last != '\0' {
            in_range = true;
        } else {
            out.push(c);
            last = c;
        }
        i += 1;
    }
    out
}

} // verus!
