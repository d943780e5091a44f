//! N-grams of one to three characters: how they are numbered so that an
//! ordered map can hold them, and how their occurrences in a text are
//! counted.

use vstd::prelude::*;
use crate::chars::{is_scalar, is_whitespace_char};

verus! {

pub type Symbol = [char; 1];

pub type Bigram = [char; 2];

pub type Trigram = [char; 3];

/// Every character code is below this power of two.
pub const RADIX: u64 = 0x20_0000;

/// The key of an n-gram: its character codes as digits to the base
/// `RADIX`, the first character in the highest place.
pub open spec fn pack(g: Seq<char>) -> int {
    if g.len() == 1 {
        g[0] as int
    } else if g.len() == 2 {
        g[0] as int * 0x20_0000 + g[1] as int
    } else {
        (g[0] as int * 0x20_0000 + g[1] as int) * 0x20_0000 + g[2] as int
    }
}

/// Whether `key` is the key of an n-gram of `n` characters.
pub open spec fn valid_key(key: int, n: int) -> bool {
    if n == 1 {
        is_scalar(key)
    } else if n == 2 {
        0 <= key && is_scalar(key / 0x20_0000) && is_scalar(key % 0x20_0000)
    } else {
        &&& 0 <= key
        &&& is_scalar(key / 0x20_0000 / 0x20_0000)
        &&& is_scalar((key / 0x20_0000) % 0x20_0000)
        &&& is_scalar(key % 0x20_0000)
    }
}

/// The character with the given code.
pub open spec fn char_with_code(code: int) -> char {
    (code as u32) as char
}

/// A character is the character with its own code.
pub proof fn lemma_char_code(c: char)
    ensures
        char_with_code(c as int) == c,
        is_scalar(c as int),
{
    let u = c as u32;
    assert(u as int == c as int);
    assert((c as int) as u32 == u);
    assert(u as char == c);
}

/// The n-gram of `n` characters that has the key `key`.
pub open spec fn unpack(key: int, n: int) -> Seq<char> {
    if n == 1 {
        seq![char_with_code(key)]
    } else if n == 2 {
        seq![char_with_code(key / 0x20_0000), char_with_code(key % 0x20_0000)]
    } else {
        seq![
            char_with_code(key / 0x20_0000 / 0x20_0000),
            char_with_code((key / 0x20_0000) % 0x20_0000),
            char_with_code(key % 0x20_0000),
        ]
    }
}

/// A valid key is the key of the n-gram it unpacks to.
pub proof fn lemma_pack_unpack(key: int, n: int)
    requires
        1 <= n <= 3,
        valid_key(key, n),
    ensures
        unpack(key, n).len() == n,
        pack(unpack(key, n)) == key,
        0 <= key < 0x8000_0000_0000_0000,
{
    let g = unpack(key, n);
    if n == 2 {
        assert(g[0] as int == key / 0x20_0000);
        assert(g[1] as int == key % 0x20_0000);
    } else if n == 3 {
        assert(g[0] as int == key / 0x20_0000 / 0x20_0000);
        assert(g[1] as int == (key / 0x20_0000) % 0x20_0000);
        assert(g[2] as int == key % 0x20_0000);
    } else {
        assert(g[0] as int == key);
    }
}

/// The key of an n-gram is valid and unpacks to the n-gram.
pub proof fn lemma_unpack_pack(g: Seq<char>)
    requires
        1 <= g.len() <= 3,
    ensures
        valid_key(pack(g), g.len() as int),
        unpack(pack(g), g.len() as int) == g,
        0 <= pack(g) < 0x8000_0000_0000_0000,
{
    let key = pack(g);
    let n = g.len() as int;
    assert forall|i: int| 0 <= i < n implies char_with_code(#[trigger] g[i] as int) == g[i]
        && is_scalar(g[i] as int) by {
        lemma_char_code(g[i]);
    }
    if n == 1 {
        assert(unpack(key, n) =~= g);
    } else if n == 2 {
        assert(key / 0x20_0000 == g[0] as int);
        assert(key % 0x20_0000 == g[1] as int);
        assert(unpack(key, n) =~= g);
    } else {
        let hi = g[0] as int * 0x20_0000 + g[1] as int;
        assert(key / 0x20_0000 == hi);
        assert(key % 0x20_0000 == g[2] as int);
        assert(hi / 0x20_0000 == g[0] as int);
        assert(hi % 0x20_0000 == g[1] as int);
        assert(unpack(key, n) =~= g);
    }
}

/// Two n-grams of one length with one key are the same n-gram.
pub proof fn lemma_pack_injective(g: Seq<char>, h: Seq<char>)
    requires
        1 <= g.len() <= 3,
        g.len() == h.len(),
        pack(g) == pack(h),
    ensures
        g == h,
{
    lemma_unpack_pack(g);
    lemma_unpack_pack(h);
}

/// Whether the n-gram `g` stands in `text` at position `i`.
pub open spec fn occurs_at(text: Seq<char>, g: Seq<char>, i: int) -> bool {
    0 <= i && i + g.len() <= text.len() && text.subrange(i, i + g.len()) =~= g
}

/// How often `g` stands in `text` at a position below `n`.
pub open spec fn occurrences(text: Seq<char>, g: Seq<char>, n: int) -> nat
    decreases n,
{
    if n <= 0 {
        0
    } else {
        occurrences(text, g, n - 1) + if occurs_at(text, g, n - 1) { 1nat } else { 0nat }
    }
}

/// Whether one of the characters of `g` is whitespace.
pub open spec fn has_whitespace(g: Seq<char>) -> bool {
    exists|i: int| 0 <= i < g.len() && is_whitespace_char(#[trigger] g[i])
}

/// Whether occurrences of `g` count: every symbol does, and a bigram or
/// trigram does unless it holds whitespace.
pub open spec fn is_counted(g: Seq<char>) -> bool {
    g.len() == 1 || !has_whitespace(g)
}

/// The count of the n-gram `g` among the windows of `text` that start
/// below `n`.
pub open spec fn windows_count(text: Seq<char>, g: Seq<char>, n: int) -> nat {
    if is_counted(g) { occurrences(text, g, n) } else { 0 }
}

/// The count of the n-gram `g` in `text`: how often it occurs, or zero
/// for a bigram or trigram that holds whitespace.
pub open spec fn ngram_count(text: Seq<char>, g: Seq<char>) -> nat {
    windows_count(text, g, text.len() as int)
}

/// Occurrences only grow with the number of positions looked at.
pub proof fn lemma_occurrences_monotonic(text: Seq<char>, g: Seq<char>, m: int, n: int)
    requires
        m <= n,
    ensures
        occurrences(text, g, m) <= occurrences(text, g, n),
    decreases n - m,
{
    if m < n {
        lemma_occurrences_monotonic(text, g, m, n - 1);
    }
}

/// No n-gram begins so late in the text that it would run past its end.
pub proof fn lemma_occurrences_end(text: Seq<char>, g: Seq<char>, n: int)
    requires
        g.len() >= 1,
        n >= text.len() - g.len() + 1,
        n >= 0,
    ensures
        occurrences(text, g, n) == occurrences(text, g, text.len() - g.len() + 1),
    decreases n,
{
    if n > text.len() - g.len() + 1 && n > 0 {
        assert(!occurs_at(text, g, n - 1));
        lemma_occurrences_end(text, g, n - 1);
    } else if n > text.len() - g.len() + 1 {
        assert(occurrences(text, g, text.len() - g.len() + 1) == 0);
    }
}

/// A character that stands in the text has at least one occurrence.
pub proof fn lemma_occurs_positive(text: Seq<char>, g: Seq<char>, i: int)
    requires
        occurs_at(text, g, i),
        g.len() >= 1,
    ensures
        occurrences(text, g, text.len() as int) > 0,
{
    assert(occurrences(text, g, i + 1) > 0);
    lemma_occurrences_monotonic(text, g, i + 1, text.len() as int);
}

/// An n-gram with at least one occurrence stands somewhere in the text.
pub proof fn lemma_positive_occurs(text: Seq<char>, g: Seq<char>, n: int) -> (i: int)
    requires
        occurrences(text, g, n) > 0,
    ensures
        0 <= i < n,
        occurs_at(text, g, i),
    decreases n,
{
    if occurs_at(text, g, n - 1) {
        n - 1
    } else {
        lemma_positive_occurs(text, g, n - 1)
    }
}

/// The key of a symbol.
pub fn symbol_key(s: Symbol) -> (key: u64)
    ensures
        key == pack(s@),
        valid_key(key as int, 1),
{
    proof {
        lemma_unpack_pack(s@);
    }
    s[0] as u64
}

/// The key of a bigram.
pub fn bigram_key(b: Bigram) -> (key: u64)
    ensures
        key == pack(b@),
        valid_key(key as int, 2),
{
    proof {
        lemma_unpack_pack(b@);
    }
    b[0] as u64 * RADIX + b[1] as u64
}

/// The key of a trigram.
pub fn trigram_key(t: Trigram) -> (key: u64)
    ensures
        key == pack(t@),
        valid_key(key as int, 3),
{
    proof {
        lemma_unpack_pack(t@);
    }
    (t[0] as u64 * RADIX + t[1] as u64) * RADIX + t[2] as u64
}

/// The key of the `n` characters of `chars` that begin at `p`.
pub(crate) fn window_key(chars: &Vec<char>, p: usize, n: usize) -> (key: u64)
    requires
        1 <= n <= 3,
        p + n <= chars.len(),
    ensures
        key == pack(chars@.subrange(p as int, p + n)),
        valid_key(key as int, n as int),
{
    let ghost g = chars@.subrange(p as int, p + n);
    proof {
        lemma_unpack_pack(g);
    }
    if n == 1 {
        chars[p] as u64
    } else if n == 2 {
        chars[p] as u64 * RADIX + chars[p + 1] as u64
    } else {
        (chars[p] as u64 * RADIX + chars[p + 1] as u64) * RADIX + chars[p + 2] as u64
    }
}

/// The character with the given code.
fn char_of(code: u64) -> (c: char)
    requires
        is_scalar(code as int),
    ensures
        c == char_with_code(code as int),
        c as int == code,
{
    char::from_u32(code as u32).unwrap()
}

/// The symbol with the given key.
pub(crate) fn symbol_of(key: u64) -> (s: Symbol)
    requires
        valid_key(key as int, 1),
    ensures
        s@ == unpack(key as int, 1),
        pack(s@) == key,
{
    proof {
        lemma_pack_unpack(key as int, 1);
    }
    let s = [char_of(key)];
    assert(s@ =~= unpack(key as int, 1));
    s
}

/// The bigram with the given key.
pub(crate) fn bigram_of(key: u64) -> (b: Bigram)
    requires
        valid_key(key as int, 2),
    ensures
        b@ == unpack(key as int, 2),
        pack(b@) == key,
{
    proof {
        lemma_pack_unpack(key as int, 2);
    }
    let b = [char_of(key / RADIX), char_of(key % RADIX)];
    assert(b@ =~= unpack(key as int, 2));
    b
}

/// The trigram with the given key.
pub(crate) fn trigram_of(key: u64) -> (t: Trigram)
    requires
        valid_key(key as int, 3),
    ensures
        t@ == unpack(key as int, 3),
        pack(t@) == key,
{
    proof {
        lemma_pack_unpack(key as int, 3);
    }
    let t = [char_of(key / RADIX / RADIX), char_of((key / RADIX) % RADIX), char_of(key % RADIX)];
    assert(t@ =~= unpack(key as int, 3));
    t
}

} // verus!
