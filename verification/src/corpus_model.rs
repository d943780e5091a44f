//! What the statistics of a corpus are, said of n-grams as sequences of
//! characters: the rules that tokens, lists, totals and counts obey.

use vstd::prelude::*;
use crate::ngram::{Symbol, Bigram, Trigram, pack};
use crate::tokens::{compose, digits, lemma_digits_of_compose};

verus! {

/// An n-gram with its count and its token.
pub type NGram = (Seq<char>, usize, usize);

/// The symbol that is the character `c`.
pub open spec fn sym(c: char) -> Seq<char> {
    seq![c]
}

/// The token of the symbol at place `i` of `g`, or zero where `g` has
/// no such place.
pub open spec fn token_at(m: Map<Seq<char>, (usize, usize)>, g: Seq<char>, i: int) -> int {
    if 0 <= i < g.len() {
        m[sym(g[i])].1 as int
    } else {
        0
    }
}

/// Whether some symbol of `m` has the token `token`.
pub open spec fn has_symbol_token(m: Map<Seq<char>, (usize, usize)>, token: int) -> bool {
    exists|c: char| #[trigger] m.contains_key(sym(c)) && m[sym(c)].1 == token
}

/// What holds of the tokens of a corpus with the n-grams `m`:
/// every n-gram has one to three characters, each of them a symbol of
/// the corpus; the tokens of the symbols are the numbers from 1 to below
/// the base, and they grow with the symbol; and the token of every
/// n-gram is made of the tokens of its symbols.
pub open spec fn tokens_ok(m: Map<Seq<char>, (usize, usize)>, base: int) -> bool {
    &&& forall|g: Seq<char>| #[trigger] m.contains_key(g) ==> 1 <= g.len() <= 3
    &&& forall|g: Seq<char>, i: int|
        #![trigger m.contains_key(g), sym(g[i])]
        m.contains_key(g) && 0 <= i < g.len() ==> m.contains_key(sym(g[i]))
    &&& forall|c: char| #[trigger] m.contains_key(sym(c)) ==> 1 <= m[sym(c)].1 < base
    &&& forall|c: char, d: char|
        #![trigger m.contains_key(sym(c)), m.contains_key(sym(d))]
        m.contains_key(sym(c)) && m.contains_key(sym(d)) && (c as int) < (d as int) ==> m[sym(
            c,
        )].1 < m[sym(d)].1
    &&& forall|t: int| 1 <= t < base ==> #[trigger] has_symbol_token(m, t)
    &&& forall|g: Seq<char>| #[trigger]
        m.contains_key(g) ==> m[g].1 == compose(
            token_at(m, g, 0),
            token_at(m, g, 1),
            token_at(m, g, 2),
            base,
        )
}

/// Whether `g` stands in `list`.
pub open spec fn is_listed(list: Seq<NGram>, g: Seq<char>) -> bool {
    exists|i: int| 0 <= i < list.len() && (#[trigger] list[i]).0 == g
}

/// Whether `list` holds the n-grams of `n` characters of `m`, each once
/// and with its count and token, the largest count first, and n-grams
/// with one count in the order of their characters.
pub open spec fn is_ranked_list(
    list: Seq<NGram>,
    m: Map<Seq<char>, (usize, usize)>,
    n: int,
) -> bool {
    &&& forall|i: int|
        0 <= i < list.len() ==> (#[trigger] list[i]).0.len() == n && m.contains_key(list[i].0)
            && m[list[i].0] == (list[i].1, list[i].2)
    &&& forall|g: Seq<char>|
        #![trigger is_listed(list, g)]
        m.contains_key(g) && g.len() == n ==> is_listed(list, g)
    &&& forall|i: int, j: int|
        0 <= i < j < list.len() ==> (#[trigger] list[i]).0 != (#[trigger] list[j]).0
    &&& forall|i: int, j: int|
        0 <= i < j < list.len() ==> (#[trigger] list[i]).1 >= (#[trigger] list[j]).1
    &&& forall|i: int, j: int|
        0 <= i < j < list.len() && (#[trigger] list[i]).1 == (#[trigger] list[j]).1 ==> pack(
            list[i].0,
        ) < pack(list[j].0)
}

/// The sum of the counts of `list`.
pub open spec fn list_total(list: Seq<NGram>) -> nat
    decreases list.len(),
{
    if list.len() == 0 {
        0
    } else {
        list_total(list.drop_last()) + list.last().1 as nat
    }
}

/// Whether some n-gram of `m` has the token `token`.
pub open spec fn has_token(m: Map<Seq<char>, (usize, usize)>, token: int) -> bool {
    exists|g: Seq<char>| #[trigger] m.contains_key(g) && m[g].1 == token
}

/// Whether `counts` gives, under the token of each n-gram of `m`, the
/// count of that n-gram, and zero under every other number; it reaches
/// as far as the largest token, and at least as far as the symbols.
pub open spec fn token_counts_ok(
    counts: Seq<usize>,
    m: Map<Seq<char>, (usize, usize)>,
    base: int,
) -> bool {
    &&& counts.len() >= base
    &&& forall|g: Seq<char>| #[trigger]
        m.contains_key(g) ==> m[g].1 < counts.len() && counts[m[g].1 as int] == m[g].0
    &&& forall|t: int| 0 <= t < counts.len() && #[trigger] counts[t] != 0 ==> has_token(m, t)
    &&& counts.len() == base || has_token(m, counts.len() - 1)
}

/// The symbols of a list as sequences of characters.
pub open spec fn symbol_views(list: Seq<(Symbol, usize, usize)>) -> Seq<NGram> {
    list.map_values(|e: (Symbol, usize, usize)| (e.0@, e.1, e.2))
}

/// The bigrams of a list as sequences of characters.
pub open spec fn bigram_views(list: Seq<(Bigram, usize, usize)>) -> Seq<NGram> {
    list.map_values(|e: (Bigram, usize, usize)| (e.0@, e.1, e.2))
}

/// The trigrams of a list as sequences of characters.
pub open spec fn trigram_views(list: Seq<(Trigram, usize, usize)>) -> Seq<NGram> {
    list.map_values(|e: (Trigram, usize, usize)| (e.0@, e.1, e.2))
}

/// The digits of the token of an n-gram are the tokens of its symbols,
/// the first symbol first, and zero where the n-gram has no symbol; so
/// the token lies below the cube of the base.
pub proof fn lemma_token_digits(m: Map<Seq<char>, (usize, usize)>, base: int, g: Seq<char>)
    requires
        tokens_ok(m, base),
        m.contains_key(g),
    ensures
        digits(m[g].1 as int, base) == seq![token_at(m, g, 0), token_at(m, g, 1), token_at(m, g, 2)],
        forall|i: int| 0 <= i < 3 ==> 0 <= #[trigger] token_at(m, g, i) < base,
        forall|i: int| 0 <= i < g.len() ==> 1 <= #[trigger] token_at(m, g, i),
        m[g].1 as int / base / base < base,
        m[g].1 < base * base * base,
{
    assert forall|i: int| 0 <= i < 3 implies 0 <= #[trigger] token_at(m, g, i) < base && (i
        < g.len() ==> 1 <= token_at(m, g, i)) by {
        if i < g.len() {
            assert(m.contains_key(sym(g[i])));
        } else {
            assert(m.contains_key(sym(g[0])));
        }
    }
    lemma_digits_of_compose(token_at(m, g, 0), token_at(m, g, 1), token_at(m, g, 2), base);
    let d = digits(m[g].1 as int, base);
    assert(d[2] == m[g].1 as int / base / base);
}

/// An n-gram of a ranked list counts no more than the whole list.
pub proof fn lemma_count_below_total(list: Seq<NGram>, i: int)
    requires
        0 <= i < list.len(),
    ensures
        list[i].1 <= list_total(list),
    decreases list.len(),
{
    if i < list.len() - 1 {
        lemma_count_below_total(list.drop_last(), i);
    }
}

} // verus!
