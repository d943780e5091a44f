//! The maps of a corpus by key: how tokens are given to their entries,
//! and what the n-grams that they stand for then satisfy.

use vstd::prelude::*;
use vstd::seq_lib::to_multiset_contains;
use std::collections::BTreeMap;
use crate::ngram::{
    Symbol, Bigram, Trigram, RADIX, pack, unpack, valid_key, lemma_pack_unpack, lemma_unpack_pack,
    lemma_char_code, symbol_of, bigram_of, trigram_of,
};
use crate::table::{Entry, keys_increase, has_key, lists_map};
use crate::tokens::{compose, lemma_digits_of_compose};
use crate::sums::{count_sum, lemma_count_sum_push};
use crate::sorting::is_ranked;
use crate::corpus_model::{
    NGram, sym, token_at, tokens_ok, is_listed, is_ranked_list, list_total, has_token,
    has_symbol_token, token_counts_ok, symbol_views, bigram_views, trigram_views,
};

verus! {

/// The maps of symbols, bigrams and trigrams by key.
pub struct Tables {
    pub s: Map<u64, (usize, usize)>,
    pub b: Map<u64, (usize, usize)>,
    pub t: Map<u64, (usize, usize)>,
}

impl Tables {
    /// The map of the n-grams of `n` characters.
    pub open spec fn of(self, n: int) -> Map<u64, (usize, usize)> {
        if n == 1 {
            self.s
        } else if n == 2 {
            self.b
        } else {
            self.t
        }
    }

    /// The n-grams that the maps hold, each with its count and token.
    pub open spec fn ngrams(self) -> Map<Seq<char>, (usize, usize)> {
        Map::new(
            |g: Seq<char>| 1 <= g.len() <= 3 && self.of(g.len() as int).contains_key(pack(g) as u64),
            |g: Seq<char>| self.of(g.len() as int)[pack(g) as u64],
        )
    }
}

/// The key of the symbol at place `i` of the n-gram of `n` characters
/// with the key `key`.
pub open spec fn place(key: int, n: int, i: int) -> int {
    if n == 1 {
        key
    } else if n == 2 {
        if i == 0 { key / 0x20_0000 } else { key % 0x20_0000 }
    } else {
        if i == 0 {
            key / 0x20_0000 / 0x20_0000
        } else if i == 1 {
            (key / 0x20_0000) % 0x20_0000
        } else {
            key % 0x20_0000
        }
    }
}

/// Whether every symbol of the n-gram with the key `key` is in `s`.
pub open spec fn defined_in(s: Map<u64, (usize, usize)>, key: int, n: int) -> bool {
    forall|i: int| 0 <= i < n ==> s.contains_key(#[trigger] place(key, n, i) as u64)
}

/// Whether every entry of `entries` is defined in `s`.
pub open spec fn all_defined(s: Map<u64, (usize, usize)>, entries: Seq<Entry>, n: int) -> bool {
    forall|i: int| 0 <= i < entries.len() ==> defined_in(s, (#[trigger] entries[i]).0 as int, n)
}

/// The token of the symbol at place `i`, or zero past the last place.
pub open spec fn place_token(s: Map<u64, (usize, usize)>, key: int, n: int, i: int) -> int {
    if i < n {
        s[place(key, n, i) as u64].1 as int
    } else {
        0
    }
}

/// The token of the n-gram with the key `key`, made of the tokens of
/// its symbols.
pub open spec fn token_for(s: Map<u64, (usize, usize)>, key: int, n: int, base: int) -> int {
    compose(place_token(s, key, n, 0), place_token(s, key, n, 1), place_token(s, key, n, 2), base)
}

/// Whether some symbol in `s` has the token `token`.
pub open spec fn token_given(s: Map<u64, (usize, usize)>, token: int) -> bool {
    exists|key: u64| #[trigger] s.contains_key(key) && s[key].1 == token
}

/// Whether the tokens of the symbols in `s` are the numbers from 1 to
/// below `base` and grow with the key.
pub open spec fn symbol_tokens_ok(s: Map<u64, (usize, usize)>, base: int) -> bool {
    &&& forall|key: u64| #[trigger] s.contains_key(key) ==> 1 <= s[key].1 < base
    &&& forall|k1: u64, k2: u64|
        #![trigger s.contains_key(k1), s.contains_key(k2)]
        s.contains_key(k1) && s.contains_key(k2) && k1 < k2 ==> s[k1].1 < s[k2].1
    &&& forall|t: int| 1 <= t < base ==> #[trigger] token_given(s, t)
}

/// Whether the maps are those of a corpus with the base `base`.
pub open spec fn tables_ok(tables: Tables, base: int) -> bool {
    &&& forall|n: int, key: u64|
        #![trigger tables.of(n).contains_key(key)]
        1 <= n <= 3 && tables.of(n).contains_key(key) ==> valid_key(key as int, n) && defined_in(
            tables.s,
            key as int,
            n,
        ) && tables.of(n)[key].1 == token_for(tables.s, key as int, n, base)
    &&& symbol_tokens_ok(tables.s, base)
}

/// The places of the key of an n-gram are the codes of its characters.
pub proof fn lemma_places(g: Seq<char>)
    requires
        1 <= g.len() <= 3,
    ensures
        forall|i: int|
            0 <= i < g.len() ==> #[trigger] place(pack(g), g.len() as int, i) == g[i] as int,
        forall|i: int| 0 <= i < g.len() ==> pack(seq![#[trigger] g[i]]) == g[i] as int,
{
    lemma_unpack_pack(g);
    let n = g.len() as int;
    let key = pack(g);
    assert forall|i: int| 0 <= i < n implies #[trigger] place(key, n, i) == g[i] as int by {
        lemma_char_code(g[i]);
        assert(unpack(key, n)[i] == g[i]);
    }
}

/// The n-grams behind well-formed maps obey the rules of tokens.
pub proof fn lemma_tokens_ok(tables: Tables, base: int)
    requires
        tables_ok(tables, base),
    ensures
        tokens_ok(tables.ngrams(), base),
{
    let m = tables.ngrams();
    assert forall|g: Seq<char>, i: int|
        #![trigger m.contains_key(g), sym(g[i])]
        m.contains_key(g) && 0 <= i < g.len() implies m.contains_key(sym(g[i])) by {
        lemma_symbol_of_place(tables, base, g, i);
    }
    assert forall|c: char| #[trigger] m.contains_key(sym(c)) implies 1 <= m[sym(c)].1 < base by {
        lemma_unpack_pack(sym(c));
        assert(tables.of(1).contains_key(pack(sym(c)) as u64));
    }
    assert forall|c: char, d: char|
        #![trigger m.contains_key(sym(c)), m.contains_key(sym(d))]
        m.contains_key(sym(c)) && m.contains_key(sym(d)) && (c as int) < (d as int) implies m[sym(
        c,
    )].1 < m[sym(d)].1 by {
        lemma_unpack_pack(sym(c));
        lemma_unpack_pack(sym(d));
        let k1 = pack(sym(c)) as u64;
        let k2 = pack(sym(d)) as u64;
        assert(tables.s.contains_key(k1) && tables.s.contains_key(k2));
        assert(k1 < k2);
    }
    assert forall|t: int| 1 <= t < base implies #[trigger] has_symbol_token(m, t) by {
        assert(token_given(tables.s, t));
        let key = choose|key: u64| #[trigger] tables.s.contains_key(key) && tables.s[key].1 == t;
        assert(tables.of(1).contains_key(key));
        lemma_pack_unpack(key as int, 1);
        let g = unpack(key as int, 1);
        assert(g =~= sym(g[0]));
        assert(m.contains_key(sym(g[0])) && m[sym(g[0])].1 == t);
    }
    assert forall|g: Seq<char>| #[trigger] m.contains_key(g) implies m[g].1 == compose(
        token_at(m, g, 0),
        token_at(m, g, 1),
        token_at(m, g, 2),
        base,
    ) by {
        let n = g.len() as int;
        let key = pack(g) as u64;
        lemma_unpack_pack(g);
        assert(tables.of(n).contains_key(key));
        assert forall|i: int| 0 <= i < 3 implies place_token(tables.s, key as int, n, i)
            == token_at(m, g, i) by {
            if i < n {
                lemma_symbol_of_place(tables, base, g, i);
            }
        }
    }
}

/// The symbol at a place of an n-gram of the corpus is a symbol of the
/// corpus, found in the map of symbols under its code.
pub proof fn lemma_symbol_of_place(tables: Tables, base: int, g: Seq<char>, i: int)
    requires
        tables_ok(tables, base),
        tables.ngrams().contains_key(g),
        0 <= i < g.len(),
    ensures
        tables.ngrams().contains_key(sym(g[i])),
        place(pack(g), g.len() as int, i) == g[i] as int,
        tables.s.contains_key(place(pack(g), g.len() as int, i) as u64),
        tables.ngrams()[sym(g[i])] == tables.s[place(pack(g), g.len() as int, i) as u64],
{
    let n = g.len() as int;
    let key = pack(g) as u64;
    lemma_unpack_pack(g);
    lemma_places(g);
    lemma_char_code(g[i]);
    assert(tables.of(n).contains_key(key));
    assert(defined_in(tables.s, key as int, n));
    assert(tables.s.contains_key(place(key as int, n, i) as u64));
    assert(pack(sym(g[i])) == g[i] as int);
    assert(tables.of(1) == tables.s);
}

/// Adds an entry with a key above all others to a map and to its list.
fn append_entry(map: &mut BTreeMap<u64, (usize, usize)>, list: &mut Vec<Entry>, e: Entry)
    requires
        lists_map(old(list)@, old(map)@),
        keys_increase(old(list)@),
        old(list)@.len() > 0 ==> old(list)@.last().0 < e.0,
    ensures
        lists_map(final(list)@, final(map)@),
        keys_increase(final(list)@),
        final(list)@ == old(list)@.push(e),
        final(map)@ == old(map)@.insert(e.0, (e.1, e.2)),
{
    proof {
        broadcast use vstd::std_specs::btree::axiom_btree_map_view_finite_dom;

        assert(old(map)@.dom().finite());
        if old(map)@.contains_key(e.0) {
            assert(has_key(old(list)@, e.0));
        }
    }
    let ghost before = list@;
    let ghost map_before = map@;
    map.insert(e.0, (e.1, e.2));
    list.push(e);
    proof {
        assert(!map_before.contains_key(e.0));
        assert(map@.dom() =~= map_before.dom().insert(e.0));
        assert forall|key: u64| map@.contains_key(key) implies #[trigger] has_key(list@, key) by {
            if key == e.0 {
                assert(list@[before.len() as int].0 == key);
            } else {
                assert(has_key(before, key));
                let i = choose|i: int| 0 <= i < before.len() && (#[trigger] before[i]).0 == key;
                assert(list@[i].0 == key);
            }
        }
    }
}

/// Gives the symbols their tokens: the first gets 1, the next 2, and
/// so on.
pub(crate) fn symbol_table(es: &Vec<Entry>) -> (r: (BTreeMap<u64, (usize, usize)>, Vec<Entry>))
    requires
        keys_increase(es@),
    ensures
        lists_map(r.1@, r.0@),
        keys_increase(r.1@),
        r.1@.len() == es@.len(),
        forall|i: int|
            0 <= i < es@.len() ==> (#[trigger] r.1@[i]).0 == es@[i].0 && r.1@[i].1 == es@[i].1
                && r.1@[i].2 == i + 1,
{
    let mut map: BTreeMap<u64, (usize, usize)> = BTreeMap::new();
    let mut list: Vec<Entry> = Vec::new();
    let mut i: usize = 0;
    while i < es.len()
        invariant
            i <= es@.len(),
            keys_increase(es@),
            lists_map(list@, map@),
            keys_increase(list@),
            list@.len() == i,
            forall|j: int|
                0 <= j < i ==> (#[trigger] list@[j]).0 == es@[j].0 && list@[j].1 == es@[j].1
                    && list@[j].2 == j + 1,
        decreases es@.len() - i,
    {
        let (key, count, _) = es[i];
        append_entry(&mut map, &mut list, (key, count, i + 1));
        i += 1;
    }
    (map, list)
}

/// Tells whether every symbol of the n-gram with the key `key` is in the
/// map of symbols.
pub(crate) fn is_defined(s_map: &BTreeMap<u64, (usize, usize)>, key: u64, n: usize) -> (r: bool)
    requires
        2 <= n <= 3,
    ensures
        r == defined_in(s_map@, key as int, n as int),
{
    let r = if n == 2 {
        s_map.contains_key(&(key / RADIX)) && s_map.contains_key(&(key % RADIX))
    } else {
        s_map.contains_key(&(key / RADIX / RADIX)) && s_map.contains_key(&((key / RADIX) % RADIX))
            && s_map.contains_key(&(key % RADIX))
    };
    proof {
        let k = key as int;
        if r {
            assert forall|i: int| 0 <= i < n implies s_map@.contains_key(
                #[trigger] place(k, n as int, i) as u64,
            ) by {}
        } else if n == 2 {
            assert(!s_map@.contains_key(place(k, 2, 0) as u64) || !s_map@.contains_key(
                place(k, 2, 1) as u64,
            ));
        } else {
            assert(!s_map@.contains_key(place(k, 3, 0) as u64) || !s_map@.contains_key(
                place(k, 3, 1) as u64,
            ) || !s_map@.contains_key(place(k, 3, 2) as u64));
        }
    }
    r
}

/// Tells whether every symbol of every entry is in the map of symbols.
pub(crate) fn are_defined(s_map: &BTreeMap<u64, (usize, usize)>, entries: &Vec<Entry>, n: usize) -> (r:
    bool)
    requires
        2 <= n <= 3,
    ensures
        r == all_defined(s_map@, entries@, n as int),
{
    let mut i: usize = 0;
    while i < entries.len()
        invariant
            i <= entries@.len(),
            2 <= n <= 3,
            forall|j: int|
                0 <= j < i ==> defined_in(s_map@, (#[trigger] entries@[j]).0 as int, n as int),
        decreases entries@.len() - i,
    {
        if !is_defined(s_map, entries[i].0, n) {
            return false;
        }
        i += 1;
    }
    true
}

/// The token of a symbol that the map holds.
fn symbol_token(s_map: &BTreeMap<u64, (usize, usize)>, key: u64) -> (token: usize)
    requires
        s_map@.contains_key(key),
    ensures
        token == s_map@[key].1,
{
    s_map.get(&key).unwrap().1
}

/// Makes the token of a bigram or trigram from the tokens of its symbols.
fn token_of_key(s_map: &BTreeMap<u64, (usize, usize)>, key: u64, n: usize, base: usize) -> (token:
    usize)
    requires
        2 <= n <= 3,
        defined_in(s_map@, key as int, n as int),
        symbol_tokens_ok(s_map@, base as int),
        base * base * base <= usize::MAX,
    ensures
        token == token_for(s_map@, key as int, n as int, base as int),
        base <= token < base * base * base,
{
    let ghost k = key as int;
    if n == 2 {
        assert(s_map@.contains_key(place(k, 2, 0) as u64) && s_map@.contains_key(
            place(k, 2, 1) as u64,
        ));
        let t0 = symbol_token(s_map, key / RADIX);
        let t1 = symbol_token(s_map, key % RADIX);
        proof {
            lemma_digits_of_compose(t0 as int, t1 as int, 0, base as int);
            assert(t1 * base + t0 == compose(t0 as int, t1 as int, 0, base as int)) by {
                assert(0 * base + t1 == t1);
            }
        }
        t1 * base + t0
    } else {
        assert(s_map@.contains_key(place(k, 3, 0) as u64) && s_map@.contains_key(
            place(k, 3, 1) as u64,
        ) && s_map@.contains_key(place(k, 3, 2) as u64));
        let t0 = symbol_token(s_map, key / RADIX / RADIX);
        let t1 = symbol_token(s_map, (key / RADIX) % RADIX);
        let t2 = symbol_token(s_map, key % RADIX);
        proof {
            lemma_digits_of_compose(t0 as int, t1 as int, t2 as int, base as int);
            lemma_digits_of_compose(t1 as int, t2 as int, 0, base as int);
            assert(t2 * base + t1 == compose(t1 as int, t2 as int, 0, base as int)) by {
                assert(0 * base + t2 == t2);
            }
            assert(base * base <= base * base * base) by (nonlinear_arith)
                requires
                    base >= 1,
            ;
        }
        (t2 * base + t1) * base + t0
    }
}

/// Gives every bigram or trigram its token.
pub(crate) fn derived_table(
    s_map: &BTreeMap<u64, (usize, usize)>,
    entries: &Vec<Entry>,
    n: usize,
    base: usize,
) -> (r: (BTreeMap<u64, (usize, usize)>, Vec<Entry>))
    requires
        2 <= n <= 3,
        keys_increase(entries@),
        all_defined(s_map@, entries@, n as int),
        symbol_tokens_ok(s_map@, base as int),
        base * base * base <= usize::MAX,
    ensures
        lists_map(r.1@, r.0@),
        keys_increase(r.1@),
        r.1@.len() == entries@.len(),
        forall|i: int|
            0 <= i < entries@.len() ==> (#[trigger] r.1@[i]).0 == entries@[i].0 && r.1@[i].1
                == entries@[i].1 && r.1@[i].2 == token_for(
                s_map@,
                entries@[i].0 as int,
                n as int,
                base as int,
            ) && r.1@[i].2 < base * base * base,
{
    let mut map: BTreeMap<u64, (usize, usize)> = BTreeMap::new();
    let mut list: Vec<Entry> = Vec::new();
    let mut i: usize = 0;
    while i < entries.len()
        invariant
            i <= entries@.len(),
            2 <= n <= 3,
            keys_increase(entries@),
            all_defined(s_map@, entries@, n as int),
            symbol_tokens_ok(s_map@, base as int),
            base * base * base <= usize::MAX,
            lists_map(list@, map@),
            keys_increase(list@),
            list@.len() == i,
            forall|j: int|
                0 <= j < i ==> (#[trigger] list@[j]).0 == entries@[j].0 && list@[j].1
                    == entries@[j].1 && list@[j].2 == token_for(
                    s_map@,
                    entries@[j].0 as int,
                    n as int,
                    base as int,
                ) && list@[j].2 < base * base * base,
        decreases entries@.len() - i,
    {
        let (key, count, _) = entries[i];
        assert(defined_in(s_map@, entries@[i as int].0 as int, n as int));
        let token = token_of_key(s_map, key, n, base);
        append_entry(&mut map, &mut list, (key, count, token));
        i += 1;
    }
    (map, list)
}

/// Adds up the counts of a list, unless the sum is too large.
pub(crate) fn sum_counts(entries: &Vec<Entry>) -> (total: Option<usize>)
    ensures
        match total {
            Some(t) => t == count_sum(entries@),
            None => count_sum(entries@) > usize::MAX,
        },
{
    let mut total: usize = 0;
    let mut i: usize = 0;
    while i < entries.len()
        invariant
            i <= entries@.len(),
            total == count_sum(entries@.take(i as int)),
        decreases entries@.len() - i,
    {
        proof {
            lemma_count_sum_push(entries@.take(i as int), entries@[i as int]);
            assert(entries@.take(i + 1) =~= entries@.take(i as int).push(entries@[i as int]));
            crate::sums::lemma_count_sum_split(entries@, i + 1);
        }
        match total.checked_add(entries[i].1) {
            Some(t) => {
                total = t;
            },
            None => {
                return None;
            },
        }
        i += 1;
    }
    assert(entries@.take(i as int) =~= entries@);
    Some(total)
}

/// The entries of `list` as n-grams of `n` characters.
pub open spec fn unpacked(list: Seq<Entry>, n: int) -> Seq<NGram> {
    list.map_values(|e: Entry| (unpack(e.0 as int, n), e.1, e.2))
}

/// Whether every key of `list` is the key of an n-gram of `n` characters.
pub open spec fn keys_valid(list: Seq<Entry>, n: int) -> bool {
    forall|i: int| 0 <= i < list.len() ==> valid_key((#[trigger] list[i]).0 as int, n)
}

/// The symbols of a list of entries.
pub(crate) fn symbols_from(list: &Vec<Entry>) -> (typed: Vec<(Symbol, usize, usize)>)
    requires
        keys_valid(list@, 1),
    ensures
        symbol_views(typed@) == unpacked(list@, 1),
{
    let mut typed: Vec<(Symbol, usize, usize)> = Vec::new();
    let mut i: usize = 0;
    while i < list.len()
        invariant
            i <= list@.len(),
            keys_valid(list@, 1),
            typed@.len() == i,
            forall|j: int|
                0 <= j < i ==> (#[trigger] typed@[j]).0@ == unpack(list@[j].0 as int, 1)
                    && typed@[j].1 == list@[j].1 && typed@[j].2 == list@[j].2,
        decreases list@.len() - i,
    {
        let (key, count, token) = list[i];
        assert(valid_key(list@[i as int].0 as int, 1));
        typed.push((symbol_of(key), count, token));
        i += 1;
    }
    assert(symbol_views(typed@) =~= unpacked(list@, 1));
    typed
}

/// The bigrams of a list of entries.
pub(crate) fn bigrams_from(list: &Vec<Entry>) -> (typed: Vec<(Bigram, usize, usize)>)
    requires
        keys_valid(list@, 2),
    ensures
        bigram_views(typed@) == unpacked(list@, 2),
{
    let mut typed: Vec<(Bigram, usize, usize)> = Vec::new();
    let mut i: usize = 0;
    while i < list.len()
        invariant
            i <= list@.len(),
            keys_valid(list@, 2),
            typed@.len() == i,
            forall|j: int|
                0 <= j < i ==> (#[trigger] typed@[j]).0@ == unpack(list@[j].0 as int, 2)
                    && typed@[j].1 == list@[j].1 && typed@[j].2 == list@[j].2,
        decreases list@.len() - i,
    {
        let (key, count, token) = list[i];
        assert(valid_key(list@[i as int].0 as int, 2));
        typed.push((bigram_of(key), count, token));
        i += 1;
    }
    assert(bigram_views(typed@) =~= unpacked(list@, 2));
    typed
}

/// The trigrams of a list of entries.
pub(crate) fn trigrams_from(list: &Vec<Entry>) -> (typed: Vec<(Trigram, usize, usize)>)
    requires
        keys_valid(list@, 3),
    ensures
        trigram_views(typed@) == unpacked(list@, 3),
{
    let mut typed: Vec<(Trigram, usize, usize)> = Vec::new();
    let mut i: usize = 0;
    while i < list.len()
        invariant
            i <= list@.len(),
            keys_valid(list@, 3),
            typed@.len() == i,
            forall|j: int|
                0 <= j < i ==> (#[trigger] typed@[j]).0@ == unpack(list@[j].0 as int, 3)
                    && typed@[j].1 == list@[j].1 && typed@[j].2 == list@[j].2,
        decreases list@.len() - i,
    {
        let (key, count, token) = list[i];
        assert(valid_key(list@[i as int].0 as int, 3));
        typed.push((trigram_of(key), count, token));
        i += 1;
    }
    assert(trigram_views(typed@) =~= unpacked(list@, 3));
    typed
}

/// A list in another order still lists the map.
pub proof fn lemma_reordered_lists_map(
    list: Seq<Entry>,
    sorted: Seq<Entry>,
    m: Map<u64, (usize, usize)>,
)
    requires
        lists_map(list, m),
        sorted.to_multiset() == list.to_multiset(),
        sorted.len() == list.len(),
    ensures
        lists_map(sorted, m),
{
    assert forall|i: int| 0 <= i < sorted.len() implies m.contains_key((#[trigger] sorted[i]).0)
        && m[sorted[i].0] == (sorted[i].1, sorted[i].2) by {
        to_multiset_contains(sorted, sorted[i]);
        to_multiset_contains(list, sorted[i]);
        assert(sorted.contains(sorted[i]));
        let j = choose|j: int| 0 <= j < list.len() && list[j] == sorted[i];
        assert(m.contains_key(list[j].0));
    }
    assert forall|key: u64| m.contains_key(key) implies #[trigger] has_key(sorted, key) by {
        assert(has_key(list, key));
        let j = choose|j: int| 0 <= j < list.len() && (#[trigger] list[j]).0 == key;
        to_multiset_contains(sorted, list[j]);
        to_multiset_contains(list, list[j]);
        assert(list.contains(list[j]));
        let i = choose|i: int| 0 <= i < sorted.len() && sorted[i] == list[j];
        assert(sorted[i].0 == key);
    }
}

/// The counts of the n-grams of a list add up as those of its entries.
pub proof fn lemma_unpacked_total(list: Seq<Entry>, n: int)
    ensures
        list_total(unpacked(list, n)) == count_sum(list),
    decreases list.len(),
{
    if list.len() > 0 {
        lemma_unpacked_total(list.drop_last(), n);
        assert(unpacked(list, n).drop_last() =~= unpacked(list.drop_last(), n));
    }
}

/// A list of a map of the corpus, ordered by count, is the ranked list
/// of the n-grams of that length.
pub proof fn lemma_ranked_list(tables: Tables, base: int, sorted: Seq<Entry>, n: int)
    requires
        1 <= n <= 3,
        tables_ok(tables, base),
        tables.of(n).dom().finite(),
        lists_map(sorted, tables.of(n)),
        is_ranked(sorted),
    ensures
        is_ranked_list(unpacked(sorted, n), tables.ngrams(), n),
        list_total(unpacked(sorted, n)) == crate::sums::map_sum(tables.of(n)),
        keys_valid(sorted, n),
{
    let m = tables.ngrams();
    let list = unpacked(sorted, n);
    crate::sums::lemma_keys_differ(sorted, tables.of(n));
    crate::sums::lemma_list_sum(sorted, tables.of(n));
    lemma_unpacked_total(sorted, n);
    assert forall|i: int| 0 <= i < list.len() implies (#[trigger] list[i]).0.len() == n
        && m.contains_key(list[i].0) && m[list[i].0] == (list[i].1, list[i].2) by {
        assert(tables.of(n).contains_key(sorted[i].0));
        lemma_pack_unpack(sorted[i].0 as int, n);
    }
    assert forall|g: Seq<char>|
        #![trigger is_listed(list, g)]
        m.contains_key(g) && g.len() == n implies is_listed(list, g) by {
        lemma_unpack_pack(g);
        let key = pack(g) as u64;
        assert(has_key(sorted, key));
        let i = choose|i: int| 0 <= i < sorted.len() && (#[trigger] sorted[i]).0 == key;
        assert(list[i].0 == g);
    }
    assert forall|i: int, j: int| 0 <= i < j < list.len() implies (#[trigger] list[i]).0 != (
    #[trigger] list[j]).0 by {
        assert(tables.of(n).contains_key(sorted[i].0));
        assert(tables.of(n).contains_key(sorted[j].0));
        lemma_pack_unpack(sorted[i].0 as int, n);
        lemma_pack_unpack(sorted[j].0 as int, n);
    }
    assert forall|i: int, j: int| 0 <= i < j < list.len() implies (#[trigger] list[i]).1 >= (
    #[trigger] list[j]).1 by {
        assert(crate::sorting::ranks_above(sorted[i], sorted[j]));
    }
    assert forall|i: int, j: int|
        0 <= i < j < list.len() && (#[trigger] list[i]).1 == (#[trigger] list[j]).1 implies pack(
        list[i].0,
    ) < pack(list[j].0) by {
        assert(crate::sorting::ranks_above(sorted[i], sorted[j]));
        assert(tables.of(n).contains_key(sorted[i].0));
        assert(tables.of(n).contains_key(sorted[j].0));
        lemma_pack_unpack(sorted[i].0 as int, n);
        lemma_pack_unpack(sorted[j].0 as int, n);
    }
    assert forall|i: int| 0 <= i < sorted.len() implies valid_key(
        (#[trigger] sorted[i]).0 as int,
        n,
    ) by {
        assert(tables.of(n).contains_key(sorted[i].0));
    }
}

/// Whether some entry of `list` has the token `token`.
pub open spec fn token_in(list: Seq<Entry>, token: int) -> bool {
    exists|i: int| 0 <= i < list.len() && (#[trigger] list[i]).2 == token
}

/// Whether `counts` holds the count of every entry of `list` under its
/// token.
pub open spec fn records(counts: Seq<usize>, list: Seq<Entry>) -> bool {
    forall|i: int|
        0 <= i < list.len() ==> (#[trigger] list[i]).2 < counts.len() && counts[list[i].2 as int]
            == list[i].1
}

/// The key of an n-gram is made of its places.
proof fn lemma_key_of_places(key: int, n: int)
    requires
        1 <= n <= 3,
        valid_key(key, n),
    ensures
        key == if n == 1 {
            place(key, n, 0)
        } else if n == 2 {
            place(key, n, 0) * 0x20_0000 + place(key, n, 1)
        } else {
            (place(key, n, 0) * 0x20_0000 + place(key, n, 1)) * 0x20_0000 + place(key, n, 2)
        },
{
}

/// No two n-grams of a corpus have one token.
pub proof fn lemma_token_injective(
    tables: Tables,
    base: int,
    n1: int,
    k1: u64,
    n2: int,
    k2: u64,
)
    requires
        tables_ok(tables, base),
        1 <= n1 <= 3,
        1 <= n2 <= 3,
        tables.of(n1).contains_key(k1),
        tables.of(n2).contains_key(k2),
        tables.of(n1)[k1].1 == tables.of(n2)[k2].1,
    ensures
        n1 == n2,
        k1 == k2,
{
    let s = tables.s;
    let a0 = place_token(s, k1 as int, n1, 0);
    let a1 = place_token(s, k1 as int, n1, 1);
    let a2 = place_token(s, k1 as int, n1, 2);
    let b0 = place_token(s, k2 as int, n2, 0);
    let b1 = place_token(s, k2 as int, n2, 1);
    let b2 = place_token(s, k2 as int, n2, 2);
    assert(defined_in(s, k1 as int, n1));
    assert(defined_in(s, k2 as int, n2));
    assert forall|i: int| 0 <= i < 3 implies 0 <= place_token(s, k1 as int, n1, i) < base && (i
        < n1 ==> place_token(s, k1 as int, n1, i) >= 1) by {
        if i < n1 {
            assert(s.contains_key(place(k1 as int, n1, i) as u64));
        }
    }
    assert forall|i: int| 0 <= i < 3 implies 0 <= place_token(s, k2 as int, n2, i) < base && (i
        < n2 ==> place_token(s, k2 as int, n2, i) >= 1) by {
        if i < n2 {
            assert(s.contains_key(place(k2 as int, n2, i) as u64));
        }
    }
    assert(0 <= a0 < base && 0 <= a1 < base && 0 <= a2 < base);
    assert(0 <= b0 < base && 0 <= b1 < base && 0 <= b2 < base);
    crate::tokens::lemma_compose_injective(a0, a1, a2, b0, b1, b2, base);
    assert(n1 == n2) by {
        assert(1 < n1 <==> a1 >= 1);
        assert(2 < n1 <==> a2 >= 1);
        assert(1 < n2 <==> b1 >= 1);
        assert(2 < n2 <==> b2 >= 1);
    }
    assert forall|i: int| 0 <= i < n1 implies place(k1 as int, n1, i) == place(
        k2 as int,
        n2,
        i,
    ) by {
        let place_a = place(k1 as int, n1, i) as u64;
        let place_b = place(k2 as int, n2, i) as u64;
        assert(s.contains_key(place_a) && s.contains_key(place_b));
        assert(place_token(s, k1 as int, n1, i) == place_token(s, k2 as int, n2, i));
        lemma_pack_unpack(k1 as int, n1);
        lemma_pack_unpack(k2 as int, n2);
        if place_a < place_b {
            assert(s[place_a].1 < s[place_b].1);
        } else if place_b < place_a {
            assert(s[place_b].1 < s[place_a].1);
        }
    }
    lemma_key_of_places(k1 as int, n1);
    lemma_key_of_places(k2 as int, n2);
    assert(place(k1 as int, n1, 0) == place(k2 as int, n2, 0));
    if n1 >= 2 {
        assert(place(k1 as int, n1, 1) == place(k2 as int, n2, 1));
    }
    if n1 >= 3 {
        assert(place(k1 as int, n1, 2) == place(k2 as int, n2, 2));
    }
}

/// The largest token of a list, or `floor` if that is larger.
fn largest_token(list: &Vec<Entry>, floor: usize) -> (largest: usize)
    ensures
        largest >= floor,
        forall|i: int| 0 <= i < list@.len() ==> (#[trigger] list@[i]).2 <= largest,
        largest == floor || token_in(list@, largest as int),
{
    let mut largest = floor;
    let mut i: usize = 0;
    while i < list.len()
        invariant
            i <= list@.len(),
            largest >= floor,
            forall|j: int| 0 <= j < i ==> (#[trigger] list@[j]).2 <= largest,
            largest == floor || token_in(list@, largest as int),
        decreases list@.len() - i,
    {
        if list[i].2 > largest {
            largest = list[i].2;
            assert(list@[i as int].2 == largest);
        }
        i += 1;
    }
    largest
}

/// Writes the count of every entry of `list` under its token.
fn record_counts(counts: &mut Vec<usize>, list: &Vec<Entry>)
    requires
        forall|i: int| 0 <= i < list@.len() ==> (#[trigger] list@[i]).2 < old(counts)@.len(),
        forall|i: int, j: int|
            0 <= i < j < list@.len() ==> (#[trigger] list@[i]).2 != (#[trigger] list@[j]).2,
    ensures
        final(counts)@.len() == old(counts)@.len(),
        records(final(counts)@, list@),
        forall|t: int|
            0 <= t < old(counts)@.len() && !token_in(list@, t) ==> #[trigger] final(counts)@[t]
                == old(counts)@[t],
{
    let mut i: usize = 0;
    while i < list.len()
        invariant
            i <= list@.len(),
            counts@.len() == old(counts)@.len(),
            forall|j: int| 0 <= j < list@.len() ==> (#[trigger] list@[j]).2 < counts@.len(),
            forall|j: int, k: int|
                0 <= j < k < list@.len() ==> (#[trigger] list@[j]).2 != (#[trigger] list@[k]).2,
            forall|j: int| 0 <= j < i ==> counts@[(#[trigger] list@[j]).2 as int] == list@[j].1,
            forall|t: int|
                0 <= t < counts@.len() && !token_in(list@, t) ==> #[trigger] counts@[t] == old(
                    counts,
                )@[t],
        decreases list@.len() - i,
    {
        let (_, count, token) = list[i];
        assert(token_in(list@, token as int)) by {
            assert(list@[i as int].2 == token);
        }
        counts.set(token, count);
        i += 1;
    }
}

/// A vector of `n` zeros.
fn zeros(n: usize) -> (v: Vec<usize>)
    ensures
        v@.len() == n,
        forall|i: int| 0 <= i < n ==> #[trigger] v@[i] == 0,
{
    let mut v: Vec<usize> = Vec::new();
    v.resize(n, 0);
    v
}

/// Whether no two entries of the three lists have one token.
pub open spec fn tokens_differ(sl: Seq<Entry>, bl: Seq<Entry>, tl: Seq<Entry>) -> bool {
    &&& forall|i: int, j: int|
        0 <= i < j < sl.len() ==> (#[trigger] sl[i]).2 != (#[trigger] sl[j]).2
    &&& forall|i: int, j: int|
        0 <= i < j < bl.len() ==> (#[trigger] bl[i]).2 != (#[trigger] bl[j]).2
    &&& forall|i: int, j: int|
        0 <= i < j < tl.len() ==> (#[trigger] tl[i]).2 != (#[trigger] tl[j]).2
    &&& forall|i: int, j: int|
        0 <= i < sl.len() && 0 <= j < bl.len() ==> (#[trigger] sl[i]).2 != (#[trigger] bl[j]).2
    &&& forall|i: int, j: int|
        0 <= i < sl.len() && 0 <= j < tl.len() ==> (#[trigger] sl[i]).2 != (#[trigger] tl[j]).2
    &&& forall|i: int, j: int|
        0 <= i < bl.len() && 0 <= j < tl.len() ==> (#[trigger] bl[i]).2 != (#[trigger] tl[j]).2
}

/// Whether `token` is the token of an entry of one of the three lists.
pub open spec fn token_known(sl: Seq<Entry>, bl: Seq<Entry>, tl: Seq<Entry>, token: int) -> bool {
    token_in(sl, token) || token_in(bl, token) || token_in(tl, token)
}

/// The table of counts by token: it reaches as far as the largest token
/// and holds zero where no entry has the token.
pub(crate) fn counts_by_token(sl: &Vec<Entry>, bl: &Vec<Entry>, tl: &Vec<Entry>, base: usize) -> (counts:
    Vec<usize>)
    requires
        base >= 1,
        tokens_differ(sl@, bl@, tl@),
        forall|i: int| 0 <= i < sl@.len() ==> (#[trigger] sl@[i]).2 < usize::MAX,
        forall|i: int| 0 <= i < bl@.len() ==> (#[trigger] bl@[i]).2 < usize::MAX,
        forall|i: int| 0 <= i < tl@.len() ==> (#[trigger] tl@[i]).2 < usize::MAX,
    ensures
        counts@.len() >= base,
        records(counts@, sl@),
        records(counts@, bl@),
        records(counts@, tl@),
        forall|t: int|
            0 <= t < counts@.len() && #[trigger] counts@[t] != 0 ==> token_known(
                sl@,
                bl@,
                tl@,
                t,
            ),
        counts@.len() == base || token_known(sl@, bl@, tl@, counts@.len() - 1),
{
    let m0 = largest_token(sl, base - 1);
    let m1 = largest_token(bl, m0);
    let m2 = largest_token(tl, m1);
    let mut counts = zeros(m2 + 1);
    record_counts(&mut counts, sl);
    let ghost after_s = counts@;
    record_counts(&mut counts, bl);
    let ghost after_b = counts@;
    record_counts(&mut counts, tl);
    proof {
        assert forall|i: int| 0 <= i < sl@.len() implies (#[trigger] sl@[i]).2 < counts@.len()
            && counts@[sl@[i].2 as int] == sl@[i].1 by {
            let t = sl@[i].2 as int;
            assert(!token_in(bl@, t));
            assert(!token_in(tl@, t));
            assert(after_b[t] == after_s[t]);
        }
        assert forall|i: int| 0 <= i < bl@.len() implies (#[trigger] bl@[i]).2 < counts@.len()
            && counts@[bl@[i].2 as int] == bl@[i].1 by {
            let t = bl@[i].2 as int;
            assert(!token_in(tl@, t));
        }
        assert forall|t: int| 0 <= t < counts@.len() && #[trigger] counts@[t] != 0 implies token_known(
            sl@,
            bl@,
            tl@,
            t,
        ) by {
            if !token_known(sl@, bl@, tl@, t) {
                assert(after_s[t] == 0);
                assert(after_b[t] == after_s[t]);
                assert(counts@[t] == after_b[t]);
            }
        }
    }
    counts
}

/// The counts by token of the lists are the counts by token of the
/// n-grams behind them.
pub proof fn lemma_token_counts(
    tables: Tables,
    base: int,
    sl: Seq<Entry>,
    bl: Seq<Entry>,
    tl: Seq<Entry>,
    counts: Seq<usize>,
)
    requires
        tables_ok(tables, base),
        lists_map(sl, tables.s),
        lists_map(bl, tables.b),
        lists_map(tl, tables.t),
        counts.len() >= base,
        records(counts, sl),
        records(counts, bl),
        records(counts, tl),
        forall|t: int|
            0 <= t < counts.len() && #[trigger] counts[t] != 0 ==> token_known(sl, bl, tl, t),
        counts.len() == base || token_known(sl, bl, tl, counts.len() - 1),
    ensures
        token_counts_ok(counts, tables.ngrams(), base),
{
    let m = tables.ngrams();
    assert forall|g: Seq<char>| #[trigger] m.contains_key(g) implies m[g].1 < counts.len()
        && counts[m[g].1 as int] == m[g].0 by {
        let n = g.len() as int;
        let key = pack(g) as u64;
        let list = if n == 1 { sl } else if n == 2 { bl } else { tl };
        assert(lists_map(list, tables.of(n)));
        assert(has_key(list, key));
        let i = choose|i: int| 0 <= i < list.len() && (#[trigger] list[i]).0 == key;
        assert(list[i].2 < counts.len());
    }
    assert forall|t: int| token_known(sl, bl, tl, t) implies has_token(m, t) by {
        let n: int = if token_in(sl, t) { 1 } else if token_in(bl, t) { 2 } else { 3 };
        let list = if n == 1 { sl } else if n == 2 { bl } else { tl };
        assert(lists_map(list, tables.of(n)));
        let i = choose|i: int| 0 <= i < list.len() && (#[trigger] list[i]).2 == t;
        assert(tables.of(n).contains_key(list[i].0));
        lemma_pack_unpack(list[i].0 as int, n);
        let g = unpack(list[i].0 as int, n);
        assert(m.contains_key(g) && m[g].1 == t);
    }
}

/// The lists of a corpus hold no token twice.
pub proof fn lemma_tokens_differ(
    tables: Tables,
    base: int,
    sl: Seq<Entry>,
    bl: Seq<Entry>,
    tl: Seq<Entry>,
)
    requires
        tables_ok(tables, base),
        tables.s.dom().finite(),
        tables.b.dom().finite(),
        tables.t.dom().finite(),
        lists_map(sl, tables.s),
        lists_map(bl, tables.b),
        lists_map(tl, tables.t),
    ensures
        tokens_differ(sl, bl, tl),
{
    crate::sums::lemma_keys_differ(sl, tables.s);
    crate::sums::lemma_keys_differ(bl, tables.b);
    crate::sums::lemma_keys_differ(tl, tables.t);
    assert forall|i: int, j: int| 0 <= i < j < sl.len() implies (#[trigger] sl[i]).2 != (
    #[trigger] sl[j]).2 by {
        if sl[i].2 == sl[j].2 {
            lemma_token_injective(tables, base, 1, sl[i].0, 1, sl[j].0);
        }
    }
    assert forall|i: int, j: int| 0 <= i < j < bl.len() implies (#[trigger] bl[i]).2 != (
    #[trigger] bl[j]).2 by {
        if bl[i].2 == bl[j].2 {
            lemma_token_injective(tables, base, 2, bl[i].0, 2, bl[j].0);
        }
    }
    assert forall|i: int, j: int| 0 <= i < j < tl.len() implies (#[trigger] tl[i]).2 != (
    #[trigger] tl[j]).2 by {
        if tl[i].2 == tl[j].2 {
            lemma_token_injective(tables, base, 3, tl[i].0, 3, tl[j].0);
        }
    }
    assert forall|i: int, j: int| 0 <= i < sl.len() && 0 <= j < bl.len() implies (
    #[trigger] sl[i]).2 != (#[trigger] bl[j]).2 by {
        if sl[i].2 == bl[j].2 {
            lemma_token_injective(tables, base, 1, sl[i].0, 2, bl[j].0);
        }
    }
    assert forall|i: int, j: int| 0 <= i < sl.len() && 0 <= j < tl.len() implies (
    #[trigger] sl[i]).2 != (#[trigger] tl[j]).2 by {
        if sl[i].2 == tl[j].2 {
            lemma_token_injective(tables, base, 1, sl[i].0, 3, tl[j].0);
        }
    }
    assert forall|i: int, j: int| 0 <= i < bl.len() && 0 <= j < tl.len() implies (
    #[trigger] bl[i]).2 != (#[trigger] tl[j]).2 by {
        if bl[i].2 == tl[j].2 {
            lemma_token_injective(tables, base, 2, bl[i].0, 3, tl[j].0);
        }
    }
}

} // verus!
