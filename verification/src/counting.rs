//! Counting the n-grams of a text.

use vstd::prelude::*;
use std::collections::BTreeMap;
use crate::chars::is_whitespace_char;
use crate::ngram::{
    pack, unpack, valid_key, window_key, occurs_at, has_whitespace, is_counted, windows_count,
    ngram_count, lemma_pack_injective, lemma_unpack_pack, lemma_pack_unpack,
    lemma_occurrences_end,
};
use crate::table::{Entry, keys_increase, has_key, entries_of};
use crate::sums::{count_sum, map_sum, lemma_map_sum_insert, lemma_map_sum_remove, lemma_list_sum};
use crate::packed::keys_valid;

verus! {

/// Whether `m` holds the count of every n-gram of `n` characters among
/// the windows of `text` that start below `p`, and nothing else.
pub open spec fn counts_windows(
    m: Map<u64, (usize, usize)>,
    text: Seq<char>,
    n: int,
    p: int,
) -> bool {
    &&& forall|key: u64| #[trigger] m.contains_key(key) ==> valid_key(key as int, n)
    &&& forall|g: Seq<char>|
        #![trigger pack(g)]
        g.len() == n ==> (m.contains_key(pack(g) as u64) <==> windows_count(text, g, p) > 0)
    &&& forall|g: Seq<char>|
        #![trigger pack(g)]
        g.len() == n && m.contains_key(pack(g) as u64) ==> m[pack(g) as u64].0 == windows_count(
            text,
            g,
            p,
        )
}

/// How many windows of `n` characters `text` has.
pub open spec fn windows(text: Seq<char>, n: int) -> int {
    if text.len() < n {
        0
    } else {
        text.len() - n + 1
    }
}

/// Whether `entries` holds the count of every n-gram of `n` characters
/// that `text` has, and nothing else.
pub open spec fn counts_text(entries: Seq<Entry>, text: Seq<char>, n: int) -> bool {
    &&& keys_valid(entries, n)
    &&& forall|g: Seq<char>|
        #![trigger pack(g)]
        g.len() == n ==> (has_key(entries, pack(g) as u64) <==> ngram_count(text, g) > 0)
    &&& forall|i: int|
        0 <= i < entries.len() ==> (#[trigger] entries[i]).1 == ngram_count(
            text,
            unpack(entries[i].0 as int, n),
        )
}

/// Tells whether the window of `n` characters at `p` holds whitespace.
fn window_has_whitespace(chars: &Vec<char>, p: usize, n: usize) -> (r: bool)
    requires
        1 <= n <= 3,
        p + n <= chars.len(),
    ensures
        r == has_whitespace(chars@.subrange(p as int, p + n)),
{
    let ghost w = chars@.subrange(p as int, p + n);
    let mut i: usize = 0;
    while i < n
        invariant
            i <= n,
            p + n <= chars.len(),
            w == chars@.subrange(p as int, p + n),
            forall|j: int| 0 <= j < i ==> !is_whitespace_char(#[trigger] w[j]),
        decreases n - i,
    {
        if chars[p + i].is_whitespace() {
            assert(is_whitespace_char(w[i as int]));
            return true;
        }
        i += 1;
    }
    false
}

/// Counts one more occurrence of the n-gram with the key `key`.
fn count_one(map: &mut BTreeMap<u64, (usize, usize)>, key: u64) -> (count: usize)
    requires
        map_sum(old(map)@) < usize::MAX,
    ensures
        final(map)@ == old(map)@.insert(key, (count, 0)),
        count == if old(map)@.contains_key(key) { old(map)@[key].0 + 1 } else { 1 },
        map_sum(final(map)@) == map_sum(old(map)@) + 1,
{
    proof {
        broadcast use vstd::std_specs::btree::axiom_btree_map_view_finite_dom;

        assert(map@.dom().finite());
        if map@.contains_key(key) {
            lemma_map_sum_remove(map@, key);
        }
    }
    let before: usize = match map.get(&key) {
        Some(e) => e.0,
        None => 0,
    };
    proof {
        lemma_map_sum_insert(map@, key, ((before + 1) as usize, 0));
    }
    map.insert(key, (before + 1, 0));
    before + 1
}

/// Counts the n-grams of `n` characters in `chars`.  A bigram or trigram
/// that holds whitespace is not counted.  The entries come in the order
/// of their keys, each with the token 0.
pub(crate) fn count_windows(chars: &Vec<char>, n: usize) -> (entries: Vec<Entry>)
    requires
        1 <= n <= 3,
    ensures
        keys_increase(entries@),
        counts_text(entries@, chars@, n as int),
        count_sum(entries@) <= windows(chars@, n as int),
        n == 1 ==> count_sum(entries@) == chars@.len(),
{
    let mut map: BTreeMap<u64, (usize, usize)> = BTreeMap::new();
    let len = chars.len();
    let ghost text = chars@;
    let mut p: usize = 0;
    proof {
        broadcast use vstd::std_specs::btree::axiom_btree_map_view_finite_dom;

        assert(map@.dom().finite());
        assert(map_sum(map@) == 0);
    }
    while n <= len && p <= len - n
        invariant
            1 <= n <= 3,
            len == chars.len(),
            text == chars@,
            p <= len,
            counts_windows(map@, text, n as int, p as int),
            map_sum(map@) <= p,
            p <= windows(text, n as int),
            n == 1 ==> map_sum(map@) == p,
        decreases len - p,
    {
        let ghost w = text.subrange(p as int, p + n);
        let ghost before = map@;
        let skip = n >= 2 && window_has_whitespace(chars, p, n);
        if !skip {
            let key = window_key(chars, p, n);
            let count = count_one(&mut map, key);
            proof {
                assert(is_counted(w));
                assert forall|g: Seq<char>| #![trigger pack(g)] g.len() == n implies (
                map@.contains_key(pack(g) as u64) <==> windows_count(text, g, p + 1) > 0) && (
                map@.contains_key(pack(g) as u64) ==> map@[pack(g) as u64].0 == windows_count(
                    text,
                    g,
                    p + 1,
                )) by {
                    lemma_unpack_pack(g);
                    lemma_unpack_pack(w);
                    if pack(g) == pack(w) {
                        lemma_pack_injective(g, w);
                        assert(occurs_at(text, g, p as int));
                    } else {
                        assert(!occurs_at(text, g, p as int));
                    }
                }
            }
        } else {
            proof {
                assert forall|g: Seq<char>| #![trigger pack(g)] g.len() == n implies (
                map@.contains_key(pack(g) as u64) <==> windows_count(text, g, p + 1) > 0) && (
                map@.contains_key(pack(g) as u64) ==> map@[pack(g) as u64].0 == windows_count(
                    text,
                    g,
                    p + 1,
                )) by {
                    if occurs_at(text, g, p as int) {
                        assert(g =~= w);
                        assert(!is_counted(g));
                    }
                }
            }
        }
        p += 1;
    }
    let entries = entries_of(&map);
    proof {
        broadcast use vstd::std_specs::btree::axiom_btree_map_view_finite_dom;

        assert(map@.dom().finite());
        lemma_list_sum(entries@, map@);
        assert forall|g: Seq<char>| #![trigger pack(g)] g.len() == n implies windows_count(
            text,
            g,
            p as int,
        ) == ngram_count(text, g) by {
            lemma_occurrences_end(text, g, p as int);
            lemma_occurrences_end(text, g, text.len() as int);
        }
        assert forall|g: Seq<char>| #![trigger pack(g)] g.len() == n implies (has_key(
            entries@,
            pack(g) as u64,
        ) <==> ngram_count(text, g) > 0) by {
            let key = pack(g) as u64;
            if has_key(entries@, key) {
                let i = choose|i: int| 0 <= i < entries@.len() && (#[trigger] entries@[i]).0 == key;
                assert(map@.contains_key(entries@[i].0));
            }
        }
        assert forall|i: int| 0 <= i < entries@.len() implies (#[trigger] entries@[i]).1
            == ngram_count(text, unpack(entries@[i].0 as int, n as int)) && valid_key(
            entries@[i].0 as int,
            n as int,
        ) by {
            let key = entries@[i].0;
            assert(map@.contains_key(key));
            lemma_pack_unpack(key as int, n as int);
            let g = unpack(key as int, n as int);
            assert(pack(g) as u64 == key);
        }
    }
    entries
}

} // verus!
