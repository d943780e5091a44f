//! Keeping a part of the entries of a corpus.

use vstd::prelude::*;
use std::collections::BTreeMap;
use crate::ngram::{unpack, valid_key, symbol_of};
use crate::table::{Entry, keys_increase, has_key};
use crate::sums::{count_sum, lemma_count_sum_push};
use crate::packed::{keys_valid, defined_in, is_defined};

verus! {

/// The entries of `entries` whose keys are in `keep`, in their order,
/// each with its count and the token 0.
pub open spec fn kept(entries: Seq<Entry>, keep: Set<u64>) -> Seq<Entry>
    decreases entries.len(),
{
    if entries.len() == 0 {
        entries
    } else {
        let rest = kept(entries.drop_last(), keep);
        if keep.contains(entries.last().0) {
            rest.push((entries.last().0, entries.last().1, 0))
        } else {
            rest
        }
    }
}

/// Whether `entries` has an entry with the key `key` and the count `count`.
pub open spec fn has_count(entries: Seq<Entry>, key: u64, count: usize) -> bool {
    exists|i: int|
        0 <= i < entries.len() && (#[trigger] entries[i]).0 == key && entries[i].1 == count
}

/// What is kept of a list in the order of its keys is in that order too,
/// is no longer and sums to no more; it holds the entries with a key to
/// keep, with their counts, and no others.
pub proof fn lemma_kept(entries: Seq<Entry>, keep: Set<u64>)
    requires
        keys_increase(entries),
    ensures
        keys_increase(kept(entries, keep)),
        kept(entries, keep).len() <= entries.len(),
        count_sum(kept(entries, keep)) <= count_sum(entries),
        forall|key: u64|
            #![trigger has_key(kept(entries, keep), key)]
            has_key(kept(entries, keep), key) <==> has_key(entries, key) && keep.contains(key),
        forall|j: int|
            0 <= j < kept(entries, keep).len() ==> has_count(
                entries,
                (#[trigger] kept(entries, keep)[j]).0,
                kept(entries, keep)[j].1,
            ),
    decreases entries.len(),
{
    let out = kept(entries, keep);
    if entries.len() > 0 {
        let rest_in = entries.drop_last();
        let rest = kept(rest_in, keep);
        let last = entries.last();
        lemma_kept(rest_in, keep);
        if keep.contains(last.0) {
            lemma_count_sum_push(rest, (last.0, last.1, 0));
        }
        assert forall|j: int| 0 <= j < out.len() implies has_count(
            entries,
            (#[trigger] out[j]).0,
            out[j].1,
        ) by {
            if j < rest.len() {
                assert(has_count(rest_in, rest[j].0, rest[j].1));
                let i = choose|i: int|
                    0 <= i < rest_in.len() && (#[trigger] rest_in[i]).0 == rest[j].0 && rest_in[i].1
                        == rest[j].1;
                assert(entries[i].0 == out[j].0);
            } else {
                assert(entries[entries.len() - 1].0 == out[j].0);
            }
        }
        assert forall|i: int, j: int| 0 <= i < j < out.len() implies out[i].0 < out[j].0 by {
            if j == rest.len() {
                assert(has_count(rest_in, rest[i].0, rest[i].1));
                let k = choose|k: int|
                    0 <= k < rest_in.len() && (#[trigger] rest_in[k]).0 == rest[i].0 && rest_in[k].1
                        == rest[i].1;
                assert(entries[k].0 < entries[entries.len() - 1].0);
            }
        }
        assert forall|key: u64|
            #![trigger has_key(out, key)]
            has_key(out, key) <==> has_key(entries, key) && keep.contains(key) by {
            if has_key(out, key) {
                let j = choose|j: int| 0 <= j < out.len() && (#[trigger] out[j]).0 == key;
                if j < rest.len() {
                    assert(has_key(rest, key));
                    assert(has_key(rest_in, key));
                    let i = choose|i: int| 0 <= i < rest_in.len() && (#[trigger] rest_in[i]).0 == key;
                    assert(entries[i].0 == key);
                } else {
                    assert(entries[entries.len() - 1].0 == key);
                }
            }
            if has_key(entries, key) && keep.contains(key) {
                let i = choose|i: int| 0 <= i < entries.len() && (#[trigger] entries[i]).0 == key;
                if i < rest_in.len() {
                    assert(rest_in[i].0 == key);
                    assert(has_key(rest_in, key));
                    assert(has_key(rest, key));
                    let j = choose|j: int| 0 <= j < rest.len() && (#[trigger] rest[j]).0 == key;
                    assert(out[j].0 == key);
                } else {
                    assert(out[out.len() - 1].0 == key);
                }
            }
        }
    }
}

/// Asks `f` of every symbol whether to keep it, and keeps those for
/// which it says yes.  The keys that were kept are returned as a map and
/// as a set.
pub(crate) fn keep_symbols<F: Fn(char) -> bool>(es0: &Vec<Entry>, f: &F) -> (r: (
    Vec<Entry>,
    BTreeMap<u64, (usize, usize)>,
    Ghost<Set<u64>>,
))
    requires
        keys_increase(es0@),
        keys_valid(es0@, 1),
        forall|c: char| f.requires((c,)),
    ensures
        r.0@ == kept(es0@, r.2@),
        forall|key: u64| r.1@.contains_key(key) <==> r.2@.contains(key),
        forall|key: u64| r.2@.contains(key) ==> has_key(es0@, key),
        forall|i: int|
            0 <= i < es0@.len() ==> f.ensures(
                (unpack((#[trigger] es0@[i]).0 as int, 1)[0],),
                r.2@.contains(es0@[i].0),
            ),
{
    let mut es: Vec<Entry> = Vec::new();
    let mut map: BTreeMap<u64, (usize, usize)> = BTreeMap::new();
    let ghost mut keep: Set<u64> = Set::empty();
    let mut i: usize = 0;
    while i < es0.len()
        invariant
            i <= es0@.len(),
            keys_increase(es0@),
            keys_valid(es0@, 1),
            forall|c: char| f.requires((c,)),
            es@ == kept(es0@.take(i as int), keep),
            forall|key: u64| map@.contains_key(key) <==> keep.contains(key),
            forall|key: u64| keep.contains(key) ==> has_key(es0@.take(i as int), key),
            forall|j: int|
                0 <= j < i ==> f.ensures(
                    (unpack((#[trigger] es0@[j]).0 as int, 1)[0],),
                    keep.contains(es0@[j].0),
                ),
        decreases es0@.len() - i,
    {
        let (key, count, _) = es0[i];
        assert(valid_key(es0@[i as int].0 as int, 1));
        let symbol = symbol_of(key);
        let yes = f(symbol[0]);
        let ghost before = keep;
        proof {
            let head = es0@.take(i as int);
            assert(es0@.take(i + 1).drop_last() =~= head);
            if before.contains(key) {
                assert(has_key(head, key));
                let j = choose|j: int| 0 <= j < head.len() && (#[trigger] head[j]).0 == key;
                assert(es0@[j].0 < es0@[i as int].0);
            }
            if yes {
                keep = before.insert(key);
            }
            lemma_kept_same(head, before, keep);
            assert forall|k: u64| keep.contains(k) implies has_key(es0@.take(i + 1), k) by {
                if k == key {
                    assert(es0@.take(i + 1)[i as int].0 == k);
                } else {
                    assert(has_key(head, k));
                    let j = choose|j: int| 0 <= j < head.len() && (#[trigger] head[j]).0 == k;
                    assert(es0@.take(i + 1)[j].0 == k);
                }
            }
            assert forall|j: int| 0 <= j < i + 1 implies f.ensures(
                (unpack((#[trigger] es0@[j]).0 as int, 1)[0],),
                keep.contains(es0@[j].0),
            ) by {
                if j < i {
                    assert(es0@[j].0 < es0@[i as int].0);
                }
            }
        }
        if yes {
            es.push((key, count, 0));
            map.insert(key, (count, 0));
        }
        i += 1;
    }
    assert(es0@.take(i as int) =~= es0@);
    (es, map, Ghost(keep))
}

/// Sets that agree on the keys of a list keep the same of it.
pub proof fn lemma_kept_same(entries: Seq<Entry>, a: Set<u64>, b: Set<u64>)
    requires
        forall|i: int|
            0 <= i < entries.len() ==> (a.contains((#[trigger] entries[i]).0) <==> b.contains(
                entries[i].0,
            )),
    ensures
        kept(entries, a) == kept(entries, b),
    decreases entries.len(),
{
    if entries.len() > 0 {
        lemma_kept_same(entries.drop_last(), a, b);
        assert(a.contains(entries[entries.len() - 1].0) <==> b.contains(
            entries[entries.len() - 1].0,
        ));
    }
}

/// The keys of the n-grams of `n` characters of which every symbol is
/// in `symbols`.
pub open spec fn defined_keys(symbols: Map<u64, (usize, usize)>, n: int) -> Set<u64> {
    Set::new(|key: u64| defined_in(symbols, key as int, n))
}

/// Keeps the bigrams or trigrams of which every symbol was kept.
pub(crate) fn keep_ngrams(e0: &Vec<Entry>, symbols: &BTreeMap<u64, (usize, usize)>, n: usize) -> (e: Vec<
    Entry,
>)
    requires
        2 <= n <= 3,
    ensures
        e@ == kept(e0@, defined_keys(symbols@, n as int)),
{
    let mut e: Vec<Entry> = Vec::new();
    let mut i: usize = 0;
    while i < e0.len()
        invariant
            i <= e0@.len(),
            2 <= n <= 3,
            e@ == kept(e0@.take(i as int), defined_keys(symbols@, n as int)),
        decreases e0@.len() - i,
    {
        let (key, count, _) = e0[i];
        assert(e0@.take(i + 1).drop_last() =~= e0@.take(i as int));
        if is_defined(symbols, key, n) {
            e.push((key, count, 0));
        }
        i += 1;
    }
    assert(e0@.take(i as int) =~= e0@);
    e
}

} // verus!
