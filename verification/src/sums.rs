//! Sums of counts, over a list of entries and over a map, and why both
//! give the same number.

use vstd::prelude::*;
use crate::table::{Entry, lists_map, has_key};

verus! {

/// The sum of the counts of `entries`.
pub open spec fn count_sum(entries: Seq<Entry>) -> nat
    decreases entries.len(),
{
    if entries.len() == 0 {
        0
    } else {
        count_sum(entries.drop_last()) + entries.last().1 as nat
    }
}

/// The sum of the counts of a finite map.
pub open spec fn map_sum(m: Map<u64, (usize, usize)>) -> nat
    decreases m.dom().len(),
    when m.dom().finite()
{
    if m.dom().len() == 0 {
        0
    } else {
        let key = m.dom().choose();
        m[key].0 as nat + map_sum(m.remove(key))
    }
}

/// Adding an entry at the end adds its count.
pub proof fn lemma_count_sum_push(entries: Seq<Entry>, e: Entry)
    ensures
        count_sum(entries.push(e)) == count_sum(entries) + e.1,
{
    assert(entries.push(e).drop_last() =~= entries);
}

/// The sum of a list is the sum of its two parts.
pub proof fn lemma_count_sum_split(entries: Seq<Entry>, n: int)
    requires
        0 <= n <= entries.len(),
    ensures
        count_sum(entries) == count_sum(entries.take(n)) + count_sum(entries.skip(n)),
    decreases entries.len(),
{
    if n == entries.len() {
        assert(entries.take(n) =~= entries);
        assert(entries.skip(n) =~= Seq::<Entry>::empty());
    } else {
        lemma_count_sum_split(entries.drop_last(), n);
        assert(entries.drop_last().take(n) =~= entries.take(n));
        assert(entries.skip(n).drop_last() =~= entries.drop_last().skip(n));
    }
}

/// The sum of a map is the count at any of its keys plus the sum of the rest.
pub proof fn lemma_map_sum_remove(m: Map<u64, (usize, usize)>, key: u64)
    requires
        m.dom().finite(),
        m.contains_key(key),
    ensures
        map_sum(m) == m[key].0 + map_sum(m.remove(key)),
    decreases m.dom().len(),
{
    let chosen = m.dom().choose();
    if chosen != key {
        lemma_map_sum_remove(m.remove(chosen), key);
        lemma_map_sum_remove(m.remove(key), chosen);
        assert(m.remove(chosen).remove(key) =~= m.remove(key).remove(chosen));
    }
}

/// Setting the count of one key changes the sum by the difference.
pub proof fn lemma_map_sum_insert(m: Map<u64, (usize, usize)>, key: u64, value: (usize, usize))
    requires
        m.dom().finite(),
    ensures
        map_sum(m.insert(key, value)) == value.0 + map_sum(m) - if m.contains_key(key) {
            m[key].0 as int
        } else {
            0
        },
{
    lemma_map_sum_remove(m.insert(key, value), key);
    if m.contains_key(key) {
        lemma_map_sum_remove(m, key);
        assert(m.insert(key, value).remove(key) =~= m.remove(key));
    } else {
        assert(m.insert(key, value).remove(key) =~= m);
    }
}

/// A list of what a map holds has the sum of the map.
pub proof fn lemma_list_sum(entries: Seq<Entry>, m: Map<u64, (usize, usize)>)
    requires
        m.dom().finite(),
        lists_map(entries, m),
    ensures
        count_sum(entries) == map_sum(m),
    decreases entries.len(),
{
    if entries.len() == 0 {
        assert(m.dom().len() == 0);
    } else {
        let last = entries.last();
        let rest = entries.drop_last();
        let smaller = m.remove(last.0);
        lemma_map_sum_remove(m, last.0);
        lemma_keys_differ(entries, m);
        assert(lists_map(rest, smaller)) by {
            assert forall|key: u64| smaller.contains_key(key) implies #[trigger] has_key(
                rest,
                key,
            ) by {
                assert(has_key(entries, key));
                let i = choose|i: int| 0 <= i < entries.len() && (#[trigger] entries[i]).0 == key;
                assert(rest[i].0 == key);
            }
        }
        lemma_list_sum(rest, smaller);
    }
}

/// A list that is as long as the map it lists holds no key twice.
pub proof fn lemma_keys_differ(entries: Seq<Entry>, m: Map<u64, (usize, usize)>)
    requires
        m.dom().finite(),
        lists_map(entries, m),
    ensures
        forall|i: int, j: int|
            0 <= i < j < entries.len() ==> (#[trigger] entries[i]).0 != (#[trigger] entries[j]).0,
{
    let keys = entries.map_values(|e: Entry| e.0);
    assert(keys.to_set() =~= m.dom()) by {
        assert forall|key: u64| m.dom().contains(key) implies keys.to_set().contains(key) by {
            assert(has_key(entries, key));
            let i = choose|i: int| 0 <= i < entries.len() && (#[trigger] entries[i]).0 == key;
            assert(keys[i] == key);
        }
        assert forall|key: u64| keys.to_set().contains(key) implies m.dom().contains(key) by {
            let i = choose|i: int| 0 <= i < keys.len() && keys[i] == key;
            assert(m.contains_key(entries[i].0));
        }
    }
    keys.lemma_no_dup_set_cardinality();
    assert forall|i: int, j: int| 0 <= i < j < entries.len() implies (#[trigger] entries[i]).0 != (
    #[trigger] entries[j]).0 by {
        assert(keys[i] == entries[i].0 && keys[j] == entries[j].0);
    }
}

} // verus!
