//! Reading an ordered map of n-gram keys in the order of its keys.

use vstd::prelude::*;
use vstd::std_specs::btree::{spec_keys_iter, axiom_spec_keys_iter, axiom_increasing_seq_meaning};
use vstd::std_specs::cmp::OrdSpec;
use vstd::std_specs::iter::IteratorSpec;
use std::collections::BTreeMap;

verus! {

/// A key with its count and its token.
pub type Entry = (u64, usize, usize);

/// Whether the keys of `entries` grow from each entry to the next.
pub open spec fn keys_increase(entries: Seq<Entry>) -> bool {
    forall|i: int, j: int| 0 <= i < j < entries.len() ==> entries[i].0 < entries[j].0
}

/// Whether some entry of `entries` has the key `key`.
pub open spec fn has_key(entries: Seq<Entry>, key: u64) -> bool {
    exists|i: int| 0 <= i < entries.len() && (#[trigger] entries[i]).0 == key
}

/// Whether `entries` lists what `m` holds, each key once.
pub open spec fn lists_map(entries: Seq<Entry>, m: Map<u64, (usize, usize)>) -> bool {
    &&& entries.len() == m.dom().len()
    &&& forall|i: int|
        0 <= i < entries.len() ==> m.contains_key((#[trigger] entries[i]).0) && m[entries[i].0] == (
            entries[i].1,
            entries[i].2,
        )
    &&& forall|key: u64| m.contains_key(key) ==> #[trigger] has_key(entries, key)
}

/// The keys of a map, smallest first.
fn keys_of(m: &BTreeMap<u64, (usize, usize)>) -> (keys: Vec<u64>)
    ensures
        keys@.to_set() == m@.dom(),
        keys@.no_duplicates(),
        keys@.len() == m@.dom().len(),
        forall|i: int, j: int| 0 <= i < j < keys@.len() ==> keys@[i] < keys@[j],
{
    let mut keys: Vec<u64> = Vec::new();
    for k in it: m.keys()
        invariant
            keys@.len() == it.index(),
            forall|j: int| 0 <= j < keys@.len() ==> keys@[j] == *it.seq()[j],
            it.seq() == spec_keys_iter(m).remaining(),
    {
        keys.push(*k);
    }
    proof {
        broadcast use vstd::laws_cmp::group_laws_cmp;

        let r = spec_keys_iter(m).remaining();
        axiom_spec_keys_iter(m);
        assert(keys@ =~= r.unref());
        axiom_increasing_seq_meaning::<&u64>(r);
        assert forall|i: int, j: int| 0 <= i < j < keys@.len() implies keys@[i] < keys@[j] by {
            assert(OrdSpec::cmp_spec(&r[i], &r[j]) is Less);
        }
    }
    keys
}

/// What a map holds, in the order of its keys.
pub(crate) fn entries_of(m: &BTreeMap<u64, (usize, usize)>) -> (entries: Vec<Entry>)
    ensures
        lists_map(entries@, m@),
        keys_increase(entries@),
{
    let keys = keys_of(m);
    let mut entries: Vec<Entry> = Vec::new();
    let mut i: usize = 0;
    while i < keys.len()
        invariant
            i <= keys@.len(),
            keys@.to_set() == m@.dom(),
            entries@.len() == i,
            forall|j: int|
                0 <= j < i ==> (#[trigger] entries@[j]).0 == keys@[j] && m@.contains_key(keys@[j])
                    && m@[keys@[j]] == (entries@[j].1, entries@[j].2),
        decreases keys@.len() - i,
    {
        let key = keys[i];
        assert(keys@.to_set().contains(key));
        let value = m.get(&key).unwrap();
        entries.push((key, value.0, value.1));
        i += 1;
    }
    proof {
        assert forall|key: u64| m@.contains_key(key) implies #[trigger] has_key(
            entries@,
            key,
        ) by {
            assert(keys@.to_set().contains(key));
            let j = choose|j: int| 0 <= j < keys@.len() && keys@[j] == key;
            assert(entries@[j].0 == key);
        }
    }
    entries
}

} // verus!
