//! Ranking a list of entries: the largest count first, and of entries
//! with one count the one with the smaller key.

use vstd::prelude::*;
use vstd::seq_lib::{lemma_multiset_commutative, to_multiset_build, to_multiset_contains};
use crate::table::{Entry, keys_increase};

verus! {

/// Whether `a` stands before `b` in a ranked list.
pub open spec fn ranks_above(a: Entry, b: Entry) -> bool {
    a.1 > b.1 || (a.1 == b.1 && a.0 < b.0)
}

/// Whether every entry of `entries` stands before those that follow it.
pub open spec fn is_ranked(entries: Seq<Entry>) -> bool {
    forall|i: int, j: int| 0 <= i < j < entries.len() ==> ranks_above(entries[i], entries[j])
}

/// Whether every key of `a` is below every key of `b`.
pub open spec fn keys_below(a: Seq<Entry>, b: Seq<Entry>) -> bool {
    forall|i: int, j: int| 0 <= i < a.len() && 0 <= j < b.len() ==> a[i].0 < b[j].0
}

/// Merges two ranked lists into one.
fn merge(a: &Vec<Entry>, b: &Vec<Entry>) -> (out: Vec<Entry>)
    requires
        is_ranked(a@),
        is_ranked(b@),
        keys_below(a@, b@),
    ensures
        is_ranked(out@),
        out@.to_multiset() == a@.to_multiset().add(b@.to_multiset()),
        out@.len() == a@.len() + b@.len(),
{
    let mut out: Vec<Entry> = Vec::new();
    let mut i: usize = 0;
    let mut j: usize = 0;
    proof {
        broadcast use vstd::seq_lib::group_to_multiset_ensures;

        assert(out@ =~= Seq::<Entry>::empty());
        assert(a@.take(0) =~= Seq::<Entry>::empty());
        assert(b@.take(0) =~= Seq::<Entry>::empty());
        assert(out@.to_multiset() =~= a@.take(0).to_multiset().add(b@.take(0).to_multiset()));
    }
    while i < a.len() || j < b.len()
        invariant
            i <= a@.len(),
            j <= b@.len(),
            is_ranked(a@),
            is_ranked(b@),
            keys_below(a@, b@),
            is_ranked(out@),
            out@.len() == i + j,
            out@.to_multiset() == a@.take(i as int).to_multiset().add(
                b@.take(j as int).to_multiset(),
            ),
            forall|x: int, y: int|
                0 <= x < out@.len() && i <= y < a@.len() ==> ranks_above(out@[x], a@[y]),
            forall|x: int, y: int|
                0 <= x < out@.len() && j <= y < b@.len() ==> ranks_above(out@[x], b@[y]),
        decreases a@.len() - i + b@.len() - j,
    {
        let from_a = if j >= b.len() {
            true
        } else if i >= a.len() {
            false
        } else {
            a[i].1 >= b[j].1
        };
        let ghost before = out@;
        if from_a {
            let e = a[i];
            out.push(e);
            proof {
                to_multiset_build(before, e);
                to_multiset_build(a@.take(i as int), e);
                assert(a@.take(i + 1) =~= a@.take(i as int).push(e));
                assert(out@.to_multiset() =~= a@.take(i + 1).to_multiset().add(
                    b@.take(j as int).to_multiset(),
                ));
                assert forall|y: int| j <= y < b@.len() implies ranks_above(e, b@[y]) by {
                    if y > j {
                        assert(ranks_above(b@[j as int], b@[y]));
                    }
                }
            }
            i += 1;
        } else {
            let e = b[j];
            out.push(e);
            proof {
                to_multiset_build(before, e);
                to_multiset_build(b@.take(j as int), e);
                assert(b@.take(j + 1) =~= b@.take(j as int).push(e));
                assert(out@.to_multiset() =~= a@.take(i as int).to_multiset().add(
                    b@.take(j + 1).to_multiset(),
                ));
                assert forall|y: int| i <= y < a@.len() implies ranks_above(e, a@[y]) by {
                    if y > i {
                        assert(ranks_above(a@[i as int], a@[y]));
                    }
                }
            }
            j += 1;
        }
    }
    proof {
        assert(a@.take(i as int) =~= a@);
        assert(b@.take(j as int) =~= b@);
    }
    out
}

/// Copies the entries of `v` from `from` up to `to`.
fn slice_of(v: &Vec<Entry>, from: usize, to: usize) -> (part: Vec<Entry>)
    requires
        from <= to <= v@.len(),
    ensures
        part@ == v@.subrange(from as int, to as int),
{
    let mut part: Vec<Entry> = Vec::new();
    let mut i: usize = from;
    while i < to
        invariant
            from <= i <= to,
            to <= v@.len(),
            part@ == v@.subrange(from as int, i as int),
        decreases to - i,
    {
        part.push(v[i]);
        assert(v@.subrange(from as int, i + 1) =~= v@.subrange(from as int, i as int).push(
            v@[i as int],
        ));
        i += 1;
    }
    part
}

/// Ranks entries that come in the order of their keys: the largest count
/// first, and entries with one count in the order of their keys.
pub(crate) fn sort_by_count(v: Vec<Entry>) -> (out: Vec<Entry>)
    requires
        keys_increase(v@),
    ensures
        is_ranked(out@),
        out@.to_multiset() == v@.to_multiset(),
        out@.len() == v@.len(),
    decreases v@.len(),
{
    let n = v.len();
    if n <= 1 {
        return v;
    }
    let mid = n / 2;
    let left = slice_of(&v, 0, mid);
    let right = slice_of(&v, mid, n);
    proof {
        assert(v@ =~= left@ + right@);
        lemma_multiset_commutative(left@, right@);
    }
    let ghost left_in = left@;
    let ghost right_in = right@;
    let left = sort_by_count(left);
    let right = sort_by_count(right);
    proof {
        assert forall|i: int, j: int|
            0 <= i < left@.len() && 0 <= j < right@.len() implies left@[i].0 < right@[j].0 by {
            to_multiset_contains(left@, left@[i]);
            to_multiset_contains(left_in, left@[i]);
            to_multiset_contains(right@, right@[j]);
            to_multiset_contains(right_in, right@[j]);
            assert(left@.contains(left@[i]));
            assert(right@.contains(right@[j]));
            let x = choose|x: int| 0 <= x < left_in.len() && left_in[x] == left@[i];
            let y = choose|y: int| 0 <= y < right_in.len() && right_in[y] == right@[j];
            assert(v@[x] == left_in[x]);
            assert(v@[mid + y] == right_in[y]);
        }
    }
    merge(&left, &right)
}

} // verus!
