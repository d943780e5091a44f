//! Changing a layout at random: the steps of a search.  Every step moves
//! keys about; none adds or drops a key.

use vstd::prelude::*;
use vstd::seq_lib::to_multiset_update;
use rand::Rng;
use rand::rngs::SmallRng;
use rand::seq::SliceRandom;
use crate::layout::Layout;
use crate::model::KuehlmakModel;
use crate::geometry::{key_finger, finger_home_col};

verus! {

/// The small fast generator of `rand`.  Nothing is known of what is in it.
#[verifier::external_type_specification]
#[verifier::external_body]
pub struct ExSmallRng(SmallRng);

/// Draws a number below `n` with `Rng::gen_range`, which gives a number
/// of the range it is handed and panics on an empty range.
#[verifier::external_body]
fn random_below(rng: &mut SmallRng, n: usize) -> (r: usize)
    requires
        n > 0,
    ensures
        r < n,
{
    rng.gen_range(0..n)
}

/// Shuffles the keys with `SliceRandom::shuffle`, which swaps elements
/// of the slice and so keeps what the slice holds.
#[verifier::external_body]
fn shuffle_keys(layout: &mut Layout, rng: &mut SmallRng)
    ensures
        final(layout)@.to_multiset() == old(layout)@.to_multiset(),
{
    layout.shuffle(rng);
}

/// Whether `b` has the keys of `a`, each as often as `a` has it.
pub open spec fn same_keys(a: Layout, b: Layout) -> bool {
    a@.to_multiset() == b@.to_multiset()
}

/// The layout with the keys `i` and `j` swapped.
pub open spec fn swapped(layout: Seq<[char; 2]>, i: int, j: int) -> Seq<[char; 2]> {
    layout.update(i, layout[j]).update(j, layout[i])
}

/// Swapping two keys keeps the keys.
pub proof fn lemma_swapped_same_keys(layout: Seq<[char; 2]>, i: int, j: int)
    requires
        0 <= i < layout.len(),
        0 <= j < layout.len(),
    ensures
        swapped(layout, i, j).to_multiset() == layout.to_multiset(),
{
    broadcast use vstd::multiset::group_multiset_axioms;

    if i == j {
        assert(swapped(layout, i, j) =~= layout);
    } else {
        let a = layout[i];
        let b = layout[j];
        let m = layout.to_multiset();
        let first = layout.update(i, b);
        assert(first.len() == layout.len());
        assert(first[j] == b);
        to_multiset_update(layout, i, b);
        to_multiset_update(first, j, a);
        assert(first.to_multiset() == m.insert(b).remove(a));
        assert(swapped(layout, i, j).to_multiset() == m.insert(b).remove(a).insert(a).remove(b));
        vstd::seq_lib::to_multiset_contains(layout, a);
        vstd::seq_lib::to_multiset_contains(layout, b);
        assert(layout.contains(a) && layout.contains(b));
        assert(m.count(a) > 0 && m.count(b) > 0);
        assert(m.insert(b).remove(a).insert(a).remove(b) =~= m);
    }
}

/// The layout to start a search from: the given layout, shuffled if
/// asked for.
pub fn start_layout(layout: &Layout, shuffle: bool, rng: &mut SmallRng) -> (start: Layout)
    ensures
        same_keys(*layout, start),
        !shuffle ==> start@ == layout@,
{
    let mut start = *layout;
    if shuffle {
        shuffle_keys(&mut start, rng);
    }
    start
}

/// Swaps two keys.
pub fn swap_keys(layout: &Layout, i: usize, j: usize) -> (r: Layout)
    requires
        i < 30,
        j < 30,
    ensures
        r@ == swapped(layout@, i as int, j as int),
        same_keys(*layout, r),
{
    let mut r = *layout;
    let a = layout[i];
    let b = layout[j];
    r[i] = b;
    r[j] = a;
    proof {
        lemma_swapped_same_keys(layout@, i as int, j as int);
    }
    r
}

/// The key that changes places with key `k` when the rows `r1` and `r2`
/// are swapped under the hand `hand`.
pub open spec fn row_partner(k: int, hand: int, r1: int, r2: int) -> int {
    if (k % 10) / 5 != hand {
        k
    } else if k / 10 == r1 {
        r2 * 10 + k % 10
    } else if k / 10 == r2 {
        r1 * 10 + k % 10
    } else {
        k
    }
}

/// The layout with the rows `r1` and `r2` swapped under the hand `hand`.
pub open spec fn rows_swapped(layout: Layout, hand: int, r1: int, r2: int) -> Seq<[char; 2]> {
    Seq::new(30, |k: int| layout[row_partner(k, hand, r1, r2)])
}

/// Swaps two rows under one hand.
pub fn swap_rows(layout: &Layout, hand: usize, r1: usize, r2: usize) -> (r: Layout)
    requires
        hand < 2,
        r1 < 3,
        r2 < 3,
    ensures
        r@ == rows_swapped(*layout, hand as int, r1 as int, r2 as int),
        same_keys(*layout, r),
{
    let mut r = *layout;
    let mut c: usize = 0;
    while c < 5
        invariant
            c <= 5,
            hand < 2,
            r1 < 3,
            r2 < 3,
            same_keys(*layout, r),
            forall|k: int|
                0 <= k < 30 ==> #[trigger] r[k] == if k % 10 - hand * 5 < c {
                    layout[row_partner(k, hand as int, r1 as int, r2 as int)]
                } else {
                    layout[k]
                },
        decreases 5 - c,
    {
        let a = r1 * 10 + hand * 5 + c;
        let b = r2 * 10 + hand * 5 + c;
        r = swap_keys(&r, a, b);
        c += 1;
    }
    assert(r@ =~= rows_swapped(*layout, hand as int, r1 as int, r2 as int));
    r
}

/// The key that changes places with key `k` when the columns `c1` and
/// `c2` are swapped.
pub open spec fn column_partner(k: int, c1: int, c2: int) -> int {
    if k % 10 == c1 {
        k / 10 * 10 + c2
    } else if k % 10 == c2 {
        k / 10 * 10 + c1
    } else {
        k
    }
}

/// The layout with the columns `c1` and `c2` swapped.
pub open spec fn columns_swapped(layout: Layout, c1: int, c2: int) -> Seq<[char; 2]> {
    Seq::new(30, |k: int| layout[column_partner(k, c1, c2)])
}

/// Swaps two columns, which is how two fingers change places.  But for
/// the shifted top row of a hexagonal board, a finger types one column
/// and an index finger two, the second by a stretch.  So the columns of
/// two fingers other than the index finger hold all that the two type,
/// and swapping them swaps the fingers.  An index finger holds twice as
/// many keys as another finger and cannot change places with it key for
/// key: of an index finger one column is swapped at a time, against the
/// column of another finger or against its own second column.
pub fn swap_columns(layout: &Layout, c1: usize, c2: usize) -> (r: Layout)
    requires
        c1 < 10,
        c2 < 10,
    ensures
        r@ == columns_swapped(*layout, c1 as int, c2 as int),
        same_keys(*layout, r),
{
    let mut r = *layout;
    let mut row: usize = 0;
    while row < 3
        invariant
            row <= 3,
            c1 < 10,
            c2 < 10,
            same_keys(*layout, r),
            forall|k: int|
                0 <= k < 30 ==> #[trigger] r[k] == if k / 10 < row {
                    layout[column_partner(k, c1 as int, c2 as int)]
                } else {
                    layout[k]
                },
        decreases 3 - row,
    {
        r = swap_keys(&r, row * 10 + c1, row * 10 + c2);
        row += 1;
    }
    assert(r@ =~= columns_swapped(*layout, c1 as int, c2 as int));
    r
}

/// The number of ways in which `neighbor` can change a layout.
pub const MUTATIONS: usize = 5;

/// Whether `next` is `layout` with two keys swapped that are at most
/// `window` places apart in the ranking.
pub open spec fn is_ranked_swap(
    layout: Layout,
    next: Layout,
    ranking: Seq<usize>,
    window: int,
) -> bool {
    exists|r: int, s: int|
        0 <= r && 1 <= s <= window && r + s < 30 && next@ == #[trigger] swapped(
            layout@,
            ranking[r] as int,
            ranking[r + s] as int,
        )
}

/// Whether `next` is `layout` with two different keys of one finger
/// swapped.
pub open spec fn is_finger_swap(layout: Layout, next: Layout, model: &KuehlmakModel) -> bool {
    exists|i: int, j: int|
        0 <= i < 30 && 0 <= j < 30 && i != j && key_finger(model.board(), i) == key_finger(
            model.board(),
            j,
        ) && next@ == #[trigger] swapped(layout@, i, j)
}

/// Whether `next` is `layout` with two different keys swapped.
pub open spec fn is_key_swap(layout: Layout, next: Layout) -> bool {
    exists|i: int, j: int|
        0 <= i < 30 && 0 <= j < 30 && i != j && next@ == #[trigger] swapped(layout@, i, j)
}

/// Whether `next` is `layout` with two different columns of one hand
/// swapped.
pub open spec fn is_column_swap(layout: Layout, next: Layout) -> bool {
    exists|c1: int, c2: int|
        0 <= c1 < 10 && 0 <= c2 < 10 && c1 != c2 && c1 / 5 == c2 / 5 && next@
            == #[trigger] columns_swapped(layout, c1, c2)
}

/// Whether `next` is `layout` with two different rows of one hand
/// swapped.
pub open spec fn is_row_swap(layout: Layout, next: Layout) -> bool {
    exists|hand: int, r1: int, r2: int|
        0 <= hand < 2 && 0 <= r1 < 3 && 0 <= r2 < 3 && r1 != r2 && next@
            == #[trigger] rows_swapped(layout, hand, r1, r2)
}

/// Every finger has more than one key: a key of the middle row shares
/// its finger with the key below it, and any other key with the key on
/// which its finger rests.
pub proof fn lemma_finger_has_another_key(board: crate::geometry::KeyboardType, k: int) -> (j: int)
    requires
        0 <= k < 30,
    ensures
        0 <= j < 30,
        j != k,
        key_finger(board, j) == key_finger(board, k),
{
    if k / 10 == 1 {
        k + 10
    } else {
        10 + finger_home_col(key_finger(board, k))
    }
}

/// Whether `next` is `layout` changed in one of the first `ways` ways.
pub open spec fn is_neighbor(
    layout: Layout,
    next: Layout,
    model: &KuehlmakModel,
    ways: int,
    window: int,
) -> bool {
    ||| is_ranked_swap(layout, next, model.ranking(), window)
    ||| (ways >= 2 && is_finger_swap(layout, next, model))
    ||| (ways >= 3 && is_key_swap(layout, next))
    ||| (ways >= 4 && is_column_swap(layout, next))
    ||| (ways >= 5 && is_row_swap(layout, next))
}

/// Changes a layout in one of up to five ways, chosen at random among
/// the first `ways`: it swaps two keys that are near each other in the
/// ranking by cost, two keys of one finger, any two keys, two columns of
/// one hand (see `swap_columns` for how columns stand for fingers), or
/// two rows of one hand.  The keys, columns or rows swapped are always
/// two different ones.  The later ways move more keys, so a caller that
/// wants small steps only hands in a small `ways`.  `window` is how far
/// apart in the ranking the keys of the first way may be.  Which way is
/// taken, and with which keys, is left to chance.
pub fn neighbor(
    rng: &mut SmallRng,
    layout: &Layout,
    model: &KuehlmakModel,
    ways: usize,
    window: usize,
) -> (next: Layout)
    requires
        model.wf(),
        1 <= ways <= MUTATIONS,
        1 <= window < 30,
    ensures
        same_keys(*layout, next),
        is_neighbor(*layout, next, model, ways as int, window as int),
{
    let way = random_below(rng, ways);
    if way == 0 {
        let ranking = model.key_cost_ranking();
        let first = random_below(rng, 30 - window);
        let step = 1 + random_below(rng, window);
        let next = swap_keys(layout, ranking[first], ranking[first + step]);
        assert(is_ranked_swap(*layout, next, model.ranking(), window as int)) by {
            assert(next@ == swapped(
                layout@,
                ranking@[first as int] as int,
                ranking@[first + step] as int,
            ));
        }
        next
    } else if way == 1 {
        let i = random_below(rng, 30);
        let finger = model.key_props(i).finger;
        let others = keys_of_finger(model, finger, i);
        proof {
            let other = lemma_finger_has_another_key(model.board(), i as int);
            assert(others@.contains(other as usize));
        }
        let j = others[random_below(rng, others.len())];
        let next = swap_keys(layout, i, j);
        assert(is_finger_swap(*layout, next, model)) by {
            assert(next@ == swapped(layout@, i as int, j as int));
        }
        next
    } else if way == 2 {
        let i = random_below(rng, 30);
        let j = (i + 1 + random_below(rng, 29)) % 30;
        let next = swap_keys(layout, i, j);
        assert(is_key_swap(*layout, next)) by {
            assert(next@ == swapped(layout@, i as int, j as int));
        }
        next
    } else if way == 3 {
        let hand = random_below(rng, 2);
        let c1 = random_below(rng, 5);
        let c2 = (c1 + 1 + random_below(rng, 4)) % 5;
        let next = swap_columns(layout, hand * 5 + c1, hand * 5 + c2);
        assert(is_column_swap(*layout, next)) by {
            assert(next@ == columns_swapped(*layout, (hand * 5 + c1) as int, (hand * 5 + c2) as int));
        }
        next
    } else {
        let hand = random_below(rng, 2);
        let r1 = random_below(rng, 3);
        let r2 = (r1 + 1 + random_below(rng, 2)) % 3;
        let next = swap_rows(layout, hand, r1, r2);
        assert(is_row_swap(*layout, next)) by {
            assert(next@ == rows_swapped(*layout, hand as int, r1 as int, r2 as int));
        }
        next
    }
}

/// The keys of a finger, but for the key `but`.
fn keys_of_finger(model: &KuehlmakModel, finger: u8, but: usize) -> (keys: Vec<usize>)
    requires
        model.wf(),
    ensures
        forall|i: int|
            0 <= i < keys@.len() ==> #[trigger] keys@[i] < 30 && keys@[i] != but && key_finger(
                model.board(),
                keys@[i] as int,
            ) == finger,
        forall|k: usize|
            k < 30 && k != but && key_finger(model.board(), k as int) == finger
                ==> #[trigger] keys@.contains(k),
{
    let mut keys: Vec<usize> = Vec::new();
    let mut k: usize = 0;
    while k < 30
        invariant
            k <= 30,
            model.wf(),
            forall|i: int|
                0 <= i < keys@.len() ==> #[trigger] keys@[i] < k && keys@[i] != but && key_finger(
                    model.board(),
                    keys@[i] as int,
                ) == finger,
            forall|j: usize|
                j < k && j != but && key_finger(model.board(), j as int) == finger
                    ==> #[trigger] keys@.contains(j),
        decreases 30 - k,
    {
        let ghost before = keys@;
        if k != but && model.key_props(k).finger == finger {
            keys.push(k);
            proof {
                assert(keys@[before.len() as int] == k);
                assert forall|j: usize|
                    j < k + 1 && j != but && key_finger(model.board(), j as int)
                        == finger implies #[trigger] keys@.contains(j) by {
                    if j < k {
                        assert(before.contains(j));
                        let i = choose|i: int| 0 <= i < before.len() && before[i] == j;
                        assert(keys@[i] == j);
                    }
                }
            }
        }
        k += 1;
    }
    keys
}

} // verus!
