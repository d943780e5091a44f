//! How different two layouts are.
//!
//! Every symbol that both layouts have on the unshifted level is looked
//! at: it scores 4 points if both have it on the same key, 2 if on
//! another key of the same finger, 1 if at least on the same hand.  The
//! distance is what is missing to 120 points, so 0 for equal layouts.
//! Where a layout has a symbol on several keys, its first key is held
//! against the first of the other layout, the second against the second,
//! and so on.

use vstd::prelude::*;
use crate::layout::Layout;

verus! {

/// How many of the first `n` keys of `layout` have the unshifted symbol `s`.
pub open spec fn same_before(layout: Layout, s: char, n: int) -> int
    decreases n,
{
    if n <= 0 {
        0
    } else {
        same_before(layout, s, n - 1) + if layout[n - 1][0] == s { 1int } else { 0 }
    }
}

/// Whether key `i` of `a` and key `j` of `b` hold the same symbol, and as
/// many keys before the one as before the other hold it too.
pub open spec fn is_matched(a: Layout, b: Layout, i: int, j: int) -> bool {
    a[i][0] == b[j][0] && same_before(a, a[i][0], i) == same_before(b, b[j][0], j)
}

/// The finger of a key on a board with straight columns.
pub open spec fn column_finger(key: int) -> int {
    let col = key % 10;
    if col < 4 { col } else if col < 6 { col - 1 } else { col - 2 }
}

/// The points of a symbol that is on key `i` in one layout and on key
/// `j` in the other.
pub open spec fn match_points(i: int, j: int) -> int {
    if i == j {
        4
    } else if column_finger(i) == column_finger(j) {
        2
    } else if (i % 10 < 5) == (j % 10 < 5) {
        1
    } else {
        0
    }
}

/// The points of key `i` of `a` against key `j` of `b`.
pub open spec fn pair_points(a: Layout, b: Layout, i: int, j: int) -> int {
    if is_matched(a, b, i, j) { match_points(i, j) } else { 0 }
}

/// The points of key `i` of `a` against the first `n` keys of `b`.
pub open spec fn row_points(a: Layout, b: Layout, i: int, n: int) -> int
    decreases n,
{
    if n <= 0 {
        0
    } else {
        row_points(a, b, i, n - 1) + pair_points(a, b, i, n - 1)
    }
}

/// The points of the first `n` keys of `a` against all keys of `b`.
pub open spec fn total_points(a: Layout, b: Layout, n: int) -> int
    decreases n,
{
    if n <= 0 {
        0
    } else {
        total_points(a, b, n - 1) + row_points(a, b, n - 1, 30)
    }
}

/// The distance of two layouts in 120ths: 0 for equal layouts, 120 for
/// layouts that have nothing in common.
pub open spec fn distance_points(a: Layout, b: Layout) -> int {
    120 - total_points(a, b, 30)
}

proof fn lemma_same_before_monotonic(layout: Layout, s: char, m: int, n: int)
    requires
        m <= n,
    ensures
        same_before(layout, s, m) <= same_before(layout, s, n),
        0 <= same_before(layout, s, m),
    decreases n - m,
{
    if m < n {
        lemma_same_before_monotonic(layout, s, m, n - 1);
    } else {
        lemma_same_before_nonnegative(layout, s, m);
    }
}

proof fn lemma_same_before_nonnegative(layout: Layout, s: char, n: int)
    ensures
        0 <= same_before(layout, s, n),
    decreases n,
{
    if n > 0 {
        lemma_same_before_nonnegative(layout, s, n - 1);
    }
}

/// A key of one layout is matched with at most one key of the other.
pub proof fn lemma_one_match(a: Layout, b: Layout, i: int, j1: int, j2: int)
    requires
        0 <= j1 < 30,
        0 <= j2 < 30,
        is_matched(a, b, i, j1),
        is_matched(a, b, i, j2),
    ensures
        j1 == j2,
{
    let s = a[i][0];
    if j1 < j2 {
        lemma_same_before_monotonic(b, s, j1 + 1, j2);
    } else if j2 < j1 {
        lemma_same_before_monotonic(b, s, j2 + 1, j1);
    }
}

/// The points of a key are those of its match, and zero without one.
proof fn lemma_row_points(a: Layout, b: Layout, i: int, n: int)
    requires
        0 <= n <= 30,
    ensures
        0 <= row_points(a, b, i, n) <= 4,
        forall|j: int|
            0 <= j < n && #[trigger] is_matched(a, b, i, j) ==> row_points(a, b, i, n)
                == match_points(i, j),
        (forall|j: int| 0 <= j < n ==> !is_matched(a, b, i, j)) ==> row_points(a, b, i, n) == 0,
    decreases n,
{
    if n > 0 {
        lemma_row_points(a, b, i, n - 1);
        if is_matched(a, b, i, n - 1) {
            assert forall|j: int| 0 <= j < n - 1 implies !is_matched(a, b, i, j) by {
                if is_matched(a, b, i, j) {
                    lemma_one_match(a, b, i, j, n - 1);
                }
            }
        }
        assert forall|j: int| 0 <= j < n && is_matched(a, b, i, j) implies row_points(a, b, i, n)
            == match_points(i, j) by {
            if j < n - 1 {
                if is_matched(a, b, i, n - 1) {
                    lemma_one_match(a, b, i, j, n - 1);
                }
            }
        }
    }
}

/// The points lie between 0 and 4 for each key.
proof fn lemma_total_bounds(a: Layout, b: Layout, n: int)
    requires
        0 <= n <= 30,
    ensures
        0 <= total_points(a, b, n) <= 4 * n,
    decreases n,
{
    if n > 0 {
        lemma_total_bounds(a, b, n - 1);
        lemma_row_points(a, b, n - 1, 30);
    }
}

/// The distance lies between 0 and 120.
pub proof fn lemma_distance_bounds(a: Layout, b: Layout)
    ensures
        0 <= distance_points(a, b) <= 120,
{
    lemma_total_bounds(a, b, 30);
}

proof fn lemma_total_self(a: Layout, n: int)
    requires
        0 <= n <= 30,
    ensures
        total_points(a, a, n) == 4 * n,
    decreases n,
{
    if n > 0 {
        lemma_total_self(a, n - 1);
        lemma_row_points(a, a, n - 1, 30);
        assert(is_matched(a, a, n - 1, n - 1));
        assert(row_points(a, a, n - 1, 30) == match_points(n - 1, n - 1));
    }
}

/// A layout has the distance 0 from itself.
pub proof fn lemma_distance_self(a: Layout)
    ensures
        distance_points(a, a) == 0,
{
    lemma_total_self(a, 30);
}

/// The points of the first `n` keys of `a` against key `j` of `b`.
pub open spec fn column_points(a: Layout, b: Layout, j: int, n: int) -> int
    decreases n,
{
    if n <= 0 {
        0
    } else {
        column_points(a, b, j, n - 1) + pair_points(a, b, n - 1, j)
    }
}

/// The points of the first `n` keys of `a` against the first `m` keys of
/// `b`, added up key by key of `b`.
pub open spec fn total_by_columns(a: Layout, b: Layout, n: int, m: int) -> int
    decreases m,
{
    if m <= 0 {
        0
    } else {
        total_by_columns(a, b, n, m - 1) + column_points(a, b, m - 1, n)
    }
}

proof fn lemma_columns_step(a: Layout, b: Layout, n: int, m: int)
    requires
        0 < n,
        0 <= m,
    ensures
        total_by_columns(a, b, n, m) == total_by_columns(a, b, n - 1, m) + row_points(
            a,
            b,
            n - 1,
            m,
        ),
    decreases m,
{
    if m > 0 {
        lemma_columns_step(a, b, n, m - 1);
    }
}

proof fn lemma_columns_empty(a: Layout, b: Layout, m: int)
    ensures
        total_by_columns(a, b, 0, m) == 0,
    decreases m,
{
    if m > 0 {
        lemma_columns_empty(a, b, m - 1);
    }
}

proof fn lemma_rows_are_columns(a: Layout, b: Layout, n: int)
    requires
        0 <= n,
    ensures
        total_points(a, b, n) == total_by_columns(a, b, n, 30),
    decreases n,
{
    if n > 0 {
        lemma_rows_are_columns(a, b, n - 1);
        lemma_columns_step(a, b, n, 30);
    } else {
        lemma_columns_empty(a, b, 30);
    }
}

proof fn lemma_column_is_row(a: Layout, b: Layout, j: int, n: int)
    ensures
        column_points(a, b, j, n) == row_points(b, a, j, n),
    decreases n,
{
    if n > 0 {
        lemma_column_is_row(a, b, j, n - 1);
    }
}

proof fn lemma_columns_are_rows(a: Layout, b: Layout, m: int)
    ensures
        total_by_columns(a, b, 30, m) == total_points(b, a, m),
    decreases m,
{
    if m > 0 {
        lemma_columns_are_rows(a, b, m - 1);
        lemma_column_is_row(a, b, m - 1, 30);
    }
}

/// The distance from `a` to `b` is the distance from `b` to `a`.
pub proof fn lemma_distance_symmetric(a: Layout, b: Layout)
    ensures
        distance_points(a, b) == distance_points(b, a),
{
    lemma_rows_are_columns(a, b, 30);
    lemma_columns_are_rows(a, b, 30);
}

/// Counts for every key how many keys before it hold its symbol.
fn symbol_ranks(layout: &Layout) -> (ranks: Vec<u8>)
    ensures
        ranks@.len() == 30,
        forall|k: int| 0 <= k < 30 ==> #[trigger] ranks@[k] == same_before(
            *layout,
            layout[k][0],
            k,
        ),
{
    let mut ranks: Vec<u8> = Vec::new();
    let mut k: usize = 0;
    while k < 30
        invariant
            k <= 30,
            ranks@.len() == k,
            forall|i: int| 0 <= i < k ==> #[trigger] ranks@[i] == same_before(
                *layout,
                layout[i][0],
                i,
            ),
        decreases 30 - k,
    {
        let s = layout[k][0];
        let mut rank: u8 = 0;
        let mut i: usize = 0;
        while i < k
            invariant
                i <= k < 30,
                rank <= i,
                rank == same_before(*layout, s, i as int),
            decreases k - i,
        {
            if layout[i][0] == s {
                rank += 1;
            }
            i += 1;
        }
        ranks.push(rank);
        k += 1;
    }
    ranks
}

/// The distance of two layouts in 120ths.
pub fn layout_distance(a: &Layout, b: &Layout) -> (distance: u32)
    ensures
        distance == distance_points(*a, *b),
        distance <= 120,
{
    let ranks_a = symbol_ranks(a);
    let ranks_b = symbol_ranks(b);
    let mut total: u32 = 0;
    let mut i: usize = 0;
    while i < 30
        invariant
            i <= 30,
            ranks_a@.len() == 30,
            ranks_b@.len() == 30,
            forall|k: int| 0 <= k < 30 ==> #[trigger] ranks_a@[k] == same_before(*a, a[k][0], k),
            forall|k: int| 0 <= k < 30 ==> #[trigger] ranks_b@[k] == same_before(*b, b[k][0], k),
            total == total_points(*a, *b, i as int),
            total <= 4 * i,
        decreases 30 - i,
    {
        let mut row: u32 = 0;
        let mut j: usize = 0;
        proof {
            lemma_row_points(*a, *b, i as int, 30);
        }
        while j < 30
            invariant
                i < 30,
                j <= 30,
                ranks_a@.len() == 30,
                ranks_b@.len() == 30,
                forall|k: int|
                    0 <= k < 30 ==> #[trigger] ranks_a@[k] == same_before(*a, a[k][0], k),
                forall|k: int|
                    0 <= k < 30 ==> #[trigger] ranks_b@[k] == same_before(*b, b[k][0], k),
                row == row_points(*a, *b, i as int, j as int),
                row <= 4 * j,
            decreases 30 - j,
        {
            if a[i][0] == b[j][0] && ranks_a[i] == ranks_b[j] {
                assert(is_matched(*a, *b, i as int, j as int));
                let fi = finger_of(i);
                let fj = finger_of(j);
                if i == j {
                    row += 4;
                } else if fi == fj {
                    row += 2;
                } else if (i % 10 < 5) == (j % 10 < 5) {
                    row += 1;
                }
            } else {
                assert(!is_matched(*a, *b, i as int, j as int));
            }
            j += 1;
        }
        total += row;
        i += 1;
    }
    proof {
        lemma_distance_bounds(*a, *b);
    }
    120 - total
}

/// The finger of a key on a board with straight columns.
fn finger_of(key: usize) -> (finger: usize)
    requires
        key < 30,
    ensures
        finger == column_finger(key as int),
{
    let col = key % 10;
    if col < 4 {
        col
    } else if col < 6 {
        col - 1
    } else {
        col - 2
    }
}

} // verus!
