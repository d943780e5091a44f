//! Constraints on where symbols may lie, apart from how often they are
//! typed.  Each is counted in whole points; a caller weighs the points.

use vstd::prelude::*;
use crate::chars::{chars_of, is_alphabetic_char};
use crate::layout::Layout;

verus! {

/// Whether `c` is one of the letters z, x, c and v.
pub open spec fn is_zxcv(c: char) -> bool {
    c == 'z' || c == 'x' || c == 'c' || c == 'v'
}

/// The letters z, x, c and v on the first `n` keys of the left half of
/// the bottom row, in their order.  No more than four are noted: where
/// a layout has one of these letters on several keys, so that a fifth
/// is found, it is passed over.
pub open spec fn zxcv_found(layout: Layout, n: int) -> Seq<char>
    decreases n,
{
    if n <= 0 {
        Seq::empty()
    } else if is_zxcv(layout[20 + n - 1][0]) && zxcv_found(layout, n - 1).len() < 4 {
        zxcv_found(layout, n - 1).push(layout[20 + n - 1][0])
    } else {
        zxcv_found(layout, n - 1)
    }
}

/// What the keys z, x, c and v lack: a point for each of them that is
/// not found in the left half of the bottom row, and one more unless
/// they lie there in this order.
pub open spec fn zxcv_missing(layout: Layout) -> int {
    5 - zxcv_found(layout, 5).len() - if zxcv_found(layout, 5) == seq!['z', 'x', 'c', 'v'] {
        1int
    } else {
        0
    }
}

/// Counts what the keys z, x, c and v lack, from 0 to 5 points.
pub fn eval_zxcv(layout: &Layout) -> (missing: u8)
    ensures
        missing == zxcv_missing(*layout),
        missing <= 5,
{
    let mut found: Vec<char> = Vec::new();
    let mut i: usize = 0;
    while i < 5
        invariant
            i <= 5,
            found@.len() <= 4,
            found@ == zxcv_found(*layout, i as int),
        decreases 5 - i,
    {
        let c = layout[20 + i][0];
        if (c == 'z' || c == 'x' || c == 'c' || c == 'v') && found.len() < 4 {
            found.push(c);
        }
        i += 1;
    }
    let mut n: u8 = found.len() as u8;
    let in_order = found.len() == 4 && found[0] == 'z' && found[1] == 'x' && found[2] == 'c'
        && found[3] == 'v';
    proof {
        if in_order {
            assert(found@ =~= seq!['z', 'x', 'c', 'v']);
        }
    }
    if in_order {
        n += 1;
    }
    5 - n
}

/// The key of the `i`th place where a layout in the manner of Colemak
/// has no letter: the last key of the top row and the last three of the
/// bottom row.
pub open spec fn nonalpha_key(i: int) -> int {
    if i == 0 {
        9
    } else {
        26 + i
    }
}

/// How many of the first `n` of those places hold a letter.
pub open spec fn nonalpha_count(layout: Layout, n: int) -> int
    decreases n,
{
    if n <= 0 {
        0
    } else {
        nonalpha_count(layout, n - 1) + if is_alphabetic_char(layout[nonalpha_key(n - 1)][0]) {
            1int
        } else {
            0
        }
    }
}

/// Counts the letters on the four places that are meant for other
/// symbols.
pub fn eval_nonalpha(layout: &Layout) -> (letters: u8)
    ensures
        letters == nonalpha_count(*layout, 4),
        letters <= 4,
{
    let mut n: u8 = 0;
    let mut i: usize = 0;
    while i < 4
        invariant
            i <= 4,
            n <= i,
            n == nonalpha_count(*layout, i as int),
        decreases 4 - i,
    {
        let key: usize = if i == 0 { 9 } else { 26 + i };
        if layout[key][0].is_alphabetic() {
            n += 1;
        }
        i += 1;
    }
    n
}

/// How many of the first `n` keys of row `row` hold a symbol of `keys`.
pub open spec fn row_count(layout: Layout, row: int, keys: Seq<char>, n: int) -> int
    decreases n,
{
    if n <= 0 {
        0
    } else {
        row_count(layout, row, keys, n - 1) + if keys.contains(layout[row * 10 + n - 1][0]) {
            1int
        } else {
            0
        }
    }
}

/// Tells whether `c` is among `keys`.
fn holds(keys: &Vec<char>, c: char) -> (r: bool)
    ensures
        r == keys@.contains(c),
{
    let mut i: usize = 0;
    while i < keys.len()
        invariant
            i <= keys@.len(),
            forall|j: int| 0 <= j < i ==> keys@[j] != c,
        decreases keys@.len() - i,
    {
        if keys[i] == c {
            return true;
        }
        i += 1;
    }
    false
}

/// Counts the keys of a row whose symbol is not among `keys`: what the
/// row lacks to be made of the given keycaps.
pub fn eval_row(layout: &Layout, row: usize, keys: &str) -> (missing: u8)
    requires
        row < 3,
    ensures
        missing == 10 - row_count(*layout, row as int, keys@, 10),
        missing <= 10,
{
    let keys = chars_of(keys);
    let mut n: u8 = 0;
    let mut i: usize = 0;
    while i < 10
        invariant
            i <= 10,
            row < 3,
            n <= i,
            n == row_count(*layout, row as int, keys@, i as int),
        decreases 10 - i,
    {
        if holds(&keys, layout[row * 10 + i][0]) {
            n += 1;
        }
        i += 1;
    }
    10 - n
}

/// How many of the two keys `a` and `b` hold a symbol of `keys`.
pub open spec fn homing_count(layout: Layout, keys: Seq<char>, a: int, b: int) -> int {
    (if keys.contains(layout[a][0]) { 1int } else { 0 }) + if keys.contains(layout[b][0]) {
        1int
    } else {
        0
    }
}

/// The first place in the home row that holds `c`, or 10 if none does.
pub open spec fn home_place(layout: Layout, c: char, n: int) -> int
    decreases n,
{
    if n <= 0 {
        10
    } else if home_place(layout, c, n - 1) < 10 {
        home_place(layout, c, n - 1)
    } else if layout[10 + n - 1][0] == c {
        n - 1
    } else {
        10
    }
}

/// What is known after some of the keys that can only be homing keys
/// were looked at: the finger that must be the homing finger (1 for the
/// index, 2 for the middle finger, 0 if open), and whether a key was
/// found that no choice can serve.
pub struct HomingState {
    pub finger: int,
    pub wrong: bool,
}

/// Looks at one more key that can only be a homing key.  Once a key was
/// found wrong, nothing changes any more.
pub open spec fn homing_step(layout: Layout, state: HomingState, c: char) -> HomingState {
    let p = home_place(layout, c, 10);
    if state.wrong || p >= 10 {
        state
    } else if p == 3 || p == 6 {
        if state.finger == 0 {
            HomingState { finger: 1, wrong: false }
        } else if state.finger != 1 {
            HomingState { finger: state.finger, wrong: true }
        } else {
            state
        }
    } else if p == 2 || p == 7 {
        if state.finger == 0 {
            HomingState { finger: 2, wrong: false }
        } else if state.finger != 2 {
            HomingState { finger: state.finger, wrong: true }
        } else {
            state
        }
    } else {
        HomingState { finger: state.finger, wrong: true }
    }
}

/// What is known after the first `n` of `only` were looked at.
pub open spec fn homing_state(layout: Layout, only: Seq<char>, n: int) -> HomingState
    decreases n,
{
    if n <= 0 {
        HomingState { finger: 0, wrong: false }
    } else {
        homing_step(layout, homing_state(layout, only, n - 1), only[n - 1])
    }
}

/// What the layout lacks in homing keys, from 0 to 3 points: of the two
/// places of the index fingers, or of the middle fingers, whichever does
/// better, one point for each that holds no symbol of `keys`; the keys
/// `only`, where they lie in the home row, decide the finger; and a point
/// more if one of them lies where it can be no homing key.
pub open spec fn homing_missing(layout: Layout, keys: Seq<char>, only: Seq<char>) -> int {
    let index = homing_count(layout, keys, 13, 16);
    let middle = homing_count(layout, keys, 12, 17);
    let state = homing_state(layout, only, only.len() as int);
    (if state.finger == 0 {
        2 - if index > middle { index } else { middle }
    } else if state.finger == 1 {
        2 - index
    } else {
        2 - middle
    }) + if state.wrong { 1int } else { 0 }
}

/// Finds the first place in the home row that holds `c`.
fn find_home_place(layout: &Layout, c: char) -> (p: usize)
    ensures
        p == home_place(*layout, c, 10),
        p <= 10,
{
    let mut i: usize = 0;
    while i < 10
        invariant
            i <= 10,
            home_place(*layout, c, i as int) == 10,
        decreases 10 - i,
    {
        if layout[10 + i][0] == c {
            proof {
                lemma_home_place_found(*layout, c, i as int, 10);
            }
            return i;
        }
        i += 1;
    }
    10
}

proof fn lemma_home_place_found(layout: Layout, c: char, i: int, n: int)
    requires
        0 <= i < n <= 10,
        home_place(layout, c, i) == 10,
        layout[10 + i][0] == c,
    ensures
        home_place(layout, c, n) == i,
    decreases n,
{
    if n > i + 1 {
        lemma_home_place_found(layout, c, i, n - 1);
    }
}

/// Counts what the layout lacks in homing keys.
pub fn eval_homing(layout: &Layout, keys: &str, homing_only_keys: Option<&str>) -> (missing: u8)
    ensures
        missing == homing_missing(
            *layout,
            keys@,
            match homing_only_keys {
                Some(only) => only@,
                None => Seq::<char>::empty(),
            },
        ),
        missing <= 3,
{
    let keys = chars_of(keys);
    let index: u8 = (if holds(&keys, layout[13][0]) { 1u8 } else { 0u8 }) + if holds(
        &keys,
        layout[16][0],
    ) { 1u8 } else { 0u8 };
    let middle: u8 = (if holds(&keys, layout[12][0]) { 1u8 } else { 0u8 }) + if holds(
        &keys,
        layout[17][0],
    ) { 1u8 } else { 0u8 };
    let mut finger: u8 = 0;
    let mut wrong: bool = false;
    let only: Vec<char> = match homing_only_keys {
        Some(text) => chars_of(text),
        None => Vec::new(),
    };
    let mut i: usize = 0;
    while i < only.len()
        invariant
            i <= only@.len(),
            finger <= 2,
            homing_state(*layout, only@, i as int) == (HomingState { finger: finger as int, wrong }),
        decreases only@.len() - i,
    {
        if !wrong {
            let p = find_home_place(layout, only[i]);
            if p < 10 {
                if p == 3 || p == 6 {
                    if finger == 0 {
                        finger = 1;
                    } else if finger != 1 {
                        wrong = true;
                    }
                } else if p == 2 || p == 7 {
                    if finger == 0 {
                        finger = 2;
                    } else if finger != 2 {
                        wrong = true;
                    }
                } else {
                    wrong = true;
                }
            }
        }
        i += 1;
    }
    let base: u8 = if finger == 0 {
        2 - if index > middle { index } else { middle }
    } else if finger == 1 {
        2 - index
    } else {
        2 - middle
    };
    base + if wrong { 1u8 } else { 0u8 }
}

} // verus!
