//! Per-key properties of the 30-key board: hand, finger, lateral stretch,
//! usage cost and distances, for each supported board geometry.
//!
//! Keys are numbered 0..30, row by row: `row = key / 10`, `col = key % 10`.
//! Distances are kept as squared lengths in sixteenths of a key pitch, so
//! that they are exact integers; a caller takes the square root.

use vstd::prelude::*;

verus! {

pub const LEFT: usize = 0;
pub const RIGHT: usize = 1;

pub const L_PINKY: usize = 0;
pub const L_RING: usize = 1;
pub const L_MIDDLE: usize = 2;
pub const L_INDEX: usize = 3;
pub const R_INDEX: usize = 4;
pub const R_MIDDLE: usize = 5;
pub const R_RING: usize = 6;
pub const R_PINKY: usize = 7;

/// The supported board geometries.
#[derive(Clone, Copy, Debug, PartialEq, Eq, Structural)]
pub enum KeyboardType {
    Ortho,
    ColStag,
    Hex,
    HexStag,
    ANSI,
    ISO,
}

/// Relative weakness of each finger; a key's cost is multiplied by the
/// weight of the finger that presses it.
#[derive(Clone, Copy, Debug, PartialEq, Eq, Structural)]
pub struct FingerWeights {
    pub index_finger: u8,
    pub middle_finger: u8,
    pub ring_finger: u8,
    pub pinky_finger: u8,
}

impl Default for FingerWeights {
    /// The weights of an ordinary hand: the ring finger counts twice and
    /// the pinky five times as much as the index and the middle finger.
    fn default() -> (weights: FingerWeights)
        ensures
            weights == (FingerWeights {
                index_finger: 1,
                middle_finger: 1,
                ring_finger: 2,
                pinky_finger: 5,
            }),
    {
        FingerWeights { index_finger: 1, middle_finger: 1, ring_finger: 2, pinky_finger: 5 }
    }
}

/// What the model knows of one key.
#[derive(Clone, Copy, Debug)]
pub struct KeyProps {
    pub hand: u8,
    pub finger: u8,
    pub is_stretch: bool,
    /// Column on which the key's finger rests.
    pub home_col: u8,
    /// Squared distance from the finger's home position, in sixteenths.
    pub home_dist_sq: u32,
    /// Squared distance from this key to every key, in sixteenths.
    pub rel_dist_sq: [u32; 30],
    pub cost: u16,
}

/// Whether the top row of `board` is shifted by one finger (hexagonal boards).
pub open spec fn is_hex(board: KeyboardType) -> bool {
    board is Hex || board is HexStag
}

/// Whether `key` lies on the shifted top row of a hexagonal board.
pub open spec fn on_hex_top_row(board: KeyboardType, key: int) -> bool {
    is_hex(board) && key / 10 == 0
}

/// The hand of a key: the left hand has columns 0 to 4.
pub open spec fn key_hand(key: int) -> int {
    if key % 10 < 5 { 0 } else { 1 }
}

/// The finger of a key, from left pinky (0) to right pinky (7).
pub open spec fn key_finger(board: KeyboardType, key: int) -> int {
    let col = key % 10;
    if on_hex_top_row(board, key) {
        if col == 0 { 0 } else if col == 9 { 7 } else { col - 1 }
    } else {
        if col < 4 { col } else if col < 6 { col - 1 } else { col - 2 }
    }
}

/// Whether a key needs a lateral stretch of its finger.
pub open spec fn key_is_stretch(board: KeyboardType, key: int) -> bool {
    let col = key % 10;
    if on_hex_top_row(board, key) {
        col == 0 || col == 9
    } else {
        col == 4 || col == 5
    }
}

/// The column on which a finger rests.
pub open spec fn finger_home_col(finger: int) -> int {
    if finger < 4 { finger } else { finger + 2 }
}

/// The weight of a finger: pinkies are 0 and 7, index fingers 3 and 4.
pub open spec fn finger_weight(weights: FingerWeights, finger: int) -> int {
    if finger == 0 || finger == 7 {
        weights.pinky_finger as int
    } else if finger == 1 || finger == 6 {
        weights.ring_finger as int
    } else if finger == 2 || finger == 5 {
        weights.middle_finger as int
    } else {
        weights.index_finger as int
    }
}

/// Horizontal offset of a row under a hand, in quarters of a key pitch.
pub open spec fn row_offset(board: KeyboardType, row: int, hand: int) -> int {
    match board {
        KeyboardType::Ortho | KeyboardType::ColStag => 0,
        KeyboardType::Hex | KeyboardType::HexStag => if row == 0 {
            if hand == 0 { -4 } else { 4 }
        } else {
            0
        },
        KeyboardType::ANSI => if row == 0 { -1 } else if row == 2 { 2 } else { 0 },
        KeyboardType::ISO => if row == 0 {
            -1
        } else if row == 2 {
            if hand == 0 { -2 } else { 2 }
        } else {
            0
        },
    }
}

/// Base cost of each key, before the finger weight is applied.
pub open spec fn key_cost_table(board: KeyboardType) -> Seq<u8> {
    match board {
        KeyboardType::Ortho => seq![
            4u8, 2, 2, 4, 12, 12, 4, 2, 2, 4,
            1, 1, 1, 1, 3, 3, 1, 1, 1, 1,
            2, 4, 4, 2, 6, 6, 2, 4, 4, 2,
        ],
        KeyboardType::ColStag => seq![
            2u8, 2, 2, 2, 6, 6, 2, 2, 2, 2,
            1, 1, 1, 1, 3, 3, 1, 1, 1, 1,
            2, 2, 2, 2, 6, 6, 2, 2, 2, 2,
        ],
        KeyboardType::Hex => seq![
            3u8, 4, 2, 2, 4, 4, 2, 2, 4, 3,
            1, 1, 1, 1, 3, 3, 1, 1, 1, 1,
            2, 4, 4, 2, 6, 6, 2, 4, 4, 2,
        ],
        KeyboardType::HexStag => seq![
            2u8, 3, 2, 2, 2, 2, 2, 2, 3, 2,
            1, 1, 1, 1, 3, 3, 1, 1, 1, 1,
            2, 2, 2, 2, 6, 6, 2, 2, 2, 2,
        ],
        KeyboardType::ANSI => seq![
            4u8, 2, 2, 4, 6, 12, 4, 2, 2, 4,
            1, 1, 1, 1, 3, 3, 1, 1, 1, 1,
            2, 4, 4, 2, 9, 3, 2, 4, 4, 2,
        ],
        KeyboardType::ISO => seq![
            4u8, 2, 2, 4, 6, 12, 4, 2, 2, 4,
            1, 1, 1, 1, 3, 3, 1, 1, 1, 1,
            2, 4, 4, 2, 3, 3, 2, 4, 4, 2,
        ],
    }
}

/// Cost of using a key: its base cost times the weight of its finger.
pub open spec fn key_cost(board: KeyboardType, weights: FingerWeights, key: int) -> int {
    key_cost_table(board)[key] * finger_weight(weights, key_finger(board, key))
}

/// Squared distance of a key from the home position of its finger.
pub open spec fn home_dist_sq(board: KeyboardType, key: int) -> int {
    let row = key / 10;
    let x = 4 * (key % 10 - finger_home_col(key_finger(board, key))) + row_offset(
        board,
        row,
        key_hand(key),
    );
    let y = 4 * (row - 1);
    x * x + y * y
}

/// Squared distance from `key` to `other`, with both rows offset as under
/// the hand of `key`.
pub open spec fn rel_dist_sq(board: KeyboardType, key: int, other: int) -> int {
    let hand = key_hand(key);
    let dx = 4 * (other % 10 - key % 10) + row_offset(board, other / 10, hand) - row_offset(
        board,
        key / 10,
        hand,
    );
    let dy = 4 * (other / 10 - key / 10);
    dx * dx + dy * dy
}

/// Whether `props` holds the properties of `key` on `board`.
pub open spec fn is_key_props(
    props: KeyProps,
    board: KeyboardType,
    weights: FingerWeights,
    key: int,
) -> bool {
    &&& props.hand == key_hand(key)
    &&& props.finger == key_finger(board, key)
    &&& props.is_stretch == key_is_stretch(board, key)
    &&& props.home_col == finger_home_col(key_finger(board, key))
    &&& props.home_dist_sq == home_dist_sq(board, key)
    &&& props.cost == key_cost(board, weights, key)
    &&& forall|other: int|
        0 <= other < 30 ==> #[trigger] props.rel_dist_sq[other] == rel_dist_sq(board, key, other)
}

fn cost_table(board: KeyboardType) -> (t: [u8; 30])
    ensures
        t@ == key_cost_table(board),
{
    let t: [u8; 30] = match board {
        KeyboardType::Ortho => [
            4, 2, 2, 4, 12, 12, 4, 2, 2, 4,
            1, 1, 1, 1, 3, 3, 1, 1, 1, 1,
            2, 4, 4, 2, 6, 6, 2, 4, 4, 2,
        ],
        KeyboardType::ColStag => [
            2, 2, 2, 2, 6, 6, 2, 2, 2, 2,
            1, 1, 1, 1, 3, 3, 1, 1, 1, 1,
            2, 2, 2, 2, 6, 6, 2, 2, 2, 2,
        ],
        KeyboardType::Hex => [
            3, 4, 2, 2, 4, 4, 2, 2, 4, 3,
            1, 1, 1, 1, 3, 3, 1, 1, 1, 1,
            2, 4, 4, 2, 6, 6, 2, 4, 4, 2,
        ],
        KeyboardType::HexStag => [
            2, 3, 2, 2, 2, 2, 2, 2, 3, 2,
            1, 1, 1, 1, 3, 3, 1, 1, 1, 1,
            2, 2, 2, 2, 6, 6, 2, 2, 2, 2,
        ],
        KeyboardType::ANSI => [
            4, 2, 2, 4, 6, 12, 4, 2, 2, 4,
            1, 1, 1, 1, 3, 3, 1, 1, 1, 1,
            2, 4, 4, 2, 9, 3, 2, 4, 4, 2,
        ],
        KeyboardType::ISO => [
            4, 2, 2, 4, 6, 12, 4, 2, 2, 4,
            1, 1, 1, 1, 3, 3, 1, 1, 1, 1,
            2, 4, 4, 2, 3, 3, 2, 4, 4, 2,
        ],
    };
    assert(t@ =~= key_cost_table(board));
    t
}

fn offset_of(board: KeyboardType, row: usize, hand: u8) -> (off: i32)
    requires
        row < 3,
        hand < 2,
    ensures
        off == row_offset(board, row as int, hand as int),
{
    match board {
        KeyboardType::Ortho | KeyboardType::ColStag => 0,
        KeyboardType::Hex | KeyboardType::HexStag => if row == 0 {
            if hand == 0 { -4 } else { 4 }
        } else {
            0
        },
        KeyboardType::ANSI => if row == 0 { -1 } else if row == 2 { 2 } else { 0 },
        KeyboardType::ISO => if row == 0 {
            -1
        } else if row == 2 {
            if hand == 0 { -2 } else { 2 }
        } else {
            0
        },
    }
}

/// The sum of two squares of small numbers.
fn sum_of_squares(x: i32, y: i32) -> (s: u32)
    requires
        -64 <= x <= 64,
        -64 <= y <= 64,
    ensures
        s == x * x + y * y,
{
    assert(0 <= x * x <= 4096 && 0 <= y * y <= 4096) by (nonlinear_arith)
        requires
            -64 <= x <= 64,
            -64 <= y <= 64,
    ;
    (x * x + y * y) as u32
}

/// Hand, finger, finger weight, home column and stretch flag of a key,
/// read from the column tables of the board.
fn key_assignment(board: KeyboardType, weights: &FingerWeights, row: usize, col: usize) -> (r: (
    u8,
    u8,
    u8,
    u8,
    bool,
))
    requires
        row < 3,
        col < 10,
    ensures
        r.0 == key_hand(row * 10 + col),
        r.1 == key_finger(board, row * 10 + col),
        r.2 == finger_weight(*weights, key_finger(board, row * 10 + col)),
        r.3 == finger_home_col(key_finger(board, row * 10 + col)),
        r.4 == key_is_stretch(board, row * 10 + col),
{
    let hex_top = match board {
        KeyboardType::Hex | KeyboardType::HexStag => row == 0,
        _ => false,
    };
    if hex_top {
        match col {
            0 => (0, 0, weights.pinky_finger, 0, true),
            1 => (0, 0, weights.pinky_finger, 0, false),
            2 => (0, 1, weights.ring_finger, 1, false),
            3 => (0, 2, weights.middle_finger, 2, false),
            4 => (0, 3, weights.index_finger, 3, false),
            5 => (1, 4, weights.index_finger, 6, false),
            6 => (1, 5, weights.middle_finger, 7, false),
            7 => (1, 6, weights.ring_finger, 8, false),
            8 => (1, 7, weights.pinky_finger, 9, false),
            _ => (1, 7, weights.pinky_finger, 9, true),
        }
    } else {
        match col {
            0 => (0, 0, weights.pinky_finger, 0, false),
            1 => (0, 1, weights.ring_finger, 1, false),
            2 => (0, 2, weights.middle_finger, 2, false),
            3 => (0, 3, weights.index_finger, 3, false),
            4 => (0, 3, weights.index_finger, 3, true),
            5 => (1, 4, weights.index_finger, 6, true),
            6 => (1, 4, weights.index_finger, 6, false),
            7 => (1, 5, weights.middle_finger, 7, false),
            8 => (1, 6, weights.ring_finger, 8, false),
            _ => (1, 7, weights.pinky_finger, 9, false),
        }
    }
}

/// Computes the properties of one key of `board`.
pub fn key_props(key: u8, board: KeyboardType, weights: &FingerWeights) -> (props: KeyProps)
    requires
        key < 30,
    ensures
        is_key_props(props, board, *weights, key as int),
{
    let row: usize = (key / 10) as usize;
    let col: usize = (key % 10) as usize;
    let (hand, finger, weight, home_col, is_stretch) = key_assignment(board, weights, row, col);
    let costs = cost_table(board);

    let own_offset: i32 = offset_of(board, row, hand);
    let x: i32 = 4 * (col as i32 - home_col as i32) + own_offset;
    let y: i32 = 4 * (row as i32 - 1);
    let home_dist_sq: u32 = sum_of_squares(x, y);

    let mut rel: [u32; 30] = [0u32; 30];
    let mut other: usize = 0;
    while other < 30
        invariant
            other <= 30,
            key < 30,
            row == key / 10,
            col == key % 10,
            hand == key_hand(key as int),
            own_offset == row_offset(board, row as int, hand as int),
            forall|o: int| 0 <= o < other ==> #[trigger] rel[o] == rel_dist_sq(board, key as int, o),
        decreases 30 - other,
    {
        let r: usize = other / 10;
        let c: usize = other % 10;
        let dx: i32 = 4 * (c as i32 - col as i32) + offset_of(board, r, hand) - own_offset;
        let dy: i32 = 4 * (r as i32 - row as i32);
        rel[other] = sum_of_squares(dx, dy);
        other += 1;
    }

    let base: u16 = costs[key as usize] as u16;
    assert(base * weight <= 255 * 255) by (nonlinear_arith)
        requires
            0 <= base <= 255,
            0 <= weight <= 255,
    ;
    KeyProps {
        hand,
        finger,
        is_stretch,
        home_col,
        home_dist_sq,
        rel_dist_sq: rel,
        cost: base * weight as u16,
    }
}

} // verus!
