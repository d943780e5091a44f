//! The evaluation model of a board: the properties of its 30 keys, the
//! class of every ordered pair and triple of keys, and the keys ranked by
//! cost.  A model is built once and read by every evaluation.

use vstd::prelude::*;
use crate::geometry::{
    key_props, is_key_props, key_hand, key_finger, key_is_stretch, key_cost, is_hex,
    KeyboardType, FingerWeights, KeyProps,
};

verus! {

pub const BIGRAM_ALTERNATE: usize = 0;
pub const BIGRAM_SAMEKEY: usize = 1;
pub const BIGRAM_DROLL: usize = 2;
pub const BIGRAM_UROLL: usize = 3;
pub const BIGRAM_LSB3: usize = 4;
pub const BIGRAM_LSB2: usize = 5;
pub const BIGRAM_LSB1: usize = 6;
pub const BIGRAM_SCISSOR: usize = 7;
pub const BIGRAM_SFB: usize = 8;
pub const BIGRAM_NUM_TYPES: usize = 9;

pub const TRIGRAM_NONE: usize = 0;
pub const TRIGRAM_D_SAMEKEY: usize = 1;
pub const TRIGRAM_SHD_SAMEKEY: usize = 2;
pub const TRIGRAM_D_SFB: usize = 3;
pub const TRIGRAM_SHD_SFB: usize = 4;
pub const TRIGRAM_D_DROLL: usize = 5;
pub const TRIGRAM_D_UROLL: usize = 6;
pub const TRIGRAM_D_LSB3: usize = 7;
pub const TRIGRAM_D_LSB2: usize = 8;
pub const TRIGRAM_D_LSB1: usize = 9;
pub const TRIGRAM_D_SCISSOR: usize = 10;
pub const TRIGRAM_RROLL: usize = 11;
pub const TRIGRAM_REDIRECT: usize = 12;
pub const TRIGRAM_CONTORT: usize = 13;
pub const TRIGRAM_NUM_TYPES: usize = 14;

/// The key at the same place under the other hand.
pub open spec fn mirror_key_spec(k: int) -> int {
    k + 9 - 2 * (k % 10)
}

/// Mirrors a key from the left to the right hand or back.
pub fn mirror_key(k: u8) -> (m: u8)
    requires
        k < 30,
    ensures
        m == mirror_key_spec(k as int),
        m < 30,
        m / 10 == k / 10,
{
    k + 9 - 2 * (k % 10)
}

/// Scissors of the left hand, written from left to right, on a board
/// whose top row is not shifted.
pub open spec fn base_scissors() -> Seq<(u8, u8)> {
    seq![
        (0u8, 11u8), (0, 21), (0, 12), (0, 22), (0, 23), (10, 21), (20, 1), (20, 2), (20, 3),
        (1, 22), (1, 23), (21, 2), (21, 3), (2, 23), (22, 3),
        (0, 24), (1, 24), (2, 24),
    ]
}

/// On a hexagonal board the first four keys of the top row move one
/// place to the right.
pub open spec fn hex_shift(k: u8) -> u8 {
    if k <= 3 { (k + 1) as u8 } else { k }
}

/// The scissors of `board` that the others are derived from.
pub open spec fn scissor_seeds(board: KeyboardType) -> Seq<(u8, u8)> {
    if is_hex(board) {
        base_scissors().map_values(|b: (u8, u8)| (hex_shift(b.0), hex_shift(b.1))) + seq![
            (0u8, 11u8), (0, 21), (0, 12), (0, 22), (0, 23), (0, 24),
        ]
    } else {
        base_scissors() + seq![(20u8, 4u8), (21, 4), (22, 4)]
    }
}

/// Whether the pair `(a, b)` is the seed `s`, its reverse, its mirror
/// image or the reverse of its mirror image.
pub open spec fn seed_covers(s: (u8, u8), a: int, b: int) -> bool {
    ||| (s.0 == a && s.1 == b)
    ||| (s.1 == a && s.0 == b)
    ||| (mirror_key_spec(s.0 as int) == a && mirror_key_spec(s.1 as int) == b)
    ||| (mirror_key_spec(s.1 as int) == a && mirror_key_spec(s.0 as int) == b)
}

/// Whether the first `n` seeds of `seeds` hold one that covers `(a, b)`.
pub open spec fn covered_by(seeds: Seq<(u8, u8)>, n: int, a: int, b: int) -> bool {
    exists|m: int| 0 <= m < n && seed_covers(#[trigger] seeds[m], a, b)
}

/// Whether the keys `a` and `b` form a scissor on `board`.
pub open spec fn is_scissor(board: KeyboardType, a: int, b: int) -> bool {
    covered_by(scissor_seeds(board), scissor_seeds(board).len() as int, a, b)
}

/// The class of the ordered key pair `(i, j)`.
pub open spec fn bigram_type(board: KeyboardType, i: int, j: int) -> int {
    let f0 = key_finger(board, i);
    let f1 = key_finger(board, j);
    let s0 = key_is_stretch(board, i);
    let s1 = key_is_stretch(board, j);
    if key_hand(i) != key_hand(j) {
        BIGRAM_ALTERNATE as int
    } else if i == j {
        BIGRAM_SAMEKEY as int
    } else if f0 == f1 {
        BIGRAM_SFB as int
    } else if s0 || s1 {
        let d = if f0 < f1 { f1 - f0 } else { f0 - f1 };
        if (s0 && s1) || is_scissor(board, i, j) || d == 1 {
            BIGRAM_LSB1 as int
        } else if d == 2 {
            BIGRAM_LSB2 as int
        } else {
            BIGRAM_LSB3 as int
        }
    } else if is_scissor(board, i, j) {
        BIGRAM_SCISSOR as int
    } else if f0 == 1 || f0 == 6 || f0 == 3 || f0 == 4 || f1 == 3 || f1 == 4 {
        // rolling away from a ring finger, or an index finger takes part
        BIGRAM_DROLL as int
    } else {
        BIGRAM_UROLL as int
    }
}

/// The trigram class of a same-hand pair whose keys are parted by a key
/// of the other hand.
pub open spec fn disjointed_type(pair: int) -> int {
    if pair == BIGRAM_SAMEKEY {
        TRIGRAM_D_SAMEKEY as int
    } else if pair == BIGRAM_SFB {
        TRIGRAM_D_SFB as int
    } else if pair == BIGRAM_DROLL {
        TRIGRAM_D_DROLL as int
    } else if pair == BIGRAM_UROLL {
        TRIGRAM_D_UROLL as int
    } else if pair == BIGRAM_LSB1 {
        TRIGRAM_D_LSB1 as int
    } else if pair == BIGRAM_LSB2 {
        TRIGRAM_D_LSB2 as int
    } else if pair == BIGRAM_LSB3 {
        TRIGRAM_D_LSB3 as int
    } else {
        TRIGRAM_D_SCISSOR as int
    }
}

/// Whether a pair class is a roll or a mild stretch.
pub open spec fn is_rolling(pair: int) -> bool {
    BIGRAM_DROLL <= pair < BIGRAM_LSB1
}

/// The class of the ordered key triple `(i, j, k)`.
pub open spec fn trigram_type(board: KeyboardType, i: int, j: int, k: int) -> int {
    let h0 = key_hand(i);
    let h1 = key_hand(j);
    let h2 = key_hand(k);
    let f0 = key_finger(board, i);
    let f1 = key_finger(board, j);
    let f2 = key_finger(board, k);
    if h0 == h2 && h0 != h1 {
        disjointed_type(bigram_type(board, i, k))
    } else if h0 == h1 && h1 == h2 {
        if i == k && f0 != f1 {
            TRIGRAM_SHD_SAMEKEY as int
        } else if f0 == f2 && f0 != f1 {
            TRIGRAM_SHD_SFB as int
        } else if bigram_type(board, i, j) >= BIGRAM_LSB1 && bigram_type(board, j, k)
            >= BIGRAM_LSB1 {
            TRIGRAM_CONTORT as int
        } else if f0 != f1 && f1 != f2 && bigram_type(board, i, k) == BIGRAM_SCISSOR {
            TRIGRAM_CONTORT as int
        } else if f0 != f1 && f1 != f2 && ((f2 > f1) != (f1 > f0)) {
            TRIGRAM_REDIRECT as int
        } else if is_rolling(bigram_type(board, i, j)) && is_rolling(bigram_type(board, j, k)) {
            TRIGRAM_RROLL as int
        } else {
            TRIGRAM_NONE as int
        }
    } else {
        TRIGRAM_NONE as int
    }
}

/// Whether key `a` comes before key `b` when keys are ranked by cost:
/// the cheaper key first, and of two equally cheap keys the lower one.
pub open spec fn ranks_before(
    board: KeyboardType,
    weights: FingerWeights,
    a: int,
    b: int,
) -> bool {
    key_cost(board, weights, a) < key_cost(board, weights, b) || (key_cost(board, weights, a)
        == key_cost(board, weights, b) && a < b)
}

/// Whether key `k` stands somewhere in `ranking`.
pub open spec fn holds_key(ranking: Seq<usize>, k: int) -> bool {
    exists|r: int| 0 <= r < ranking.len() && #[trigger] ranking[r] == k
}

/// Whether `ranking` lists each of the first `n` keys once, cheapest first.
pub open spec fn is_cost_ranking(
    ranking: Seq<usize>,
    board: KeyboardType,
    weights: FingerWeights,
    n: int,
) -> bool {
    &&& ranking.len() == n
    &&& forall|r: int| 0 <= r < n ==> #[trigger] ranking[r] < n
    &&& forall|k: int| 0 <= k < n ==> #[trigger] holds_key(ranking, k)
    &&& forall|r1: int, r2: int|
        0 <= r1 < r2 < n ==> ranks_before(
            board,
            weights,
            #[trigger] ranking[r1] as int,
            #[trigger] ranking[r2] as int,
        )
}

/// The seeds of the scissor table, as a vector.
fn scissor_seed_list(board: KeyboardType) -> (seeds: Vec<(u8, u8)>)
    ensures
        seeds@ == scissor_seeds(board),
        forall|n: int| 0 <= n < seeds@.len() ==> (#[trigger] seeds@[n]).0 < 30 && seeds@[n].1 < 30,
{
    let mut seeds: Vec<(u8, u8)> = vec![
        (0u8, 11u8), (0, 21), (0, 12), (0, 22), (0, 23), (10, 21), (20, 1), (20, 2), (20, 3),
        (1, 22), (1, 23), (21, 2), (21, 3), (2, 23), (22, 3),
        (0, 24), (1, 24), (2, 24),
    ];
    assert(seeds@ =~= base_scissors());
    assert(forall|n: int| 0 <= n < 18 ==> (#[trigger] seeds@[n]).0 < 30 && seeds@[n].1 < 30);
    let hex = match board {
        KeyboardType::Hex | KeyboardType::HexStag => true,
        _ => false,
    };
    if hex {
        let mut n: usize = 0;
        while n < 18
            invariant
                n <= 18,
                seeds@.len() == 18,
                forall|m: int| 0 <= m < n ==> #[trigger] seeds@[m] == (
                    hex_shift(base_scissors()[m].0),
                    hex_shift(base_scissors()[m].1),
                ),
                forall|m: int| n <= m < 18 ==> #[trigger] seeds@[m] == base_scissors()[m],
                forall|m: int| 0 <= m < 18 ==> (#[trigger] seeds@[m]).0 < 30 && seeds@[m].1 < 30,
            decreases 18 - n,
        {
            let (a, b) = seeds[n];
            let a2: u8 = if a <= 3 { a + 1 } else { a };
            let b2: u8 = if b <= 3 { b + 1 } else { b };
            seeds.set(n, (a2, b2));
            n += 1;
        }
        seeds.push((0, 11));
        seeds.push((0, 21));
        seeds.push((0, 12));
        seeds.push((0, 22));
        seeds.push((0, 23));
        seeds.push((0, 24));
        assert(seeds@ =~= scissor_seeds(board));
    } else {
        seeds.push((20, 4));
        seeds.push((21, 4));
        seeds.push((22, 4));
        assert(seeds@ =~= scissor_seeds(board));
    }
    seeds
}

/// Marks one pair of keys in the scissor table.
fn mark(table: &mut Vec<bool>, a: u8, b: u8)
    requires
        old(table)@.len() == 900,
        a < 30,
        b < 30,
    ensures
        final(table)@ == old(table)@.update(a * 30 + b, true),
{
    table.set(a as usize * 30 + b as usize, true);
}

/// The table of all scissors: entry `a * 30 + b` tells whether `(a, b)`
/// is one.
fn scissor_table(board: KeyboardType) -> (table: Vec<bool>)
    ensures
        table@.len() == 900,
        forall|a: int, b: int|
            0 <= a < 30 && 0 <= b < 30 ==> #[trigger] table@[a * 30 + b] == is_scissor(
                board,
                a,
                b,
            ),
{
    let seeds = scissor_seed_list(board);
    let mut table: Vec<bool> = Vec::new();
    let mut x: usize = 0;
    while x < 900
        invariant
            x <= 900,
            table@.len() == x,
            forall|y: int| 0 <= y < x ==> !(#[trigger] table@[y]),
        decreases 900 - x,
    {
        table.push(false);
        x += 1;
    }
    let mut n: usize = 0;
    while n < seeds.len()
        invariant
            n <= seeds@.len(),
            table@.len() == 900,
            forall|m: int|
                0 <= m < seeds@.len() ==> (#[trigger] seeds@[m]).0 < 30 && seeds@[m].1 < 30,
            forall|a: int, b: int|
                0 <= a < 30 && 0 <= b < 30 ==> #[trigger] table@[a * 30 + b] == covered_by(
                    seeds@,
                    n as int,
                    a,
                    b,
                ),
        decreases seeds@.len() - n,
    {
        let (s0, s1) = seeds[n];
        let m0 = mirror_key(s0);
        let m1 = mirror_key(s1);
        let ghost before = table@;
        mark(&mut table, s0, s1);
        mark(&mut table, s1, s0);
        mark(&mut table, m0, m1);
        mark(&mut table, m1, m0);
        proof {
            assert forall|a: int, b: int| 0 <= a < 30 && 0 <= b < 30 implies #[trigger] table@[a
                * 30 + b] == covered_by(seeds@, n + 1, a, b) by {
                let hit = seed_covers(seeds@[n as int], a, b);
                assert(table@[a * 30 + b] == (before[a * 30 + b] || hit));
                if covered_by(seeds@, n + 1, a, b) {
                    let m = choose|m: int| 0 <= m < n + 1 && seed_covers(#[trigger] seeds@[m], a, b);
                    if m < n {
                        assert(covered_by(seeds@, n as int, a, b));
                    }
                }
                if before[a * 30 + b] {
                    assert(covered_by(seeds@, n as int, a, b));
                    let m = choose|m: int| 0 <= m < n && seed_covers(#[trigger] seeds@[m], a, b);
                    assert(0 <= m < n + 1 && seed_covers(seeds@[m], a, b));
                }
                if hit {
                    assert(0 <= n < n + 1 && seed_covers(seeds@[n as int], a, b));
                }
            }
        }
        n += 1;
    }
    table
}

/// Whether `props` holds the properties of the first `n` keys of `board`.
pub open spec fn are_key_props(
    props: Seq<KeyProps>,
    board: KeyboardType,
    weights: FingerWeights,
    n: int,
) -> bool {
    &&& props.len() == n
    &&& forall|k: int| 0 <= k < n ==> is_key_props(#[trigger] props[k], board, weights, k)
}

/// Computes the properties of all 30 keys.
fn all_key_props(board: KeyboardType, weights: &FingerWeights) -> (props: Vec<KeyProps>)
    ensures
        are_key_props(props@, board, *weights, 30),
{
    let mut props: Vec<KeyProps> = Vec::new();
    let mut k: u8 = 0;
    while k < 30
        invariant
            k <= 30,
            are_key_props(props@, board, *weights, k as int),
        decreases 30 - k,
    {
        props.push(key_props(k, board, weights));
        k += 1;
    }
    props
}

/// Classifies one ordered pair of keys.
fn classify_pair(
    board: Ghost<KeyboardType>,
    weights: Ghost<FingerWeights>,
    props: &Vec<KeyProps>,
    scissors: &Vec<bool>,
    i: usize,
    j: usize,
) -> (class: u8)
    requires
        i < 30,
        j < 30,
        are_key_props(props@, board@, weights@, 30),
        scissors@.len() == 900,
        forall|a: int, b: int|
            0 <= a < 30 && 0 <= b < 30 ==> #[trigger] scissors@[a * 30 + b] == is_scissor(
                board@,
                a,
                b,
            ),
    ensures
        class == bigram_type(board@, i as int, j as int),
        class < BIGRAM_NUM_TYPES,
        key_hand(i as int) == key_hand(j as int) ==> class != BIGRAM_ALTERNATE,
{
    let pa = &props[i];
    let pb = &props[j];
    let scissor = scissors[i * 30 + j];
    if pa.hand != pb.hand {
        BIGRAM_ALTERNATE as u8
    } else if i == j {
        BIGRAM_SAMEKEY as u8
    } else if pa.finger == pb.finger {
        BIGRAM_SFB as u8
    } else if pa.is_stretch || pb.is_stretch {
        let d: u8 = if pa.finger < pb.finger {
            pb.finger - pa.finger
        } else {
            pa.finger - pb.finger
        };
        if (pa.is_stretch && pb.is_stretch) || scissor || d == 1 {
            BIGRAM_LSB1 as u8
        } else if d == 2 {
            BIGRAM_LSB2 as u8
        } else {
            BIGRAM_LSB3 as u8
        }
    } else if scissor {
        BIGRAM_SCISSOR as u8
    } else if pa.finger == 1 || pa.finger == 6 || pa.finger == 3 || pa.finger == 4 || pb.finger
        == 3 || pb.finger == 4 {
        BIGRAM_DROLL as u8
    } else {
        BIGRAM_UROLL as u8
    }
}

/// Whether `table` holds the class of every pair of keys below row `rows`.
pub open spec fn is_bigram_table(table: Seq<u8>, board: KeyboardType, rows: int) -> bool {
    &&& table.len() == rows * 30
    &&& forall|i: int, j: int|
        0 <= i < rows && 0 <= j < 30 ==> #[trigger] table[i * 30 + j] == bigram_type(board, i, j)
}

/// Whether `table` holds the class of every triple of keys.
pub open spec fn is_trigram_table(table: Seq<u8>, board: KeyboardType) -> bool {
    &&& table.len() == 27000
    &&& forall|i: int, j: int, k: int|
        0 <= i < 30 && 0 <= j < 30 && 0 <= k < 30 ==> #[trigger] table[(i * 30 + j) * 30 + k]
            == trigram_type(board, i, j, k)
}

/// Classifies every ordered pair of keys.
fn bigram_table(
    board: Ghost<KeyboardType>,
    weights: Ghost<FingerWeights>,
    props: &Vec<KeyProps>,
    scissors: &Vec<bool>,
) -> (table: Vec<u8>)
    requires
        are_key_props(props@, board@, weights@, 30),
        scissors@.len() == 900,
        forall|a: int, b: int|
            0 <= a < 30 && 0 <= b < 30 ==> #[trigger] scissors@[a * 30 + b] == is_scissor(
                board@,
                a,
                b,
            ),
    ensures
        is_bigram_table(table@, board@, 30),
{
    let mut table: Vec<u8> = Vec::new();
    let mut i: usize = 0;
    while i < 30
        invariant
            i <= 30,
            are_key_props(props@, board@, weights@, 30),
            scissors@.len() == 900,
            forall|a: int, b: int|
                0 <= a < 30 && 0 <= b < 30 ==> #[trigger] scissors@[a * 30 + b] == is_scissor(
                    board@,
                    a,
                    b,
                ),
            is_bigram_table(table@, board@, i as int),
        decreases 30 - i,
    {
        let mut j: usize = 0;
        while j < 30
            invariant
                i < 30,
                j <= 30,
                are_key_props(props@, board@, weights@, 30),
                scissors@.len() == 900,
                forall|a: int, b: int|
                    0 <= a < 30 && 0 <= b < 30 ==> #[trigger] scissors@[a * 30 + b] == is_scissor(
                        board@,
                        a,
                        b,
                    ),
                table@.len() == i * 30 + j,
                forall|a: int, b: int|
                    0 <= a < i && 0 <= b < 30 ==> #[trigger] table@[a * 30 + b] == bigram_type(
                        board@,
                        a,
                        b,
                    ),
                forall|b: int|
                    0 <= b < j ==> #[trigger] table@[i * 30 + b] == bigram_type(
                        board@,
                        i as int,
                        b,
                    ),
            decreases 30 - j,
        {
            let class = classify_pair(board, weights, props, scissors, i, j);
            table.push(class);
            j += 1;
        }
        proof {
            assert forall|a: int, b: int| 0 <= a < i + 1 && 0 <= b < 30 implies #[trigger] table@[a
                * 30 + b] == bigram_type(board@, a, b) by {
                if a == i {
                    assert(table@[i * 30 + b] == bigram_type(board@, i as int, b));
                }
            }
        }
        i += 1;
    }
    table
}

/// Classifies one ordered triple of keys.
fn classify_triple(
    board: Ghost<KeyboardType>,
    weights: Ghost<FingerWeights>,
    props: &Vec<KeyProps>,
    pairs: &Vec<u8>,
    i: usize,
    j: usize,
    k: usize,
) -> (class: u8)
    requires
        i < 30,
        j < 30,
        k < 30,
        are_key_props(props@, board@, weights@, 30),
        is_bigram_table(pairs@, board@, 30),
    ensures
        class == trigram_type(board@, i as int, j as int, k as int),
        class < TRIGRAM_NUM_TYPES,
{
    let pa = &props[i];
    let pb = &props[j];
    let pc = &props[k];
    let outer = pairs[i * 30 + k];
    let first = pairs[i * 30 + j];
    let second = pairs[j * 30 + k];
    proof {
        assert(outer == bigram_type(board@, i as int, k as int));
        assert(first == bigram_type(board@, i as int, j as int));
        assert(second == bigram_type(board@, j as int, k as int));
    }
    if pa.hand == pc.hand && pa.hand != pb.hand {
        // a pair on one hand, parted by a key of the other hand
        if outer == BIGRAM_SAMEKEY as u8 {
            TRIGRAM_D_SAMEKEY as u8
        } else if outer == BIGRAM_SFB as u8 {
            TRIGRAM_D_SFB as u8
        } else if outer == BIGRAM_DROLL as u8 {
            TRIGRAM_D_DROLL as u8
        } else if outer == BIGRAM_UROLL as u8 {
            TRIGRAM_D_UROLL as u8
        } else if outer == BIGRAM_LSB1 as u8 {
            TRIGRAM_D_LSB1 as u8
        } else if outer == BIGRAM_LSB2 as u8 {
            TRIGRAM_D_LSB2 as u8
        } else if outer == BIGRAM_LSB3 as u8 {
            TRIGRAM_D_LSB3 as u8
        } else {
            TRIGRAM_D_SCISSOR as u8
        }
    } else if pa.hand == pb.hand && pb.hand == pc.hand {
        if i == k && pa.finger != pb.finger {
            TRIGRAM_SHD_SAMEKEY as u8
        } else if pa.finger == pc.finger && pa.finger != pb.finger {
            TRIGRAM_SHD_SFB as u8
        } else if first >= BIGRAM_LSB1 as u8 && second >= BIGRAM_LSB1 as u8 {
            // two bad pairs in a row
            TRIGRAM_CONTORT as u8
        } else if pa.finger != pb.finger && pb.finger != pc.finger && outer
            == BIGRAM_SCISSOR as u8 {
            TRIGRAM_CONTORT as u8
        } else if pa.finger != pb.finger && pb.finger != pc.finger && ((pc.finger > pb.finger) != (
        pb.finger > pa.finger)) {
            // the direction turns round
            TRIGRAM_REDIRECT as u8
        } else if first >= BIGRAM_DROLL as u8 && first < BIGRAM_LSB1 as u8 && second
            >= BIGRAM_DROLL as u8 && second < BIGRAM_LSB1 as u8 {
            TRIGRAM_RROLL as u8
        } else {
            TRIGRAM_NONE as u8
        }
    } else {
        TRIGRAM_NONE as u8
    }
}

/// Classifies every ordered triple of keys.
fn trigram_table(
    board: Ghost<KeyboardType>,
    weights: Ghost<FingerWeights>,
    props: &Vec<KeyProps>,
    pairs: &Vec<u8>,
) -> (table: Vec<u8>)
    requires
        are_key_props(props@, board@, weights@, 30),
        is_bigram_table(pairs@, board@, 30),
    ensures
        is_trigram_table(table@, board@),
{
    let mut table: Vec<u8> = Vec::new();
    let mut x: usize = 0;
    while x < 27000
        invariant
            x <= 27000,
            are_key_props(props@, board@, weights@, 30),
            is_bigram_table(pairs@, board@, 30),
            table@.len() == x,
            forall|y: int|
                0 <= y < x ==> #[trigger] table@[y] == trigram_type(
                    board@,
                    y / 900,
                    (y / 30) % 30,
                    y % 30,
                ),
        decreases 27000 - x,
    {
        let class = classify_triple(board, weights, props, pairs, x / 900, (x / 30) % 30, x % 30);
        table.push(class);
        x += 1;
    }
    proof {
        assert forall|i: int, j: int, k: int|
            0 <= i < 30 && 0 <= j < 30 && 0 <= k < 30 implies #[trigger] table@[(i * 30 + j) * 30
            + k] == trigram_type(board@, i, j, k) by {
            let y = (i * 30 + j) * 30 + k;
            assert(y / 900 == i && (y / 30) % 30 == j && y % 30 == k);
        }
    }
    table
}

/// Ranks the keys by cost, cheapest first; equally cheap keys keep their
/// order on the board.
fn cost_ranking(
    board: Ghost<KeyboardType>,
    weights: Ghost<FingerWeights>,
    props: &Vec<KeyProps>,
) -> (ranking: Vec<usize>)
    requires
        are_key_props(props@, board@, weights@, 30),
    ensures
        is_cost_ranking(ranking@, board@, weights@, 30),
{
    let mut ranking: Vec<usize> = Vec::new();
    let mut k: usize = 0;
    while k < 30
        invariant
            k <= 30,
            are_key_props(props@, board@, weights@, 30),
            is_cost_ranking(ranking@, board@, weights@, k as int),
        decreases 30 - k,
    {
        let cost = props[k].cost;
        let mut p: usize = 0;
        while p < ranking.len() && props[ranking[p]].cost <= cost
            invariant
                k < 30,
                p <= ranking@.len(),
                cost == key_cost(board@, weights@, k as int),
                are_key_props(props@, board@, weights@, 30),
                is_cost_ranking(ranking@, board@, weights@, k as int),
                forall|r: int|
                    0 <= r < p ==> key_cost(board@, weights@, #[trigger] ranking@[r] as int)
                        <= cost,
            decreases ranking@.len() - p,
        {
            p += 1;
        }
        let ghost before = ranking@;
        ranking.insert(p, k);
        proof {
            let after = ranking@;
            assert(after == before.insert(p as int, k));
            assert forall|key: int| 0 <= key < k + 1 implies #[trigger] holds_key(after, key) by {
                if key == k {
                    assert(after[p as int] == key);
                } else {
                    assert(holds_key(before, key));
                    let r = choose|r: int| 0 <= r < before.len() && #[trigger] before[r] == key;
                    if r < p {
                        assert(after[r] == key);
                    } else {
                        assert(after[r + 1] == key);
                    }
                }
            }
            assert forall|r1: int, r2: int| 0 <= r1 < r2 < k + 1 implies ranks_before(
                board@,
                weights@,
                #[trigger] after[r1] as int,
                #[trigger] after[r2] as int,
            ) by {
                let o1 = if r1 < p { r1 } else { r1 - 1 };
                let o2 = if r2 < p { r2 } else { r2 - 1 };
                if r1 != p && r2 != p {
                    assert(after[r1] == before[o1] && after[r2] == before[o2]);
                    assert(ranks_before(board@, weights@, before[o1] as int, before[o2] as int));
                } else if r1 == p {
                    assert(after[r2] == before[o2]);
                    if p < before.len() {
                        assert(key_cost(board@, weights@, before[p as int] as int) > cost);
                        if o2 > p {
                            assert(ranks_before(
                                board@,
                                weights@,
                                before[p as int] as int,
                                before[o2] as int,
                            ));
                        }
                    }
                } else {
                    assert(after[r1] == before[o1]);
                    assert(before[o1] < k);
                }
            }
        }
        k += 1;
    }
    ranking
}

/// The evaluation model of one board.
#[derive(Clone, Debug)]
pub struct KuehlmakModel {
    board_type: KeyboardType,
    weights: FingerWeights,
    key_props: Vec<KeyProps>,
    bigram_types: Vec<u8>,
    trigram_types: Vec<u8>,
    key_cost_ranking: Vec<usize>,
}

impl KuehlmakModel {
    /// The board that the model was built for.
    pub closed spec fn board(&self) -> KeyboardType {
        self.board_type
    }

    /// The finger weights that the model was built with.
    pub closed spec fn finger_weights(&self) -> FingerWeights {
        self.weights
    }

    /// The keys in order of cost.
    pub closed spec fn ranking(&self) -> Seq<usize> {
        self.key_cost_ranking@
    }

    /// Every table of the model holds what the board's rules give.
    pub closed spec fn wf(&self) -> bool {
        &&& are_key_props(self.key_props@, self.board_type, self.weights, 30)
        &&& is_bigram_table(self.bigram_types@, self.board_type, 30)
        &&& is_trigram_table(self.trigram_types@, self.board_type)
        &&& is_cost_ranking(self.key_cost_ranking@, self.board_type, self.weights, 30)
    }

    /// Builds the model of `board_type` with the given finger weights.
    pub fn new(board_type: KeyboardType, weights: FingerWeights) -> (model: KuehlmakModel)
        ensures
            model.wf(),
            model.board() == board_type,
            model.finger_weights() == weights,
    {
        let key_props = all_key_props(board_type, &weights);
        let scissors = scissor_table(board_type);
        let bigram_types = bigram_table(Ghost(board_type), Ghost(weights), &key_props, &scissors);
        let trigram_types = trigram_table(
            Ghost(board_type),
            Ghost(weights),
            &key_props,
            &bigram_types,
        );
        let key_cost_ranking = cost_ranking(Ghost(board_type), Ghost(weights), &key_props);
        KuehlmakModel {
            board_type,
            weights,
            key_props,
            bigram_types,
            trigram_types,
            key_cost_ranking,
        }
    }

    /// The board geometry of the model.
    pub fn board_type(&self) -> (board: KeyboardType)
        ensures
            board == self.board(),
    {
        self.board_type
    }

    /// The properties of key `key`.
    pub fn key_props(&self, key: usize) -> (props: &KeyProps)
        requires
            self.wf(),
            key < 30,
        ensures
            is_key_props(*props, self.board(), self.finger_weights(), key as int),
    {
        &self.key_props[key]
    }

    /// The class of the ordered key pair `(k0, k1)`.
    pub fn bigram_type(&self, k0: usize, k1: usize) -> (class: u8)
        requires
            self.wf(),
            k0 < 30,
            k1 < 30,
        ensures
            class == bigram_type(self.board(), k0 as int, k1 as int),
    {
        self.bigram_types[k0 * 30 + k1]
    }

    /// The class of the ordered key triple `(k0, k1, k2)`.
    pub fn trigram_type(&self, k0: usize, k1: usize, k2: usize) -> (class: u8)
        requires
            self.wf(),
            k0 < 30,
            k1 < 30,
            k2 < 30,
        ensures
            class == trigram_type(self.board(), k0 as int, k1 as int, k2 as int),
    {
        self.trigram_types[(k0 * 30 + k1) * 30 + k2]
    }

    /// The keys ranked by cost, cheapest first.
    pub fn key_cost_ranking(&self) -> (ranking: &Vec<usize>)
        requires
            self.wf(),
        ensures
            ranking@ == self.ranking(),
            is_cost_ranking(ranking@, self.board(), self.finger_weights(), 30),
    {
        &self.key_cost_ranking
    }

    /// Whether the model treats both hands alike, so that a layout and
    /// its mirror image score the same.
    pub fn is_symmetrical(&self) -> (symmetrical: bool)
        ensures
            symmetrical == !(self.board() is ANSI || self.board() is ISO),
    {
        match self.board_type {
            KeyboardType::ISO => false,
            KeyboardType::ANSI => false,
            _ => true,
        }
    }
}

/// Every pair and every triple of keys has one of the known classes;
/// a pair on one hand is never of the class of alternating hands.
pub proof fn lemma_class_range(board: KeyboardType, i: int, j: int, k: int)
    ensures
        0 <= bigram_type(board, i, j) < BIGRAM_NUM_TYPES,
        0 <= trigram_type(board, i, j, k) < TRIGRAM_NUM_TYPES,
        key_hand(i) == key_hand(j) ==> bigram_type(board, i, j) != BIGRAM_ALTERNATE,
{
}

/// The mirror image of a key is a key of the same row, and the mirror
/// image of that is the key itself.
pub proof fn lemma_mirror_twice(k: int)
    requires
        0 <= k < 30,
    ensures
        0 <= mirror_key_spec(k) < 30,
        mirror_key_spec(k) / 10 == k / 10,
        mirror_key_spec(k) % 10 == 9 - k % 10,
        mirror_key_spec(mirror_key_spec(k)) == k,
{
}

/// A finger and its mirror image: the fingers of the other hand are
/// numbered the other way round.
pub proof fn lemma_mirror_finger(board: KeyboardType, k: int)
    requires
        0 <= k < 30,
    ensures
        key_finger(board, mirror_key_spec(k)) == 7 - key_finger(board, k),
        key_hand(mirror_key_spec(k)) == 1 - key_hand(k),
        key_is_stretch(board, mirror_key_spec(k)) == key_is_stretch(board, k),
{
    lemma_mirror_twice(k);
}

/// The mirror image of a scissor is a scissor.
pub proof fn lemma_mirror_scissor(board: KeyboardType, a: int, b: int)
    requires
        0 <= a < 30,
        0 <= b < 30,
    ensures
        is_scissor(board, mirror_key_spec(a), mirror_key_spec(b)) == is_scissor(board, a, b),
{
    let seeds = scissor_seeds(board);
    let n = seeds.len() as int;
    lemma_mirror_twice(a);
    lemma_mirror_twice(b);
    lemma_seeds_are_keys(board);
    if is_scissor(board, a, b) {
        let m = choose|m: int| 0 <= m < n && seed_covers(#[trigger] seeds[m], a, b);
        lemma_mirror_twice(seeds[m].0 as int);
        lemma_mirror_twice(seeds[m].1 as int);
        assert(seed_covers(seeds[m], mirror_key_spec(a), mirror_key_spec(b)));
    }
    if is_scissor(board, mirror_key_spec(a), mirror_key_spec(b)) {
        let m = choose|m: int|
            0 <= m < n && seed_covers(#[trigger] seeds[m], mirror_key_spec(a), mirror_key_spec(b));
        lemma_mirror_twice(seeds[m].0 as int);
        lemma_mirror_twice(seeds[m].1 as int);
        assert(seed_covers(seeds[m], a, b));
    }
}

/// Every seed of the scissors is a pair of keys.
pub proof fn lemma_seeds_are_keys(board: KeyboardType)
    ensures
        forall|m: int|
            0 <= m < scissor_seeds(board).len() ==> (#[trigger] scissor_seeds(board)[m]).0 < 30
                && scissor_seeds(board)[m].1 < 30,
{
    let base = base_scissors();
    assert(forall|m: int| 0 <= m < 18 ==> (#[trigger] base[m]).0 < 30 && base[m].1 < 30);
    if is_hex(board) {
        let shifted = base.map_values(|b: (u8, u8)| (hex_shift(b.0), hex_shift(b.1)));
        let more = seq![(0u8, 11u8), (0, 21), (0, 12), (0, 22), (0, 23), (0, 24)];
        assert forall|m: int| 0 <= m < scissor_seeds(board).len() implies (
        #[trigger] scissor_seeds(board)[m]).0 < 30 && scissor_seeds(board)[m].1 < 30 by {
            if m < 18 {
                assert(scissor_seeds(board)[m] == shifted[m]);
                assert(base[m].0 < 30 && base[m].1 < 30);
            } else {
                assert(scissor_seeds(board)[m] == more[m - 18]);
            }
        }
    } else {
        let more = seq![(20u8, 4u8), (21, 4), (22, 4)];
        assert forall|m: int| 0 <= m < scissor_seeds(board).len() implies (
        #[trigger] scissor_seeds(board)[m]).0 < 30 && scissor_seeds(board)[m].1 < 30 by {
            if m < 18 {
                assert(scissor_seeds(board)[m] == base[m]);
            } else {
                assert(scissor_seeds(board)[m] == more[m - 18]);
            }
        }
    }
}

/// A pair of keys and its mirror image under the other hand have the
/// same class.
pub proof fn lemma_bigram_mirror(board: KeyboardType, i: int, j: int)
    requires
        0 <= i < 30,
        0 <= j < 30,
    ensures
        bigram_type(board, mirror_key_spec(i), mirror_key_spec(j)) == bigram_type(board, i, j),
{
    lemma_mirror_twice(i);
    lemma_mirror_twice(j);
    lemma_mirror_finger(board, i);
    lemma_mirror_finger(board, j);
    lemma_mirror_scissor(board, i, j);
}

/// A triple of keys and its mirror image under the other hand have the
/// same class.
pub proof fn lemma_trigram_mirror(board: KeyboardType, i: int, j: int, k: int)
    requires
        0 <= i < 30,
        0 <= j < 30,
        0 <= k < 30,
    ensures
        trigram_type(board, mirror_key_spec(i), mirror_key_spec(j), mirror_key_spec(k))
            == trigram_type(board, i, j, k),
{
    lemma_mirror_twice(i);
    lemma_mirror_twice(j);
    lemma_mirror_twice(k);
    lemma_mirror_finger(board, i);
    lemma_mirror_finger(board, j);
    lemma_mirror_finger(board, k);
    lemma_bigram_mirror(board, i, j);
    lemma_bigram_mirror(board, j, k);
    lemma_bigram_mirror(board, i, k);
}

} // verus!
