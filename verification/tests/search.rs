use kuehlmak::mutate::{swap_columns, swap_keys, swap_rows};
use kuehlmak::{neighbor, start_layout, FingerWeights, KeyboardType, KuehlmakModel, Layout};
use rand::rngs::SmallRng;
use rand::SeedableRng;

static QWERTY: Layout = [
    ['q', 'Q'], ['w', 'W'], ['e', 'E'], ['r', 'R'], ['t', 'T'],
    ['y', 'Y'], ['u', 'U'], ['i', 'I'], ['o', 'O'], ['p', 'P'],
    ['a', 'A'], ['s', 'S'], ['d', 'D'], ['f', 'F'], ['g', 'G'],
    ['h', 'H'], ['j', 'J'], ['k', 'K'], ['l', 'L'], [';', ':'],
    ['z', 'Z'], ['x', 'X'], ['c', 'C'], ['v', 'V'], ['b', 'B'],
    ['n', 'N'], ['m', 'M'], [',', '<'], ['.', '>'], ['/', '?'],
];

fn sorted(layout: &Layout) -> Vec<[char; 2]> {
    let mut keys = layout.to_vec();
    keys.sort();
    keys
}

fn changed(a: &Layout, b: &Layout) -> usize {
    (0..30).filter(|&k| a[k] != b[k]).count()
}

#[test]
fn start_without_shuffle_is_the_layout() {
    let mut rng = SmallRng::seed_from_u64(1);
    assert_eq!(start_layout(&QWERTY, false, &mut rng), QWERTY);
}

#[test]
fn shuffled_start_has_the_same_keys() {
    let mut rng = SmallRng::seed_from_u64(2);
    let mut moved = 0;
    for _ in 0..20 {
        let start = start_layout(&QWERTY, true, &mut rng);
        assert_eq!(sorted(&start), sorted(&QWERTY));
        moved += changed(&start, &QWERTY);
    }
    assert!(moved > 0);
}

#[test]
fn swapping_keys() {
    let swapped = swap_keys(&QWERTY, 3, 17);
    assert_eq!(swapped[3], ['k', 'K']);
    assert_eq!(swapped[17], ['r', 'R']);
    assert_eq!(changed(&swapped, &QWERTY), 2);
    assert_eq!(swap_keys(&QWERTY, 5, 5), QWERTY);
    assert_eq!(swap_keys(&swapped, 17, 3), QWERTY);
}

#[test]
fn swapping_rows_of_one_hand() {
    let swapped = swap_rows(&QWERTY, 1, 0, 2);
    for k in 0..30 {
        let expected = match k {
            5..=9 => QWERTY[k + 20],
            25..=29 => QWERTY[k - 20],
            _ => QWERTY[k],
        };
        assert_eq!(swapped[k], expected);
    }
    assert_eq!(swap_rows(&QWERTY, 0, 1, 1), QWERTY);
    assert_eq!(swap_rows(&swapped, 1, 2, 0), QWERTY);
}

#[test]
fn swapping_columns() {
    let swapped = swap_columns(&QWERTY, 1, 3);
    for k in 0..30 {
        let expected = match k % 10 {
            1 => QWERTY[k + 2],
            3 => QWERTY[k - 2],
            _ => QWERTY[k],
        };
        assert_eq!(swapped[k], expected);
    }
    assert_eq!(swap_columns(&QWERTY, 4, 4), QWERTY);
}

#[test]
fn neighbors_have_the_same_keys() {
    let model = KuehlmakModel::new(KeyboardType::Ortho, FingerWeights::default());
    let mut rng = SmallRng::seed_from_u64(3);
    for ways in 1..=5 {
        let mut layout = QWERTY;
        let mut moved = 0;
        for _ in 0..200 {
            let next = neighbor(&mut rng, &layout, &model, ways, 4);
            assert_eq!(sorted(&next), sorted(&QWERTY));
            // no two keys of the layout are the same, so every step shows
            let n = changed(&next, &layout);
            assert!(n == 2 || n == 6 || n == 10);
            moved += n;
            layout = next;
        }
        assert!(moved > 0);
    }
}

#[test]
fn keys_of_one_finger_change_places() {
    for board in [KeyboardType::Ortho, KeyboardType::Hex, KeyboardType::ISO] {
        let model = KuehlmakModel::new(board, FingerWeights::default());
        let mut rng = SmallRng::seed_from_u64(5);
        let mut fingers = 0;
        for _ in 0..400 {
            let next = neighbor(&mut rng, &QWERTY, &model, 2, 1);
            let moved: Vec<usize> = (0..30).filter(|&k| next[k] != QWERTY[k]).collect();
            assert_eq!(moved.len(), 2);
            if model.key_props(moved[0]).finger == model.key_props(moved[1]).finger {
                fingers += 1;
            }
        }
        assert!(fingers >= 100);
    }
}

#[test]
fn the_finest_neighbors_swap_two_keys_of_similar_cost() {
    let model = KuehlmakModel::new(KeyboardType::Ortho, FingerWeights::default());
    let ranking = model.key_cost_ranking().clone();
    let rank = |k: usize| ranking.iter().position(|&r| r == k).unwrap();
    let mut rng = SmallRng::seed_from_u64(4);
    for _ in 0..200 {
        let next = neighbor(&mut rng, &QWERTY, &model, 1, 3);
        let moved: Vec<usize> = (0..30).filter(|&k| next[k] != QWERTY[k]).collect();
        assert_eq!(moved.len(), 2);
        assert!(rank(moved[0]).abs_diff(rank(moved[1])) <= 3);
        assert_eq!(next[moved[0]], QWERTY[moved[1]]);
        assert_eq!(next[moved[1]], QWERTY[moved[0]]);
    }
}
