use kuehlmak::model::{
    BIGRAM_ALTERNATE, BIGRAM_DROLL, BIGRAM_LSB1, BIGRAM_LSB2, BIGRAM_LSB3, BIGRAM_SAMEKEY,
    BIGRAM_SCISSOR, BIGRAM_SFB, BIGRAM_UROLL, TRIGRAM_CONTORT, TRIGRAM_D_SAMEKEY,
    TRIGRAM_D_SCISSOR, TRIGRAM_D_SFB, TRIGRAM_D_UROLL, TRIGRAM_NONE, TRIGRAM_REDIRECT,
    TRIGRAM_RROLL, TRIGRAM_SHD_SAMEKEY, TRIGRAM_SHD_SFB,
};
use kuehlmak::{mirror_key, score_names, FingerWeights, KeyboardType, KuehlmakModel};

fn model(board: KeyboardType) -> KuehlmakModel {
    KuehlmakModel::new(board, FingerWeights::default())
}

const BOARDS: [KeyboardType; 6] = [
    KeyboardType::Ortho,
    KeyboardType::ColStag,
    KeyboardType::Hex,
    KeyboardType::HexStag,
    KeyboardType::ANSI,
    KeyboardType::ISO,
];

#[test]
fn default_finger_weights() {
    let w = FingerWeights::default();
    assert_eq!(
        (w.index_finger, w.middle_finger, w.ring_finger, w.pinky_finger),
        (1, 1, 2, 5)
    );
}

#[test]
fn key_props_of_an_ortho_board() {
    let m = model(KeyboardType::Ortho);
    let p = m.key_props(0);
    assert_eq!((p.hand, p.finger, p.is_stretch, p.home_col, p.cost), (0, 0, false, 0, 20));
    assert_eq!(p.home_dist_sq, 16);
    assert_eq!(p.rel_dist_sq[0], 0);
    assert_eq!(p.rel_dist_sq[11], 32);
    assert_eq!(p.rel_dist_sq[29], 81 * 16 + 4 * 16);
    let p = m.key_props(14);
    assert_eq!((p.hand, p.finger, p.is_stretch, p.home_col, p.cost), (0, 3, true, 3, 3));
    assert_eq!(p.home_dist_sq, 16);
    let p = m.key_props(25);
    assert_eq!((p.hand, p.finger, p.is_stretch, p.home_col, p.cost), (1, 4, true, 6, 6));
    assert_eq!(p.home_dist_sq, 32);
    let p = m.key_props(18);
    assert_eq!((p.hand, p.finger, p.is_stretch, p.home_col, p.cost), (1, 6, false, 8, 2));
    assert_eq!(p.home_dist_sq, 0);
}

#[test]
fn key_props_of_staggered_boards() {
    // the top row of an ANSI board lies a quarter of a key to the left
    let p = *model(KeyboardType::ANSI).key_props(0);
    assert_eq!(p.home_dist_sq, 1 + 16);
    // and the bottom row half a key to the right
    let p = *model(KeyboardType::ANSI).key_props(20);
    assert_eq!(p.home_dist_sq, 4 + 16);
    assert_eq!(p.rel_dist_sq[10], 4 + 16);
    assert_eq!(p.rel_dist_sq[0], 9 + 64);
    // the bottom row of an ISO board goes to the left under the left hand
    let p = *model(KeyboardType::ISO).key_props(20);
    assert_eq!(p.home_dist_sq, 4 + 16);
    assert_eq!(p.rel_dist_sq[0], 1 + 64);
    let p = *model(KeyboardType::ISO).key_props(29);
    assert_eq!(p.home_dist_sq, 4 + 16);
    assert_eq!(p.cost, 2 * 5);
    assert_eq!(model(KeyboardType::ANSI).key_props(24).cost, 9);
    assert_eq!(model(KeyboardType::ISO).key_props(24).cost, 3);
}

#[test]
fn key_props_of_a_hexagonal_board() {
    let m = model(KeyboardType::Hex);
    // the top row is shifted by one finger
    let p = m.key_props(0);
    assert_eq!((p.hand, p.finger, p.is_stretch, p.home_col, p.cost), (0, 0, true, 0, 15));
    assert_eq!(p.home_dist_sq, 16 + 16);
    let p = m.key_props(1);
    assert_eq!((p.hand, p.finger, p.is_stretch, p.home_col, p.cost), (0, 0, false, 0, 20));
    assert_eq!(p.home_dist_sq, 16);
    let p = m.key_props(4);
    assert_eq!((p.hand, p.finger, p.is_stretch, p.home_col, p.cost), (0, 3, false, 3, 4));
    let p = m.key_props(9);
    assert_eq!((p.hand, p.finger, p.is_stretch, p.home_col, p.cost), (1, 7, true, 9, 15));
    // the other rows are as on any board
    let p = m.key_props(14);
    assert_eq!((p.hand, p.finger, p.is_stretch, p.home_col, p.cost), (0, 3, true, 3, 3));
    assert_eq!(model(KeyboardType::HexStag).key_props(1).cost, 15);
}

#[test]
fn finger_weights_scale_the_cost() {
    let w = FingerWeights {
        index_finger: 3,
        middle_finger: 4,
        ring_finger: 5,
        pinky_finger: 255,
    };
    let m = KuehlmakModel::new(KeyboardType::Ortho, w);
    assert_eq!(m.key_props(4).cost, 36);
    assert_eq!(m.key_props(12).cost, 4);
    assert_eq!(m.key_props(21).cost, 20);
    assert_eq!(m.key_props(9).cost, 4 * 255);
}

#[test]
fn bigram_classes() {
    let m = model(KeyboardType::Ortho);
    let class = |a: usize, b: usize| m.bigram_type(a, b) as usize;
    assert_eq!(class(0, 5), BIGRAM_ALTERNATE);
    assert_eq!(class(0, 0), BIGRAM_SAMEKEY);
    assert_eq!(class(0, 10), BIGRAM_SFB);
    assert_eq!(class(13, 14), BIGRAM_SFB);
    assert_eq!(class(10, 11), BIGRAM_UROLL);
    assert_eq!(class(11, 10), BIGRAM_DROLL);
    assert_eq!(class(10, 13), BIGRAM_DROLL);
    assert_eq!(class(12, 10), BIGRAM_UROLL);
    assert_eq!(class(0, 11), BIGRAM_SCISSOR);
    assert_eq!(class(11, 0), BIGRAM_SCISSOR);
    assert_eq!(class(9, 18), BIGRAM_SCISSOR);
    assert_eq!(class(18, 9), BIGRAM_SCISSOR);
    assert_eq!(class(12, 14), BIGRAM_LSB1);
    assert_eq!(class(11, 14), BIGRAM_LSB2);
    assert_eq!(class(10, 14), BIGRAM_LSB3);
    assert_eq!(class(14, 10), BIGRAM_LSB3);
    // a scissor with a stretch is the worst stretch
    assert_eq!(class(0, 24), BIGRAM_LSB1);
    assert_eq!(class(20, 4), BIGRAM_LSB1);
    // 4 and 24 are one finger
    assert_eq!(class(4, 24), BIGRAM_SFB);
}

#[test]
fn bigram_classes_of_a_hexagonal_board() {
    let m = model(KeyboardType::Hex);
    let class = |a: usize, b: usize| m.bigram_type(a, b) as usize;
    // the scissors of the top row move with its keys
    assert_eq!(class(1, 11), BIGRAM_SCISSOR);
    assert_eq!(class(21, 3), BIGRAM_SCISSOR);
    assert_eq!(class(20, 4), BIGRAM_SCISSOR);
    // 0 is a stretch of the pinky
    assert_eq!(class(0, 11), BIGRAM_LSB1);
    assert_eq!(class(0, 1), BIGRAM_SFB);
    assert_eq!(class(0, 13), BIGRAM_LSB3);
    assert_eq!(class(0, 12), BIGRAM_LSB1);
}

#[test]
fn classes_are_the_same_under_the_other_hand() {
    for board in BOARDS {
        let m = model(board);
        let mk = |k: usize| mirror_key(k as u8) as usize;
        for a in 0..30 {
            for b in 0..30 {
                assert_eq!(m.bigram_type(a, b), m.bigram_type(mk(a), mk(b)));
                for c in [0usize, 7, 12, 14, 15, 23, 29] {
                    assert_eq!(
                        m.trigram_type(a, b, c),
                        m.trigram_type(mk(a), mk(b), mk(c))
                    );
                }
            }
        }
    }
}

#[test]
fn trigram_classes() {
    let m = model(KeyboardType::Ortho);
    let class = |a: usize, b: usize, c: usize| m.trigram_type(a, b, c) as usize;
    assert_eq!(class(10, 15, 11), TRIGRAM_D_UROLL);
    assert_eq!(class(10, 15, 10), TRIGRAM_D_SAMEKEY);
    assert_eq!(class(10, 15, 0), TRIGRAM_D_SFB);
    assert_eq!(class(0, 15, 11), TRIGRAM_D_SCISSOR);
    assert_eq!(class(10, 11, 12), TRIGRAM_RROLL);
    assert_eq!(class(10, 12, 11), TRIGRAM_REDIRECT);
    assert_eq!(class(10, 11, 10), TRIGRAM_SHD_SAMEKEY);
    assert_eq!(class(10, 11, 0), TRIGRAM_SHD_SFB);
    assert_eq!(class(0, 11, 22), TRIGRAM_CONTORT);
    assert_eq!(class(0, 12, 11), TRIGRAM_CONTORT);
    assert_eq!(class(10, 11, 15), TRIGRAM_NONE);
    assert_eq!(class(15, 10, 11), TRIGRAM_NONE);
    assert_eq!(class(10, 10, 11), TRIGRAM_NONE);
}

#[test]
fn keys_ranked_by_cost() {
    let m = model(KeyboardType::Ortho);
    let ranking = m.key_cost_ranking();
    assert_eq!(ranking.len(), 30);
    assert_eq!(&ranking[0..4], &[12, 13, 16, 17]);
    assert_eq!(&ranking[4..10], &[2, 7, 11, 18, 23, 26]);
    assert_eq!(&ranking[28..30], &[0, 9]);
    let mut sorted = ranking.clone();
    sorted.sort();
    assert_eq!(sorted, (0..30).collect::<Vec<usize>>());
    for r in 1..30 {
        assert!(m.key_props(ranking[r - 1]).cost <= m.key_props(ranking[r]).cost);
    }
}

#[test]
fn boards_that_treat_the_hands_alike() {
    assert!(model(KeyboardType::Ortho).is_symmetrical());
    assert!(model(KeyboardType::ColStag).is_symmetrical());
    assert!(model(KeyboardType::Hex).is_symmetrical());
    assert!(model(KeyboardType::HexStag).is_symmetrical());
    assert!(!model(KeyboardType::ANSI).is_symmetrical());
    assert!(!model(KeyboardType::ISO).is_symmetrical());
}

#[test]
fn names_of_the_scores() {
    assert_eq!(
        score_names(),
        vec![
            "total", "constraints", "effort", "travel", "imbalance", "drolls", "urolls",
            "WLSBs", "scissors", "SFBs", "d_drolls", "d_urolls", "dWLSBs", "d_scissors",
            "dSFBs", "rrolls", "redirects", "contorts"
        ]
    );
}

#[test]
fn distances_are_the_roots_of_the_squares() {
    // the offsets of the rows in key widths, for the left and the right hand
    let offsets = |board: KeyboardType| -> [[f32; 2]; 3] {
        match board {
            KeyboardType::Ortho | KeyboardType::ColStag => [[0.0, 0.0], [0.0, 0.0], [0.0, 0.0]],
            KeyboardType::Hex | KeyboardType::HexStag => [[-1.0, 1.0], [0.0, 0.0], [0.0, 0.0]],
            KeyboardType::ANSI => [[-0.25, -0.25], [0.0, 0.0], [0.5, 0.5]],
            KeyboardType::ISO => [[-0.25, -0.25], [0.0, 0.0], [-0.5, 0.5]],
        }
    };
    for board in BOARDS {
        let m = model(board);
        let key_offsets = offsets(board);
        for key in 0..30usize {
            let props = m.key_props(key);
            let hand = props.hand as usize;
            let (row, col) = (key / 10, key % 10);
            let x = col as f32 - props.home_col as f32 + key_offsets[row][hand];
            let y = row as f32 - 1.0;
            let d_abs = (x * x + y * y).sqrt();
            assert_eq!((props.home_dist_sq as f32).sqrt() / 4.0, d_abs);
            for other in 0..30usize {
                let (r, c) = (other / 10, other % 10);
                let dx = c as f32 - col as f32 + key_offsets[r][hand] - key_offsets[row][hand];
                let dy = r as f32 - row as f32;
                let d_rel = (dx * dx + dy * dy).sqrt();
                assert_eq!((props.rel_dist_sq[other] as f32).sqrt() / 4.0, d_rel);
            }
        }
    }
}
