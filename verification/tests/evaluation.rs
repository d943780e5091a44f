use kuehlmak::model::{BIGRAM_UROLL, TRIGRAM_SHD_SAMEKEY};
use kuehlmak::usage::{key_usage, NO_KEY};
use kuehlmak::{FingerWeights, KeyboardType, KuehlmakModel, Layout, TextStats};

static QWERTY: Layout = [
    ['q', 'Q'], ['w', 'W'], ['e', 'E'], ['r', 'R'], ['t', 'T'],
    ['y', 'Y'], ['u', 'U'], ['i', 'I'], ['o', 'O'], ['p', 'P'],
    ['a', 'A'], ['s', 'S'], ['d', 'D'], ['f', 'F'], ['g', 'G'],
    ['h', 'H'], ['j', 'J'], ['k', 'K'], ['l', 'L'], [';', ':'],
    ['z', 'Z'], ['x', 'X'], ['c', 'C'], ['v', 'V'], ['b', 'B'],
    ['n', 'N'], ['m', 'M'], [',', '<'], ['.', '>'], ['/', '?'],
];

fn ortho() -> KuehlmakModel {
    KuehlmakModel::new(KeyboardType::Ortho, FingerWeights::default())
}

fn effort(model: &KuehlmakModel, heat: &[u128]) -> f64 {
    let mut finger_cost = [0.0f64; 8];
    for k in 0..heat.len() {
        let props = model.key_props(10 + k);
        finger_cost[props.finger as usize] += heat[k] as f64 * props.cost as f64;
    }
    let strokes: u128 = heat.iter().sum();
    finger_cost.iter().map(|c| c * c).sum::<f64>().sqrt() / strokes as f64
}

fn permutations(items: &mut Vec<u64>, k: usize, visit: &mut dyn FnMut(&[u64])) {
    if k == items.len() {
        visit(items);
        return;
    }
    for i in k..items.len() {
        items.swap(k, i);
        permutations(items, k + 1, visit);
        items.swap(k, i);
    }
}

#[test]
fn usage_of_the_keys() {
    let stats = TextStats::from_str("adad, Dad!").unwrap();
    let usage = key_usage(&QWERTY, &stats);
    assert_eq!(usage.token_keymap.len(), stats.token_base());
    assert_eq!(usage.token_keymap[stats.symbol(['a']).1], 10);
    assert_eq!(usage.token_keymap[stats.symbol(['d']).1], 12);
    assert_eq!(usage.token_keymap[stats.symbol([',']).1], 27);
    assert_eq!(usage.token_keymap[stats.symbol(['!']).1], NO_KEY);
    assert_eq!(usage.token_keymap[stats.symbol([' ']).1], NO_KEY);
    assert_eq!(usage.token_keymap[0], NO_KEY);
    let mut heat = vec![0u128; 30];
    heat[10] = 3;
    heat[12] = 4;
    heat[27] = 1;
    assert_eq!(usage.heatmap, heat);
    assert_eq!(usage.strokes, 8);
    let counts = ortho().eval_layout(&QWERTY, &stats, 0, 0, false);
    assert_eq!(counts.usage, usage);
    assert_eq!(counts.hand_use, vec![7, 1]);
    assert_eq!(counts.finger_use, vec![3, 0, 4, 0, 0, 1, 0, 0]);
}

#[test]
fn usage_counts_a_symbol_for_each_of_its_keys() {
    let stats = TextStats::from_str("aab").unwrap();
    let mut layout = QWERTY;
    layout[5] = ['a', 'a'];
    let usage = key_usage(&layout, &stats);
    assert_eq!(usage.heatmap[5], 4);
    assert_eq!(usage.heatmap[10], 2);
    assert_eq!(usage.heatmap[24], 1);
    assert_eq!(usage.strokes, 7);
    // the last key that holds a symbol is the key of its token
    assert_eq!(usage.token_keymap[stats.symbol(['a']).1], 10);
}

#[test]
fn counts_of_a_small_corpus() {
    let stats = TextStats::from_str("adad").unwrap();
    let model = ortho();
    let counts = model.eval_layout(&QWERTY, &stats, 3, 2, true);
    assert_eq!(counts.usage.strokes, 4);

    let mut expected = vec![0u64; 9];
    expected[BIGRAM_UROLL] = 3;
    assert_eq!(counts.bigrams.counts, expected);
    assert_eq!(counts.bigrams.observed, 3);
    assert_eq!(counts.bigrams.same_hand, vec![3, 0]);
    assert_eq!(counts.bigrams.moves, vec![]);
    assert_eq!(
        counts.bigrams.details,
        Some(vec![(BIGRAM_UROLL as u8, 0), (BIGRAM_UROLL as u8, 1)])
    );

    let mut expected = vec![0u64; 14];
    expected[TRIGRAM_SHD_SAMEKEY] = 2;
    assert_eq!(counts.trigrams.counts, expected);
    assert_eq!(counts.trigrams.observed, 2);
    assert_eq!(counts.trigrams.same_hand, vec![0, 0]);
    assert_eq!(counts.trigrams.moves, vec![(10, 10, 1), (12, 12, 1)]);
    assert_eq!(
        counts.trigrams.details,
        Some(vec![
            (TRIGRAM_SHD_SAMEKEY as u8, 0),
            (TRIGRAM_SHD_SAMEKEY as u8, 1)
        ])
    );
}

#[test]
fn counts_are_scaled_from_what_was_looked_at() {
    let stats = TextStats::from_str("adad").unwrap();
    let model = ortho();
    // the first bigram counts 2 of 3, which is more than 1: the second is not looked at
    let counts = model.eval_layout(&QWERTY, &stats, 1, 0, false);
    assert_eq!(counts.bigrams.observed, 2);
    assert_eq!(counts.bigrams.counts[BIGRAM_UROLL], 2 * 3 / 2);
    assert_eq!(counts.bigrams.same_hand, vec![2, 0]);
    assert_eq!(counts.bigrams.details, None);
    assert_eq!(counts.trigrams.observed, 1);
    assert_eq!(counts.trigrams.counts[TRIGRAM_SHD_SAMEKEY], 1 * 2 / 1);
    assert_eq!(counts.trigrams.moves, vec![(10, 10, 1)]);
}

#[test]
fn ngrams_with_a_symbol_on_no_key_are_passed_over() {
    let stats = TextStats::from_str("a!a!da").unwrap();
    let model = ortho();
    let counts = model.eval_layout(&QWERTY, &stats, 100, 100, true);
    // a! twice, !a twice, !d and da once: all are looked at, da alone has keys
    assert_eq!(counts.bigrams.observed, 5);
    assert_eq!(counts.bigrams.counts[BIGRAM_UROLL], 1 * 5 / 5);
    assert_eq!(counts.bigrams.counts.iter().sum::<u64>(), 1);
    assert_eq!(counts.trigrams.counts.iter().sum::<u64>(), 0);
    assert_eq!(counts.trigrams.observed, 4);
}

#[test]
fn same_finger_bigrams_move_the_finger() {
    let stats = TextStats::from_str("dede").unwrap();
    let model = ortho();
    let counts = model.eval_layout(&QWERTY, &stats, 3, 2, false);
    // d is key 12 and e key 2, both of the left middle finger
    assert_eq!(counts.bigrams.moves, vec![(12, 2, 2), (2, 12, 1)]);
    assert_eq!(counts.bigrams.counts[kuehlmak::model::BIGRAM_SFB], 3);
}

#[test]
fn evaluation_is_repeatable() {
    let stats = TextStats::from_str(
        "It was the best of times, it was the worst of times, it was the age of wisdom.",
    )
    .unwrap();
    for board in [KeyboardType::Ortho, KeyboardType::Hex, KeyboardType::ISO] {
        let model = KuehlmakModel::new(board, FingerWeights::default());
        let bigrams = stats.total_bigrams() as u64;
        let trigrams = stats.total_trigrams() as u64;
        let first = model.eval_layout(&QWERTY, &stats, bigrams, trigrams, true);
        let second = model.eval_layout(&QWERTY, &stats, bigrams, trigrams, true);
        assert_eq!(first, second);
        let again = KuehlmakModel::new(board, FingerWeights::default());
        assert_eq!(again.eval_layout(&QWERTY, &stats, bigrams, trigrams, true), first);
    }
}

#[test]
fn class_counts_add_up_to_the_bigrams_with_keys() {
    let stats = TextStats::from_str("the quick brown fox jumps over the lazy dog").unwrap();
    let model = ortho();
    let total = stats.total_bigrams() as u64;
    let counts = model.eval_layout(&QWERTY, &stats, total, 0, true);
    assert_eq!(counts.bigrams.observed, total);
    assert_eq!(counts.bigrams.counts.iter().sum::<u64>(), total);
    let left_right: u64 = counts.bigrams.same_hand.iter().sum();
    assert_eq!(left_right, total - counts.bigrams.counts[0]);
    let details = counts.bigrams.details.unwrap();
    let list = stats.iter_bigrams();
    for class in 1..9u8 {
        let sum: u64 = details
            .iter()
            .filter(|d| d.0 == class)
            .map(|d| list[d.1].1 as u64)
            .sum();
        assert_eq!(sum, counts.bigrams.counts[class as usize]);
    }
}

#[test]
fn balanced_home_row_layout() {
    // each hand types 15 of the 30 characters, all of them in the home row
    let stats = TextStats::from_str("asssdddddffffgghhjjjjkkkkklll;").unwrap();
    let model = ortho();
    let counts = model.eval_layout(&QWERTY, &stats, 0, 0, false);
    let heat = &counts.usage.heatmap;
    assert_eq!(counts.usage.strokes, 30);
    assert_eq!(&heat[10..20], &[1, 3, 5, 4, 2, 2, 4, 5, 3, 1]);
    assert!(heat[0..10].iter().chain(&heat[20..30]).all(|&h| h == 0));

    let hand = &counts.hand_use;
    assert_eq!(counts.hand_use, vec![15, 15]);
    assert_eq!(counts.finger_use, vec![1, 3, 5, 6, 6, 5, 3, 1]);
    let balance = if hand[0] > hand[1] {
        hand[1] as f64 / hand[0] as f64
    } else {
        hand[0] as f64 / hand[1] as f64
    };
    let imbalance = balance.max(0.001).recip() - 1.0;
    assert_eq!(imbalance, 0.0);

    let mine = effort(&model, &heat[10..20]);
    assert_eq!(mine, 372f64.sqrt() / 30.0);
    let mut least = f64::MAX;
    let mut items: Vec<u64> = heat[10..20].iter().map(|&h| h as u64).collect();
    permutations(&mut items, 0, &mut |p| {
        let mut squares = 0u64;
        let mut load = [0u64; 8];
        for k in 0..10 {
            let props = model.key_props(10 + k);
            load[props.finger as usize] += p[k] * props.cost as u64;
        }
        for l in load {
            squares += l * l;
        }
        let e = (squares as f64).sqrt() / 30.0;
        if e < least {
            least = e;
        }
    });
    assert_eq!(mine, least);
}

// The pass over the bigrams, written out step by step.
fn bigram_pass(
    model: &KuehlmakModel,
    stats: &TextStats,
    keymap: &[u8],
    percentile: u64,
) -> (Vec<u64>, Vec<u64>, Vec<(u8, u8, u64)>, u64) {
    let mut counts = vec![0u64; 9];
    let mut same_hand = vec![0u64; 2];
    let mut moves = vec![];
    let mut total = 0u64;
    for &(_, count, token) in stats.iter_bigrams() {
        if total > percentile {
            break;
        }
        total += count as u64;
        let t = stats.token_to_ngram(token);
        let k0 = keymap[t[0]] as usize;
        let k1 = keymap[t[1]] as usize;
        if k0 >= 30 || k1 >= 30 {
            continue;
        }
        let class = model.bigram_type(k0, k1) as usize;
        counts[class] += count as u64;
        if class == kuehlmak::model::BIGRAM_SFB || class == kuehlmak::model::BIGRAM_SAMEKEY {
            moves.push((k0 as u8, k1 as u8, count as u64));
        }
        if class != kuehlmak::model::BIGRAM_ALTERNATE {
            same_hand[k0 % 10 / 5] += count as u64;
        }
    }
    for count in counts.iter_mut() {
        *count = *count * stats.total_bigrams() as u64 / total;
    }
    (counts, same_hand, moves, total)
}

// The pass over the trigrams, written out step by step.
fn trigram_pass(
    model: &KuehlmakModel,
    stats: &TextStats,
    keymap: &[u8],
    percentile: u64,
) -> (Vec<u64>, Vec<(u8, u8, u64)>, u64) {
    let mut counts = vec![0u64; 14];
    let mut moves = vec![];
    let mut total = 0u64;
    for &(_, count, token) in stats.iter_trigrams() {
        if total > percentile {
            break;
        }
        total += count as u64;
        let t = stats.token_to_ngram(token);
        let k0 = keymap[t[0]] as usize;
        let k1 = keymap[t[1]] as usize;
        let k2 = keymap[t[2]] as usize;
        if k0 >= 30 || k1 >= 30 || k2 >= 30 {
            continue;
        }
        let class = model.trigram_type(k0, k1, k2) as usize;
        counts[class] += count as u64;
        if class >= kuehlmak::model::TRIGRAM_D_SAMEKEY && class <= kuehlmak::model::TRIGRAM_SHD_SFB
        {
            moves.push((k0 as u8, k2 as u8, count as u64));
        }
    }
    for count in counts.iter_mut() {
        *count = *count * stats.total_trigrams() as u64 / total;
    }
    (counts, moves, total)
}

#[test]
fn counts_agree_with_the_pass_written_out() {
    let text = "Pack my box with five dozen liquor jugs; then, sphinx of black quartz, \
                judge my vow. How vexingly quick daft zebras jump! Fuzzy-headed waltzes...";
    let stats = TextStats::from_str(text).unwrap();
    let bigrams = stats.total_bigrams() as u64;
    let trigrams = stats.total_trigrams() as u64;
    for board in [
        KeyboardType::Ortho,
        KeyboardType::ColStag,
        KeyboardType::Hex,
        KeyboardType::HexStag,
        KeyboardType::ANSI,
        KeyboardType::ISO,
    ] {
        let model = KuehlmakModel::new(board, FingerWeights::default());
        for part in [0u64, 1, 3, 5, 9, 10] {
            let bp = bigrams * part / 10;
            let tp = trigrams * part * part / 100;
            let counts = model.eval_layout(&QWERTY, &stats, bp, tp, part == 10);
            let keymap = &counts.usage.token_keymap;
            let (c, h, m, t) = bigram_pass(&model, &stats, keymap, bp);
            assert_eq!(counts.bigrams.counts, c);
            assert_eq!(counts.bigrams.same_hand, h);
            assert_eq!(counts.bigrams.moves, m);
            assert_eq!(counts.bigrams.observed, t);
            let (c, m, t) = trigram_pass(&model, &stats, keymap, tp);
            assert_eq!(counts.trigrams.counts, c);
            assert_eq!(counts.trigrams.moves, m);
            assert_eq!(counts.trigrams.observed, t);
            assert_eq!(counts.bigrams.details.is_some(), part == 10);
        }
    }
}

#[test]
fn corpus_without_bigrams_is_evaluated() {
    let model = ortho();
    // one character: a symbol, but no bigram and no trigram
    let stats = TextStats::from_str("a").unwrap();
    for details in [false, true] {
        let counts = model.eval_layout(&QWERTY, &stats, 0, 0, details);
        assert_eq!(counts.usage.strokes, 1);
        assert_eq!(counts.usage.heatmap[10], 1);
        assert_eq!(counts.hand_use, vec![1, 0]);
        assert_eq!(counts.bigrams.counts, vec![0u64; 9]);
        assert_eq!(counts.bigrams.observed, 0);
        assert_eq!(counts.bigrams.same_hand, vec![0, 0]);
        assert_eq!(counts.bigrams.moves, vec![]);
        assert_eq!(counts.bigrams.details, if details { Some(vec![]) } else { None });
        assert_eq!(counts.trigrams.counts, vec![0u64; 14]);
        assert_eq!(counts.trigrams.observed, 0);
        assert_eq!(counts.trigrams.moves, vec![]);
        assert_eq!(counts.trigrams.details, if details { Some(vec![]) } else { None });
    }
    // two characters: a bigram, but no trigram
    let stats = TextStats::from_str("ad").unwrap();
    let counts = model.eval_layout(&QWERTY, &stats, 1, 1, true);
    assert_eq!(counts.bigrams.observed, 1);
    assert_eq!(counts.bigrams.counts[BIGRAM_UROLL], 1);
    assert_eq!(counts.trigrams.observed, 0);
    assert_eq!(counts.trigrams.counts, vec![0u64; 14]);
}

#[test]
fn emptied_corpus_is_evaluated() {
    let model = ortho();
    let stats = TextStats::from_str("some text").unwrap().filter(|_| false);
    let counts = model.eval_layout(&QWERTY, &stats, 0, 0, true);
    assert_eq!(counts.usage.strokes, 0);
    assert_eq!(counts.usage.token_keymap, vec![kuehlmak::usage::NO_KEY]);
    assert_eq!(counts.bigrams.observed, 0);
    assert_eq!(counts.bigrams.counts, vec![0u64; 9]);
    assert_eq!(counts.trigrams.counts, vec![0u64; 14]);
    assert_eq!(counts.bigrams.details, Some(vec![]));
    // the empty text is a corpus too
    let stats = TextStats::from_str("").unwrap();
    assert_eq!(model.eval_layout(&QWERTY, &stats, 0, 0, true), counts);
}

#[test]
fn bigrams_that_count_nothing_are_not_looked_at() {
    let maps = kuehlmak::TextMaps {
        symbols: vec![("a".to_string(), 3), ("s".to_string(), 0)],
        bigrams: vec![("as".to_string(), 0), ("aa".to_string(), 0)],
        trigrams: vec![("aaa".to_string(), 0)],
    };
    let stats = TextStats::try_from(&maps).unwrap();
    let counts = ortho().eval_layout(&QWERTY, &stats, 10, 10, true);
    assert_eq!(counts.usage.strokes, 3);
    assert_eq!(counts.bigrams.observed, 0);
    assert_eq!(counts.bigrams.counts, vec![0u64; 9]);
    assert_eq!(counts.bigrams.moves, vec![]);
    assert_eq!(counts.bigrams.details, Some(vec![]));
    assert_eq!(counts.trigrams.moves, vec![]);
}

#[test]
fn counts_of_any_size_are_added_up() {
    let maps = kuehlmak::TextMaps {
        symbols: vec![("a".to_string(), usize::MAX)],
        bigrams: vec![("aa".to_string(), usize::MAX)],
        trigrams: vec![("aaa".to_string(), usize::MAX)],
    };
    let stats = TextStats::try_from(&maps).unwrap();
    let layout: Layout = [['a', 'a']; 30];
    let counts = ortho().eval_layout(&layout, &stats, u64::MAX, u64::MAX, true);
    assert_eq!(counts.usage.heatmap, vec![2 * usize::MAX as u128; 30]);
    assert_eq!(counts.usage.strokes, 60 * usize::MAX as u128);
    assert_eq!(counts.hand_use, vec![30 * usize::MAX as u128; 2]);
    assert_eq!(counts.finger_use[3], 12 * usize::MAX as u128);
    // the last key that holds the symbol is the key of its token
    assert_eq!(counts.usage.token_keymap, vec![kuehlmak::usage::NO_KEY, 29]);
    assert_eq!(counts.bigrams.observed, usize::MAX as u64);
    assert_eq!(counts.bigrams.counts[kuehlmak::model::BIGRAM_SAMEKEY], usize::MAX as u64);
    assert_eq!(counts.bigrams.moves, vec![(29, 29, usize::MAX as u64)]);
}
