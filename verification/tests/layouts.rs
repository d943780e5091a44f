use kuehlmak::constraints::{eval_homing, eval_nonalpha, eval_row, eval_zxcv};
use kuehlmak::{
    canonical_layout, layout_distance, layout_from_str, layout_to_filename, layout_to_str,
    mirror_key, parse_alphabet, popularity, Layout, LayoutFormatError,
};

static QWERTY_TEXT: &str = r#"q  w  e  r  t  y  u  i  o  p
   a  s  d  f  g  h  j  k  l ;:
   z  x  c  v  b  n  m ,< .> /?"#;

static QWERTY: Layout = [
    ['q', 'Q'], ['w', 'W'], ['e', 'E'], ['r', 'R'], ['t', 'T'],
    ['y', 'Y'], ['u', 'U'], ['i', 'I'], ['o', 'O'], ['p', 'P'],
    ['a', 'A'], ['s', 'S'], ['d', 'D'], ['f', 'F'], ['g', 'G'],
    ['h', 'H'], ['j', 'J'], ['k', 'K'], ['l', 'L'], [';', ':'],
    ['z', 'Z'], ['x', 'X'], ['c', 'C'], ['v', 'V'], ['b', 'B'],
    ['n', 'N'], ['m', 'M'], [',', '<'], ['.', '>'], ['/', '?'],
];

fn mirrored(layout: &Layout) -> Layout {
    let mut out = *layout;
    for k in 0..30 {
        out[k] = layout[mirror_key(k as u8) as usize];
    }
    out
}

#[test]
fn parse_qwerty() {
    assert_eq!(layout_from_str(QWERTY_TEXT), Ok(QWERTY));
}

#[test]
fn parse_ignores_rows_after_the_third() {
    let text = format!("{}\nthis row is not read at all !!!", QWERTY_TEXT);
    assert_eq!(layout_from_str(&text), Ok(QWERTY));
}

#[test]
fn parse_accepts_any_whitespace_between_keys() {
    let text = "q\tw e r t y u i o p\r\na s d f g h j k l ;:\r\nz x c v b n m ,< .> /?\r\n";
    assert_eq!(layout_from_str(text), Ok(QWERTY));
}

#[test]
fn parse_upper_case_letter_gives_both_cases() {
    let text = "Q W E R T Y U I O P\nA S D F G H J K L ;:\nZ X C V B N M ,< .> /?";
    assert_eq!(layout_from_str(text), Ok(QWERTY));
}

#[test]
fn parse_too_many_keys() {
    let text = "q w e r t y u i o p x\na s d f g h j k l ;:\nz x c v b n m ,< .> /?";
    let e = layout_from_str(text).unwrap_err();
    assert_eq!(e, LayoutFormatError::TooManyKeys { row: 1 });
    assert_eq!(
        e.message(),
        "Too many keys on row 1. Expected 10 keys per row"
    );
}

#[test]
fn parse_too_many_characters() {
    let text = "q w e r t y u i o p\na s abc f g h j k l ;:\nz x c v b n m ,< .> /?";
    let e = layout_from_str(text).unwrap_err();
    assert_eq!(e, LayoutFormatError::TooManyChars { row: 1, key: 2 });
    assert_eq!(
        e.message(),
        "Too many characters on row 1, key 2. Expected 1 or 2 characters per key"
    );
}

#[test]
fn parse_case_conversion_fails_for_a_digit() {
    let text = "1 w e r t y u i o p\na s d f g h j k l ;:\nz x c v b n m ,< .> /?";
    let e = layout_from_str(text).unwrap_err();
    assert_eq!(
        e,
        LayoutFormatError::CaseConversion {
            c: '1',
            row: 0,
            key: 0
        }
    );
    assert_eq!(
        e.message(),
        "Automatic case conversion failed for '1' at row 0, key 0"
    );
}

#[test]
fn parse_case_conversion_fails_for_a_letter_with_two_upper_case_characters() {
    let text = "q w e r t y u i o p\na s d f g h j k l ß\nz x c v b n m ,< .> /?";
    assert_eq!(
        layout_from_str(text),
        Err(LayoutFormatError::CaseConversion {
            c: 'ß',
            row: 1,
            key: 9
        })
    );
}

#[test]
fn parse_first_error_wins() {
    // the digit comes before the long key, and both before the eleventh key
    let text = "q 1 e abc t y u i o p x\na s d f g h j k l ;:\nz x c v b n m ,< .> /?";
    assert_eq!(
        layout_from_str(text),
        Err(LayoutFormatError::CaseConversion {
            c: '1',
            row: 0,
            key: 1
        })
    );
}

#[test]
fn parse_too_few_keys() {
    let text = "q w e r t y u i o p\na s d f g h j k l ;:\nz x c v b n m ,< .>";
    let e = layout_from_str(text).unwrap_err();
    assert_eq!(e, LayoutFormatError::TooFewKeys { found: 9, row: 2 });
    assert_eq!(
        e.message(),
        "Found only 9 keys in row 2. Expected 10 keys per row"
    );
}

#[test]
fn parse_empty_row_counts_as_one_key() {
    let text = "q w e r t y u i o p\n\nz x c v b n m ,< .> /?";
    assert_eq!(
        layout_from_str(text),
        Err(LayoutFormatError::TooFewKeys { found: 1, row: 1 })
    );
}

#[test]
fn parse_too_few_rows() {
    let text = "q w e r t y u i o p\na s d f g h j k l ;:\n";
    let e = layout_from_str(text).unwrap_err();
    assert_eq!(e, LayoutFormatError::TooFewRows { found: 2 });
    assert_eq!(e.message(), "Found only 2 rows. Expected 3 rows");
}

#[test]
fn parse_empty_text_counts_as_one_row() {
    let e = layout_from_str("").unwrap_err();
    assert_eq!(e, LayoutFormatError::TooFewRows { found: 1 });
    assert_eq!(e.message(), "Found only 1 rows. Expected 3 rows");
}

#[test]
fn write_qwerty() {
    assert_eq!(
        layout_to_str(&QWERTY),
        "  q  w  e  r  t  y  u  i  o  p\n  a  s  d  f  g  h  j  k  l ;:\n  z  x  c  v  b  n  m ,< .> /?\n"
    );
}

#[test]
fn written_layout_reads_back() {
    let mut layout = QWERTY;
    layout.swap(3, 27);
    layout.swap(10, 19);
    assert_eq!(layout_from_str(&layout_to_str(&layout)), Ok(layout));
}

#[test]
fn filename_of_qwerty() {
    assert_eq!(
        layout_to_filename(&QWERTY),
        "qwertyuiopasdfghjklJzxcvbnmQOZ.kbl"
    );
}

#[test]
fn filename_replaces_every_awkward_symbol() {
    let mut layout = QWERTY;
    let awkward = ['/', '?', '<', '>', ':', ';', '\\', '|', '.', ',', '\'', '"'];
    for (k, c) in awkward.iter().enumerate() {
        layout[k][0] = *c;
    }
    assert!(layout_to_filename(&layout).starts_with("ZSLGIJXTOQVW"));
}

#[test]
fn mirror_key_swaps_the_hands() {
    assert_eq!(mirror_key(0), 9);
    assert_eq!(mirror_key(14), 15);
    assert_eq!(mirror_key(29), 20);
    for k in 0..30u8 {
        assert_eq!(mirror_key(mirror_key(k)), k);
    }
}

#[test]
fn distance_to_itself_is_zero() {
    assert_eq!(layout_distance(&QWERTY, &QWERTY), 0);
    assert_eq!(layout_distance(&mirrored(&QWERTY), &mirrored(&QWERTY)), 0);
}

#[test]
fn distance_is_symmetric_and_bounded() {
    let mut other = QWERTY;
    other.swap(0, 17);
    other.swap(4, 25);
    other.swap(12, 13);
    other[29] = ['ö', 'Ö'];
    let m = mirrored(&QWERTY);
    for (a, b) in [(&QWERTY, &other), (&QWERTY, &m), (&other, &m)] {
        assert_eq!(layout_distance(a, b), layout_distance(b, a));
        assert!(layout_distance(a, b) <= 120);
    }
}

#[test]
fn distance_counts_key_finger_and_hand() {
    // q and w change places: other finger, same hand, 1 point each in place of 4
    let mut other = QWERTY;
    other.swap(0, 1);
    assert_eq!(layout_distance(&QWERTY, &other), 6);
    // f and g change places: same finger, 2 points each in place of 4
    let mut other = QWERTY;
    other.swap(13, 14);
    assert_eq!(layout_distance(&QWERTY, &other), 4);
    // q and p change places: other hand, no points
    let mut other = QWERTY;
    other.swap(0, 9);
    assert_eq!(layout_distance(&QWERTY, &other), 8);
}

#[test]
fn distance_of_layouts_without_a_common_symbol() {
    let mut other = QWERTY;
    for k in 0..30 {
        other[k] = [char::from_u32(0x3b1 + k as u32).unwrap(), 'X'];
    }
    assert_eq!(layout_distance(&QWERTY, &other), 120);
}

#[test]
fn distance_matches_repeated_symbols_in_their_order() {
    let mut a = QWERTY;
    a[1] = ['q', 'Q'];
    // both q of a are on the keys of the two q of a
    assert_eq!(layout_distance(&a, &a), 0);
    // QWERTY has one q: it is held against the first q of a; w is gone
    assert_eq!(layout_distance(&a, &QWERTY), 4);
    assert_eq!(layout_distance(&QWERTY, &a), 4);
}

#[test]
fn canonical_layout_has_the_full_stop_on_the_right() {
    let m = mirrored(&QWERTY);
    assert_eq!(canonical_layout(&QWERTY, true), QWERTY);
    assert_eq!(canonical_layout(&m, true), QWERTY);
    assert_eq!(canonical_layout(&m, false), m);
    let mut no_stop = QWERTY;
    no_stop[28] = ['-', '_'];
    assert_eq!(canonical_layout(&mirrored(&no_stop), true), mirrored(&no_stop));
}

#[test]
fn popularity_counts_number_signs_of_the_last_row() {
    assert_eq!(popularity("a\nb\n###"), 3);
    assert_eq!(popularity("a # b\n# #\n"), 2);
    assert_eq!(popularity("###\nabc"), 1);
    assert_eq!(popularity(""), 1);
}

#[test]
fn alphabet_with_ranges() {
    let expected: Vec<char> = "-_abcdefghijklmnopqrstuvwxyz;,./<>?:".chars().collect();
    assert_eq!(parse_alphabet("-_a-z;,./<>?:"), expected);
    let expected: Vec<char> = "zabcdefghijklmnopqrstuvwxy".chars().collect();
    assert_eq!(parse_alphabet("z-a"), expected);
    assert_eq!(parse_alphabet("a-a"), vec!['a']);
    assert_eq!(parse_alphabet("a-"), vec!['a']);
    assert_eq!(parse_alphabet("a-cx"), vec!['a', 'b', 'c', 'x']);
    // a range across the gap of the surrogates has no character of the gap
    assert_eq!(parse_alphabet("\u{d7ff}-\u{e000}"), vec!['\u{d7ff}', '\u{e000}']);
}

#[test]
fn zxcv_constraint() {
    assert_eq!(eval_zxcv(&QWERTY), 0);
    assert_eq!(eval_zxcv(&mirrored(&QWERTY)), 5);
    let mut other = QWERTY;
    other.swap(20, 21);
    assert_eq!(eval_zxcv(&other), 1);
    other.swap(22, 5);
    assert_eq!(eval_zxcv(&other), 2);
}

#[test]
fn zxcv_constraint_with_a_letter_on_several_keys() {
    // five keys hold one of the letters: the fifth is passed over
    let mut layout = QWERTY;
    layout[24] = ['z', 'Z'];
    assert_eq!(eval_zxcv(&layout), 0);
    let mut layout = QWERTY;
    for k in 20..25 {
        layout[k] = ['v', 'V'];
    }
    assert_eq!(eval_zxcv(&layout), 1);
    let mut layout = QWERTY;
    layout[20] = ['x', 'X'];
    layout[24] = ['z', 'Z'];
    assert_eq!(eval_zxcv(&layout), 1);
}

#[test]
fn nonalpha_constraint() {
    assert_eq!(eval_nonalpha(&QWERTY), 1);
    let mut other = QWERTY;
    other.swap(9, 19);
    assert_eq!(eval_nonalpha(&other), 0);
    other.swap(27, 0);
    other.swap(28, 1);
    other.swap(29, 2);
    assert_eq!(eval_nonalpha(&other), 3);
}

#[test]
fn row_constraint() {
    assert_eq!(eval_row(&QWERTY, 1, "asdfghjkl;"), 0);
    assert_eq!(eval_row(&QWERTY, 0, "qwert"), 5);
    assert_eq!(eval_row(&QWERTY, 2, ""), 10);
}

#[test]
fn homing_constraint() {
    assert_eq!(eval_homing(&QWERTY, "fj", None), 0);
    assert_eq!(eval_homing(&QWERTY, "dk", None), 0);
    assert_eq!(eval_homing(&QWERTY, "f", None), 1);
    assert_eq!(eval_homing(&QWERTY, "xy", None), 2);
    // f can only be a homing key and lies under an index finger
    assert_eq!(eval_homing(&QWERTY, "dk", Some("f")), 2);
    assert_eq!(eval_homing(&QWERTY, "fj", Some("f")), 0);
    // a lies in the home row where no homing key can be
    assert_eq!(eval_homing(&QWERTY, "fj", Some("a")), 1);
    // f and d ask for different fingers; what follows is not looked at
    assert_eq!(eval_homing(&QWERTY, "fj", Some("fdk")), 1);
    // q is not in the home row at all
    assert_eq!(eval_homing(&QWERTY, "fj", Some("q")), 0);
    assert_eq!(eval_homing(&QWERTY, "xy", Some("a")), 3);
}

// The distance by sorting both layouts by symbol and walking them side by side.
fn distance_by_merging(a: &Layout, b: &Layout) -> f64 {
    let mut a: Vec<(u32, char)> = (0..30).map(|i| (i as u32, a[i][0])).collect();
    let mut b: Vec<(u32, char)> = (0..30).map(|i| (i as u32, b[i][0])).collect();
    a.sort_by_key(|x| x.1);
    b.sort_by_key(|x| x.1);
    let mut i = 0;
    let mut j = 0;
    let mut distance = 120;
    while i < 30 && j < 30 {
        if a[i].1 < b[j].1 {
            i += 1;
            continue;
        } else if a[i].1 > b[j].1 {
            j += 1;
            continue;
        }
        if a[i].0 == b[j].0 {
            distance -= 4;
        } else {
            let finger = |key: u32| {
                let col = key % 10;
                if col < 4 {
                    col
                } else if col < 6 {
                    col - 1
                } else {
                    col - 2
                }
            };
            if finger(a[i].0) == finger(b[j].0) {
                distance -= 2;
            } else {
                let hand = |k: u32| if k % 10 < 5 { 0 } else { 1 };
                if hand(a[i].0) == hand(b[j].0) {
                    distance -= 1;
                }
            }
        }
        i += 1;
        j += 1;
    }
    distance as f64 / 120.0
}

#[test]
fn distance_agrees_with_merging_sorted_layouts() {
    // a small generator of numbers, so that the layouts are the same on every run
    let mut state = 0x2545f4914f6cdd1du64;
    let mut next = |n: u64| {
        state ^= state << 13;
        state ^= state >> 7;
        state ^= state << 17;
        (state % n) as usize
    };
    let symbols: Vec<char> = "abcdefghijklmnopqrstuvwxyz;,./-'[]=".chars().collect();
    for round in 0..300 {
        let mut a = QWERTY;
        let mut b = QWERTY;
        for k in 0..30 {
            // in later rounds a symbol may lie on several keys
            let spread = if round < 100 { symbols.len() } else { 12 };
            a[k] = [symbols[next(spread as u64)], 'X'];
            b[k] = [symbols[next(spread as u64)], 'X'];
        }
        if round % 3 == 0 {
            b = a;
            for _ in 0..round % 7 {
                b.swap(next(30), next(30));
            }
        }
        let d = layout_distance(&a, &b);
        assert_eq!(d as f64 / 120.0, distance_by_merging(&a, &b));
        assert_eq!(d, layout_distance(&b, &a));
    }
}
