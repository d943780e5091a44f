use kuehlmak::{TextMaps, TextStats};
use std::cmp::Ordering;

static TEST_STRING: &str = "Hello, world! Be well.";

fn section(value: &serde_json::Value, name: &str) -> Vec<(String, usize)> {
    value
        .get(name)
        .and_then(|s| s.as_object())
        .map(|o| {
            o.iter()
                .map(|(k, v)| (k.clone(), v.as_u64().unwrap() as usize))
                .collect()
        })
        .unwrap_or_default()
}

fn stats_from_json(text: &str) -> Result<TextStats, String> {
    let value: serde_json::Value = serde_json::from_str(text).map_err(|e| e.to_string())?;
    let maps = TextMaps {
        symbols: section(&value, "symbols"),
        bigrams: section(&value, "bigrams"),
        trigrams: section(&value, "trigrams"),
    };
    TextStats::try_from(&maps).map_err(|e| e.message().to_string())
}

fn stats_to_json(stats: &TextStats) -> serde_json::Value {
    let maps = stats.to_maps();
    let object = |entries: &Vec<(String, usize)>| {
        let mut m = serde_json::Map::new();
        for (k, v) in entries {
            m.insert(k.clone(), serde_json::Value::from(*v as u64));
        }
        serde_json::Value::Object(m)
    };
    let mut root = serde_json::Map::new();
    root.insert("symbols".to_string(), object(&maps.symbols));
    root.insert("bigrams".to_string(), object(&maps.bigrams));
    root.insert("trigrams".to_string(), object(&maps.trigrams));
    serde_json::Value::Object(root)
}

// Check that all symbols in the iterator are in the text and sorted by count
#[test]
fn symbol_iter() {
    let lower = TEST_STRING.to_lowercase();
    let stats = TextStats::from_str(TEST_STRING).unwrap();

    let mut prev = usize::MAX;
    for (symbol, counter, token) in stats.iter_symbols() {
        println!("  '{}': {} #{}", symbol[0], counter, token);
        assert!(lower.contains(symbol[0]));
        assert_ne!(counter.cmp(&prev), Ordering::Greater);
        prev = *counter;

        // also check the symbol counts, while we're at it
        let matching = lower.chars().filter(|c| *c == symbol[0]).count();
        assert_eq!(matching, *counter);
    }
}

// Check that all bigrams in the iterator are in the text and sorted by count
#[test]
fn bigram_iter() {
    let lower = TEST_STRING.to_lowercase();
    let stats = TextStats::from_str(TEST_STRING).unwrap();

    let mut prev = usize::MAX;
    for (bigram, counter, token) in stats.iter_bigrams() {
        println!("  '{}{}': {} #{}", bigram[0], bigram[1], counter, token);
        assert!(lower.contains(&bigram[..]));
        assert_ne!(counter.cmp(&prev), Ordering::Greater);
        prev = *counter;
    }
}

// Check that all trigrams in the iterator are in the text and sorted by count
#[test]
fn trigram_iter() {
    let lower = TEST_STRING.to_lowercase();
    let stats = TextStats::from_str(TEST_STRING).unwrap();

    let mut prev = usize::MAX;
    for (trigram, counter, token) in stats.iter_trigrams() {
        println!(
            "  '{}{}{}': {} #{}",
            trigram[0], trigram[1], trigram[2], counter, token
        );
        assert!(lower.contains(&trigram[..]));
        assert_ne!(counter.cmp(&prev), Ordering::Greater);
        prev = *counter;
    }
}

// Check that get_symbol works for existing and non-existing symbols
#[test]
fn get_symbol() {
    let lower = TEST_STRING.to_lowercase();
    let stats = TextStats::from_str(TEST_STRING).unwrap();

    // also check that all symbols in the string have entries
    for c in lower.chars().filter(|c| c.is_whitespace()) {
        assert_ne!(stats.get_symbol([c]), None);
    }

    assert_eq!(stats.get_symbol(['a']), None);
    assert_eq!(stats.get_symbol(['?']), None);
    assert_eq!(stats.get_symbol(['e']).unwrap().0, 3);
    assert_eq!(stats.get_symbol([',']).unwrap().0, 1);
}

// Check that get_bigram works for existing and non-existing symbols
#[test]
fn get_bigram() {
    let stats = TextStats::from_str(TEST_STRING).unwrap();

    assert_eq!(stats.get_bigram(['h', 'a']), None);
    assert_eq!(stats.get_bigram(['e', ',']), None);
    assert_eq!(stats.get_bigram(['h', 'e']).unwrap().0, 1);
    assert_eq!(stats.get_bigram(['e', 'l']).unwrap().0, 2);
}

// Check that get_trigram works for existing and non-existing symbols
#[test]
fn get_trigram() {
    let stats = TextStats::from_str(TEST_STRING).unwrap();

    assert_eq!(stats.get_trigram(['h', 'a', 'h']), None);
    assert_eq!(stats.get_trigram(['o', ',', 'w']), None);
    assert_eq!(stats.get_trigram(['h', 'e', 'l']).unwrap().0, 1);
    assert_eq!(stats.get_trigram(['e', 'l', 'l']).unwrap().0, 2);
}

// Check that indexing with symbols works
#[test]
fn index_symbol() {
    let stats = TextStats::from_str(TEST_STRING).unwrap();

    assert_eq!(stats.symbol(['h']).0, 1);
    assert_eq!(stats.symbol(['l']).0, 5);
    assert_eq!(stats.symbol(['!']).0, 1);
}

// Check that indexing with bigrams works
#[test]
fn index_bigram() {
    let stats = TextStats::from_str(TEST_STRING).unwrap();

    assert_eq!(stats.bigram(['l', 'l']).0, 2);
    assert_eq!(stats.bigram(['l', 'o']).0, 1);
    assert_eq!(stats.bigram(['o', ',']).0, 1);
}

// Check that indexing with trigrams works
#[test]
fn index_trigram() {
    let stats = TextStats::from_str(TEST_STRING).unwrap();

    assert_eq!(stats.trigram(['l', 'l', 'o']).0, 1);
    assert_eq!(stats.trigram(['l', 'o', ',']).0, 1);
    assert_eq!(stats.trigram(['w', 'o', 'r']).0, 1);
}

// Check that indexing with tokens works
#[test]
fn index_token() {
    let stats = TextStats::from_str(TEST_STRING).unwrap();

    assert_eq!(stats.count_of_token(stats.symbol(['w']).1), 2);
    assert_eq!(stats.count_of_token(stats.symbol(['b']).1), 1);

    assert_eq!(stats.count_of_token(stats.bigram(['w', 'o']).1), 1);
    assert_eq!(stats.count_of_token(stats.bigram(['b', 'e']).1), 1);

    assert_eq!(stats.count_of_token(stats.trigram(['o', 'r', 'l']).1), 1);
    assert_eq!(stats.count_of_token(stats.trigram(['r', 'l', 'd']).1), 1);
}

#[test]
fn token_to_ngram() {
    let stats = TextStats::from_str(TEST_STRING).unwrap();

    assert_eq!(
        stats.token_to_ngram(stats.symbol(['o']).1),
        [stats.symbol(['o']).1, 0, 0]
    );
    assert_eq!(
        stats.token_to_ngram(stats.symbol(['.']).1),
        [stats.symbol(['.']).1, 0, 0]
    );

    assert_eq!(
        stats.token_to_ngram(stats.bigram(['o', 'r']).1),
        [stats.symbol(['o']).1, stats.symbol(['r']).1, 0]
    );
    assert_eq!(
        stats.token_to_ngram(stats.bigram(['d', '!']).1),
        [stats.symbol(['d']).1, stats.symbol(['!']).1, 0]
    );

    assert_eq!(
        stats.token_to_ngram(stats.trigram(['l', 'd', '!']).1),
        [
            stats.symbol(['l']).1,
            stats.symbol(['d']).1,
            stats.symbol(['!']).1
        ]
    );
    assert_eq!(
        stats.token_to_ngram(stats.trigram(['w', 'e', 'l']).1),
        [
            stats.symbol(['w']).1,
            stats.symbol(['e']).1,
            stats.symbol(['l']).1
        ]
    );
}

#[test]
fn to_json() {
    let stats = TextStats::from_str(TEST_STRING).unwrap();

    let j = serde_json::to_string_pretty(&stats_to_json(&stats)).expect("Serialization failed");
    println!("{}", j);
}

#[test]
fn from_json() {
    let orig = TextStats::from_str(TEST_STRING).unwrap();

    let j = serde_json::to_string(&stats_to_json(&orig)).expect("Serialization failed");
    let deser: TextStats = stats_from_json(&j).expect("Deserialization failed");

    // Tokens may have changed. Only compare counts
    for (symbol, counter, token) in deser.iter_symbols() {
        println!(
            "  '{}': {} #{} (was #{})",
            symbol[0],
            counter,
            token,
            orig.symbol(*symbol).1
        );
        assert_eq!(*counter, orig.symbol(*symbol).0);
    }
    for (bigram, counter, token) in deser.iter_bigrams() {
        println!(
            "  '{}{}': {} #{} (was #{})",
            bigram[0],
            bigram[1],
            counter,
            token,
            orig.bigram(*bigram).1
        );
        assert_eq!(*counter, orig.bigram(*bigram).0);
    }
    for (trigram, counter, token) in deser.iter_trigrams() {
        println!(
            "  '{}{}{}': {} #{} (was #{})",
            trigram[0],
            trigram[1],
            trigram[2],
            counter,
            token,
            orig.trigram(*trigram).1
        );
        assert_eq!(*counter, orig.trigram(*trigram).0);
    }
}

#[test]
fn from_bad_json() {
    match stats_from_json(
        r#"{"symbols": {"aa": 3}, "bigrams": {"aa": 2}, "trigrams": {"aaa": 1}}"#,
    ) {
        Ok(_) => panic!("Invalid symbol key not caught!"),
        Err(e) => {
            println!("Expected error: '{}'", e);
            assert!(e.to_string().starts_with("expected single-character key"));
        }
    }
    match stats_from_json(
        r#"{"symbols": {"a": 3}, "bigrams": {"aaa": 2}, "trigrams": {"aaa": 1}}"#,
    ) {
        Ok(_) => panic!("Invalid bigram key not caught!"),
        Err(e) => {
            println!("Expected error: '{}'", e);
            assert!(e.to_string().starts_with("expected two-character key"));
        }
    }
    match stats_from_json(
        r#"{"symbols": {"a": 3}, "bigrams": {"aa": 2}, "trigrams": {"aa": 1}}"#,
    ) {
        Ok(_) => panic!("Invalid trigram key not caught!"),
        Err(e) => {
            println!("Expected error: '{}'", e);
            assert!(e.to_string().starts_with("expected three-character key"));
        }
    }
    match stats_from_json(
        r#"{"symbols": {"a": 3}, "bigrams": {"ab": 2}, "trigrams": {"aaa": 1}}"#,
    ) {
        Ok(_) => panic!("Undefined symbol in trigram not caught!"),
        Err(e) => {
            println!("Expected error: '{}'", e);
            assert!(e.to_string().starts_with("undefined symbol in bigram"));
        }
    }
    match stats_from_json(
        r#"{"symbols": {"a": 3}, "bigrams": {"aa": 2}, "trigrams": {"aab": 1}}"#,
    ) {
        Ok(_) => panic!("Undefined symbol in trigram not caught!"),
        Err(e) => {
            println!("Expected error: '{}'", e);
            assert!(e.to_string().starts_with("undefined symbol in trigram"));
        }
    }
}

#[test]
fn filter() {
    let filter_fn = char::is_alphabetic;
    let filtered = TextStats::from_str(TEST_STRING).unwrap().filter(filter_fn);
    let stats = TextStats::from_str(TEST_STRING).unwrap();

    for &(s, counter, token) in stats.iter_symbols() {
        if filter_fn(s[0]) {
            assert_eq!(counter, filtered.symbol(s).0);
            println!(
                "  '{}': {} #{} (was #{})",
                s[0],
                counter,
                filtered.symbol(s).1,
                token
            );
        } else {
            assert_eq!(filtered.get_symbol(s), None);
            println!("  '{}': None", s[0]);
        }
    }
    for &(b, counter, token) in stats.iter_bigrams() {
        if b.iter().copied().all(filter_fn) {
            assert_eq!(counter, filtered.bigram(b).0);
            println!(
                "  '{}{}': {} #{} (was #{})",
                b[0],
                b[1],
                counter,
                filtered.bigram(b).1,
                token
            );
        } else {
            assert_eq!(filtered.get_bigram(b), None);
            println!("  '{}{}': None", b[0], b[1]);
        }
    }
    for &(t, counter, token) in stats.iter_trigrams() {
        if t.iter().copied().all(filter_fn) {
            assert_eq!(counter, filtered.trigram(t).0);
            println!(
                "  '{}{}{}': {} #{} (was #{})",
                t[0],
                t[1],
                t[2],
                counter,
                filtered.trigram(t).1,
                token
            );
        } else {
            assert_eq!(filtered.get_trigram(t), None);
            println!("  '{}{}{}': None", t[0], t[1], t[2]);
        }
    }
}
