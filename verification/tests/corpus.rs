use kuehlmak::{CorpusFormatError, TextMaps, TextStats};

fn occurrences(text: &[char], gram: &[char]) -> usize {
    if text.len() < gram.len() {
        return 0;
    }
    (0..=text.len() - gram.len())
        .filter(|&i| &text[i..i + gram.len()] == gram)
        .count()
}

fn maps(symbols: &[(&str, usize)], bigrams: &[(&str, usize)], trigrams: &[(&str, usize)]) -> TextMaps {
    let section = |s: &[(&str, usize)]| s.iter().map(|(k, v)| (k.to_string(), *v)).collect();
    TextMaps {
        symbols: section(symbols),
        bigrams: section(bigrams),
        trigrams: section(trigrams),
    }
}

#[test]
fn hello_world_counts() {
    let stats = TextStats::from_str("Hello, world! Be well.").unwrap();
    assert_eq!(stats.get_symbol(['l']).unwrap().0, 5);
    assert_eq!(stats.get_bigram(['l', 'l']).unwrap().0, 2);
    assert_eq!(stats.get_trigram(['h', 'e', 'l']).unwrap().0, 1);
    assert_eq!(stats.total_symbols(), 22);
    assert_eq!(stats.total_bigrams(), 15);
    assert_eq!(stats.total_trigrams(), 11);
}

#[test]
fn counts_are_occurrences_in_the_lower_case_text() {
    let text = "The quick brown fox\tjumps over\nthe lazy dog. THE END, the end!";
    let lower: Vec<char> = text.to_lowercase().chars().collect();
    let stats = TextStats::from_str(text).unwrap();
    for (s, count, _) in stats.iter_symbols() {
        assert_eq!(*count, occurrences(&lower, s));
    }
    for (b, count, _) in stats.iter_bigrams() {
        assert!(!b.iter().any(|c| c.is_whitespace()));
        assert_eq!(*count, occurrences(&lower, b));
    }
    for (t, count, _) in stats.iter_trigrams() {
        assert!(!t.iter().any(|c| c.is_whitespace()));
        assert_eq!(*count, occurrences(&lower, t));
    }
    // and every n-gram of the text is there
    for i in 0..lower.len() {
        assert!(stats.get_symbol([lower[i]]).is_some());
        if i + 1 < lower.len() {
            let b = [lower[i], lower[i + 1]];
            assert_eq!(stats.get_bigram(b).is_some(), !b.iter().any(|c| c.is_whitespace()));
        }
        if i + 2 < lower.len() {
            let t = [lower[i], lower[i + 1], lower[i + 2]];
            assert_eq!(stats.get_trigram(t).is_some(), !t.iter().any(|c| c.is_whitespace()));
        }
    }
}

#[test]
fn whitespace_is_a_symbol_but_parts_bigrams() {
    let stats = TextStats::from_str("a b\u{a0}c\td").unwrap();
    assert_eq!(stats.get_symbol([' ']).unwrap().0, 1);
    assert_eq!(stats.get_symbol(['\u{a0}']).unwrap().0, 1);
    assert_eq!(stats.get_symbol(['\t']).unwrap().0, 1);
    assert_eq!(stats.iter_symbols().len(), 7);
    assert_eq!(stats.iter_bigrams().len(), 0);
    assert_eq!(stats.iter_trigrams().len(), 0);
    assert_eq!(stats.total_bigrams(), 0);
}

#[test]
fn symbols_count_as_much_as_the_text_is_long() {
    for text in ["", "a", "Hello, world! Be well.", "\u{130}x\u{130}", " \t\n", "ǅǅ ß"] {
        let stats = TextStats::from_str(text).unwrap();
        let low: Vec<char> = text.chars().flat_map(char::to_lowercase).collect();
        assert_eq!(stats.total_symbols(), low.len());
        let sum: usize = stats.iter_symbols().iter().map(|e| e.1).sum();
        assert_eq!(sum, low.len());
        for c in &low {
            let n = low.iter().filter(|x| *x == c).count();
            assert_eq!(stats.get_symbol([*c]).unwrap().0, n);
        }
        assert!(stats.total_bigrams() <= low.len().saturating_sub(1));
        assert!(stats.total_trigrams() <= low.len().saturating_sub(2));
    }
}

#[test]
fn upper_case_is_folded() {
    let stats = TextStats::from_str("AbBA").unwrap();
    assert_eq!(stats.get_symbol(['a']).unwrap().0, 2);
    assert_eq!(stats.get_symbol(['b']).unwrap().0, 2);
    assert_eq!(stats.get_symbol(['A']), None);
    assert_eq!(stats.get_bigram(['b', 'b']).unwrap().0, 1);
    assert_eq!(stats.get_trigram(['a', 'b', 'b']).unwrap().0, 1);
}

#[test]
fn a_character_with_a_lower_case_of_two_characters() {
    // the lower case of U+0130 is i followed by U+0307
    let stats = TextStats::from_str("\u{130}").unwrap();
    assert_eq!(stats.get_symbol(['i']).unwrap().0, 1);
    assert_eq!(stats.get_symbol(['\u{307}']).unwrap().0, 1);
    assert_eq!(stats.get_bigram(['i', '\u{307}']).unwrap().0, 1);
    assert_eq!(stats.total_symbols(), 2);
}

#[test]
fn empty_text() {
    let stats = TextStats::from_str("").unwrap();
    assert_eq!(stats.iter_symbols().len(), 0);
    assert_eq!(stats.token_base(), 1);
    assert_eq!(stats.token_limit(), 1);
    assert_eq!(stats.count_of_token(0), 0);
    assert_eq!(stats.total_symbols(), 0);
}

#[test]
fn tokens_are_made_of_the_tokens_of_the_symbols() {
    let stats = TextStats::from_str("adad").unwrap();
    // a is the first symbol and d the second, so the base is 3
    assert_eq!(stats.token_base(), 3);
    assert_eq!(*stats.get_symbol(['a']).unwrap(), (2, 1));
    assert_eq!(*stats.get_symbol(['d']).unwrap(), (2, 2));
    assert_eq!(*stats.get_bigram(['a', 'd']).unwrap(), (2, 2 * 3 + 1));
    assert_eq!(*stats.get_bigram(['d', 'a']).unwrap(), (1, 1 * 3 + 2));
    assert_eq!(*stats.get_trigram(['a', 'd', 'a']).unwrap(), (1, (1 * 3 + 2) * 3 + 1));
    assert_eq!(*stats.get_trigram(['d', 'a', 'd']).unwrap(), (1, (2 * 3 + 1) * 3 + 2));
    assert_eq!(stats.token_to_ngram(23), [2, 1, 2]);
    assert_eq!(stats.token_to_ngram(7), [1, 2, 0]);
    assert_eq!(stats.token_limit(), 24);
    assert_eq!(stats.count_of_token(7), 2);
    assert_eq!(stats.count_of_token(6), 0);
    assert_eq!(stats.count_of_token(0), 0);
}

#[test]
fn every_listed_token_splits_into_the_tokens_of_its_symbols() {
    let stats = TextStats::from_str("Sphinx of black quartz, judge my vow! 0123456789").unwrap();
    let token = |c: char| stats.symbol([c]).1;
    for (s, count, t) in stats.iter_symbols() {
        assert_eq!(stats.token_to_ngram(*t), [token(s[0]), 0, 0]);
        assert_eq!(stats.count_of_token(*t), *count);
        assert!(1 <= *t && *t < stats.token_base());
    }
    for (b, count, t) in stats.iter_bigrams() {
        assert_eq!(stats.token_to_ngram(*t), [token(b[0]), token(b[1]), 0]);
        assert_eq!(stats.count_of_token(*t), *count);
    }
    for (g, count, t) in stats.iter_trigrams() {
        assert_eq!(stats.token_to_ngram(*t), [token(g[0]), token(g[1]), token(g[2])]);
        assert_eq!(stats.count_of_token(*t), *count);
    }
}

#[test]
fn lists_come_in_the_order_of_the_counts() {
    let stats = TextStats::from_str("aaaa bbb cc d aaaa bbb cc d").unwrap();
    let counts: Vec<usize> = stats.iter_symbols().iter().map(|e| e.1).collect();
    assert_eq!(counts, vec![8, 7, 6, 4, 2]);
    let symbols: Vec<char> = stats.iter_symbols().iter().map(|e| e.0[0]).collect();
    assert_eq!(symbols, vec!['a', ' ', 'b', 'c', 'd']);
    let bigrams: Vec<([char; 2], usize)> = stats.iter_bigrams().iter().map(|e| (e.0, e.1)).collect();
    assert_eq!(bigrams, vec![(['a', 'a'], 6), (['b', 'b'], 4), (['c', 'c'], 2)]);
}

#[test]
fn filter_keeps_counts_and_gives_new_tokens() {
    let stats = TextStats::from_str("abcabc").unwrap();
    let filtered = stats.clone().filter(|c| c != 'a');
    assert_eq!(filtered.get_symbol(['a']), None);
    assert_eq!(*filtered.get_symbol(['b']).unwrap(), (2, 1));
    assert_eq!(*filtered.get_symbol(['c']).unwrap(), (2, 2));
    assert_eq!(filtered.token_base(), 3);
    assert_eq!(filtered.iter_bigrams().len(), 1);
    assert_eq!(*filtered.get_bigram(['b', 'c']).unwrap(), (2, 2 * 3 + 1));
    assert_eq!(filtered.get_bigram(['a', 'b']), None);
    assert_eq!(filtered.get_bigram(['c', 'a']), None);
    assert_eq!(filtered.iter_trigrams().len(), 0);
    assert_eq!(filtered.total_symbols(), 4);
    assert_eq!(filtered.total_bigrams(), 2);
    // nothing goes if everything is accepted
    let all = stats.clone().filter(|_| true);
    assert_eq!(all.to_maps(), stats.to_maps());
    // and everything if nothing is
    let none = stats.filter(|_| false);
    assert_eq!(none.iter_symbols().len(), 0);
    assert_eq!(none.token_base(), 1);
}

#[test]
fn written_corpus_reads_back() {
    let stats = TextStats::from_str("Round and round the ragged rock the ragged rascal ran.").unwrap();
    let written = stats.to_maps();
    let back = TextStats::try_from(&written).unwrap();
    assert_eq!(back.to_maps(), written);
    for (s, count, _) in stats.iter_symbols() {
        assert_eq!(back.get_symbol(*s).unwrap().0, *count);
    }
    for (b, count, _) in stats.iter_bigrams() {
        assert_eq!(back.get_bigram(*b).unwrap().0, *count);
    }
    for (t, count, _) in stats.iter_trigrams() {
        assert_eq!(back.get_trigram(*t).unwrap().0, *count);
    }
    assert_eq!(back.iter_symbols().len(), stats.iter_symbols().len());
    assert_eq!(back.iter_bigrams().len(), stats.iter_bigrams().len());
    assert_eq!(back.iter_trigrams().len(), stats.iter_trigrams().len());
}

#[test]
fn written_corpus_has_every_ngram_with_its_count() {
    let written = TextStats::from_str("abab").unwrap().to_maps();
    assert_eq!(
        written,
        maps(
            &[("a", 2), ("b", 2)],
            &[("ab", 2), ("ba", 1)],
            &[("aba", 1), ("bab", 1)]
        )
    );
}

#[test]
fn read_corpus_may_have_counts_of_zero() {
    let stats = TextStats::try_from(&maps(&[("a", 0), ("b", 7)], &[("ab", 0)], &[])).unwrap();
    assert_eq!(*stats.get_symbol(['a']).unwrap(), (0, 1));
    assert_eq!(*stats.get_symbol(['b']).unwrap(), (7, 2));
    assert_eq!(*stats.get_bigram(['a', 'b']).unwrap(), (0, 2 * 3 + 1));
    assert_eq!(stats.iter_symbols()[0].0, ['b']);
}

#[test]
fn errors_of_reading_in_their_order() {
    let read = |m: TextMaps| TextStats::try_from(&m).unwrap_err();
    assert_eq!(
        read(maps(&[("", 1)], &[("a", 1)], &[("a", 1)])),
        CorpusFormatError::SymbolKey
    );
    assert_eq!(
        read(maps(&[("a", 1)], &[("a", 1)], &[("a", 1)])),
        CorpusFormatError::BigramKey
    );
    assert_eq!(
        read(maps(&[("a", 1)], &[("ab", 1)], &[("abcd", 1)])),
        CorpusFormatError::TrigramKey
    );
    assert_eq!(
        read(maps(&[("a", 1)], &[("ab", 1)], &[("abc", 1)])),
        CorpusFormatError::UndefinedInBigram
    );
    assert_eq!(
        read(maps(&[("a", 1), ("b", 1)], &[("ab", 1)], &[("abc", 1)])),
        CorpusFormatError::UndefinedInTrigram
    );
    assert_eq!(
        read(maps(&[("a", usize::MAX), ("b", 1)], &[], &[])),
        CorpusFormatError::TooLarge
    );
    assert_eq!(
        read(maps(&[("a", 1), ("b", 1)], &[("ab", usize::MAX), ("ba", 1)], &[("abc", 1)])),
        CorpusFormatError::UndefinedInTrigram
    );
}

#[test]
fn messages_of_the_errors() {
    assert_eq!(
        CorpusFormatError::SymbolKey.message(),
        "expected single-character key in `symbols` map"
    );
    assert_eq!(
        CorpusFormatError::BigramKey.message(),
        "expected two-character key in `bigrams` map"
    );
    assert_eq!(
        CorpusFormatError::TrigramKey.message(),
        "expected three-character key in `trigrams` map"
    );
    assert_eq!(
        CorpusFormatError::UndefinedInBigram.message(),
        "undefined symbol in bigram"
    );
    assert_eq!(
        CorpusFormatError::UndefinedInTrigram.message(),
        "undefined symbol in trigram"
    );
    assert_eq!(
        CorpusFormatError::TooLarge.message(),
        "corpus too large for this machine"
    );
}
