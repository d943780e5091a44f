//! Statistics of a corpus: how often each symbol, bigram and trigram
//! occurs, and the token of each.

use vstd::prelude::*;
use std::collections::BTreeMap;
use crate::ngram::{
    Symbol, Bigram, Trigram, pack, unpack, valid_key, symbol_key, bigram_key, trigram_key,
    lemma_pack_unpack,
};
use crate::tokens::{digits, split_token};
use crate::corpus_model::{
    NGram, tokens_ok, is_ranked_list, list_total, token_counts_ok, symbol_views, bigram_views,
    trigram_views,
};
use crate::sums::{map_sum, count_sum, lemma_list_sum};
use crate::table::{Entry, keys_increase, has_key, lists_map, entries_of};
use crate::packed::{
    Tables, tables_ok, symbol_tokens_ok, token_given, place, defined_in, all_defined, token_for, keys_valid,
    symbol_table, derived_table, are_defined, sum_counts, symbols_from, bigrams_from,
    trigrams_from, counts_by_token, lemma_tokens_ok, lemma_ranked_list,
    lemma_reordered_lists_map, lemma_token_counts, lemma_tokens_differ,
};
use crate::sorting::sort_by_count;
use crate::selection::{keep_symbols, keep_ngrams};
use crate::filtering::{Selection, is_filtered, lemma_selection_fits, lemma_selection_filters};

verus! {

/// Why a corpus could not be built.
#[derive(Clone, Copy, Debug, PartialEq, Eq, Structural)]
pub enum CorpusFormatError {
    /// A key of the symbols section is not one character long.
    SymbolKey,
    /// A key of the bigrams section is not two characters long.
    BigramKey,
    /// A key of the trigrams section is not three characters long.
    TrigramKey,
    /// A bigram holds a character that is no symbol of the corpus.
    UndefinedInBigram,
    /// A trigram holds a character that is no symbol of the corpus.
    UndefinedInTrigram,
    /// The counts or the tokens do not fit in a machine word.
    TooLarge,
}

impl CorpusFormatError {
    /// The error in words.
    pub open spec fn text(self) -> Seq<char> {
        match self {
            CorpusFormatError::SymbolKey => "expected single-character key in `symbols` map"@,
            CorpusFormatError::BigramKey => "expected two-character key in `bigrams` map"@,
            CorpusFormatError::TrigramKey => "expected three-character key in `trigrams` map"@,
            CorpusFormatError::UndefinedInBigram => "undefined symbol in bigram"@,
            CorpusFormatError::UndefinedInTrigram => "undefined symbol in trigram"@,
            CorpusFormatError::TooLarge => "corpus too large for this machine"@,
        }
    }

    /// The error in words.
    pub fn message(&self) -> (msg: &'static str)
        ensures
            msg@ == self.text(),
    {
        match self {
            CorpusFormatError::SymbolKey => "expected single-character key in `symbols` map",
            CorpusFormatError::BigramKey => "expected two-character key in `bigrams` map",
            CorpusFormatError::TrigramKey => "expected three-character key in `trigrams` map",
            CorpusFormatError::UndefinedInBigram => "undefined symbol in bigram",
            CorpusFormatError::UndefinedInTrigram => "undefined symbol in trigram",
            CorpusFormatError::TooLarge => "corpus too large for this machine",
        }
    }
}

/// The statistics of one corpus.
#[derive(Clone, Debug)]
pub struct TextStats {
    s_map: BTreeMap<u64, (usize, usize)>,
    b_map: BTreeMap<u64, (usize, usize)>,
    t_map: BTreeMap<u64, (usize, usize)>,
    symbols: Vec<(Symbol, usize, usize)>,
    bigrams: Vec<(Bigram, usize, usize)>,
    trigrams: Vec<(Trigram, usize, usize)>,
    s_total: usize,
    b_total: usize,
    t_total: usize,
    token_base: usize,
    token_map: Vec<usize>,
}

impl TextStats {
    /// The maps behind the corpus, by key.
    pub closed spec fn tables(&self) -> Tables {
        Tables { s: self.s_map@, b: self.b_map@, t: self.t_map@ }
    }

    /// The n-grams of the corpus, each with its count and its token.
    pub closed spec fn ngrams(&self) -> Map<Seq<char>, (usize, usize)> {
        self.tables().ngrams()
    }

    /// The base of the tokens: one more than the number of symbols.
    pub closed spec fn base(&self) -> int {
        self.token_base as int
    }

    /// The symbols, most frequent first.
    pub closed spec fn symbol_list(&self) -> Seq<NGram> {
        symbol_views(self.symbols@)
    }

    /// The bigrams, most frequent first.
    pub closed spec fn bigram_list(&self) -> Seq<NGram> {
        bigram_views(self.bigrams@)
    }

    /// The trigrams, most frequent first.
    pub closed spec fn trigram_list(&self) -> Seq<NGram> {
        trigram_views(self.trigrams@)
    }

    /// The sum of the counts of all symbols.
    pub closed spec fn symbol_total(&self) -> nat {
        self.s_total as nat
    }

    /// The sum of the counts of all bigrams.
    pub closed spec fn bigram_total(&self) -> nat {
        self.b_total as nat
    }

    /// The sum of the counts of all trigrams.
    pub closed spec fn trigram_total(&self) -> nat {
        self.t_total as nat
    }

    /// The count under each token.
    pub closed spec fn token_counts(&self) -> Seq<usize> {
        self.token_map@
    }

    /// What holds of the maps behind the corpus: their keys are keys of
    /// n-grams of the right length, and the totals are their sums.
    pub closed spec fn tables_wf(&self) -> bool {
        &&& forall|key: u64| #[trigger] self.s_map@.contains_key(key) ==> valid_key(key as int, 1)
        &&& forall|key: u64| #[trigger] self.b_map@.contains_key(key) ==> valid_key(key as int, 2)
        &&& forall|key: u64| #[trigger] self.t_map@.contains_key(key) ==> valid_key(key as int, 3)
        &&& self.s_total == map_sum(self.s_map@)
        &&& self.b_total == map_sum(self.b_map@)
        &&& self.t_total == map_sum(self.t_map@)
        &&& self.token_base == self.s_map@.dom().len() + 1
    }

    /// Whether the statistics are those of a corpus: the tokens, the
    /// three lists, the totals and the counts by token agree with the
    /// n-grams, and every token fits in a machine word.
    pub open spec fn wf(&self) -> bool {
        &&& self.tables_wf()
        &&& self.base() == self.symbol_list().len() + 1
        &&& self.base() * self.base() * self.base() <= usize::MAX
        &&& tokens_ok(self.ngrams(), self.base())
        &&& is_ranked_list(self.symbol_list(), self.ngrams(), 1)
        &&& is_ranked_list(self.bigram_list(), self.ngrams(), 2)
        &&& is_ranked_list(self.trigram_list(), self.ngrams(), 3)
        &&& self.symbol_total() == list_total(self.symbol_list())
        &&& self.bigram_total() == list_total(self.bigram_list())
        &&& self.trigram_total() == list_total(self.trigram_list())
        &&& self.symbol_total() <= usize::MAX
        &&& self.bigram_total() <= usize::MAX
        &&& self.trigram_total() <= usize::MAX
        &&& token_counts_ok(self.token_counts(), self.ngrams(), self.base())
    }

    /// The symbols with their counts and tokens, most frequent first.
    pub fn iter_symbols(&self) -> (list: &Vec<(Symbol, usize, usize)>)
        ensures
            symbol_views(list@) == self.symbol_list(),
    {
        &self.symbols
    }

    /// The bigrams with their counts and tokens, most frequent first.
    pub fn iter_bigrams(&self) -> (list: &Vec<(Bigram, usize, usize)>)
        ensures
            bigram_views(list@) == self.bigram_list(),
    {
        &self.bigrams
    }

    /// The trigrams with their counts and tokens, most frequent first.
    pub fn iter_trigrams(&self) -> (list: &Vec<(Trigram, usize, usize)>)
        ensures
            trigram_views(list@) == self.trigram_list(),
    {
        &self.trigrams
    }

    /// The count and the token of a symbol, if the corpus has it.
    pub fn get_symbol(&self, index: Symbol) -> (entry: Option<&(usize, usize)>)
        ensures
            match entry {
                Some(e) => self.ngrams().contains_key(index@) && *e == self.ngrams()[index@],
                None => !self.ngrams().contains_key(index@),
            },
    {
        let key = symbol_key(index);
        self.s_map.get(&key)
    }

    /// The count and the token of a bigram, if the corpus has it.
    pub fn get_bigram(&self, index: Bigram) -> (entry: Option<&(usize, usize)>)
        ensures
            match entry {
                Some(e) => self.ngrams().contains_key(index@) && *e == self.ngrams()[index@],
                None => !self.ngrams().contains_key(index@),
            },
    {
        let key = bigram_key(index);
        self.b_map.get(&key)
    }

    /// The count and the token of a trigram, if the corpus has it.
    pub fn get_trigram(&self, index: Trigram) -> (entry: Option<&(usize, usize)>)
        ensures
            match entry {
                Some(e) => self.ngrams().contains_key(index@) && *e == self.ngrams()[index@],
                None => !self.ngrams().contains_key(index@),
            },
    {
        let key = trigram_key(index);
        self.t_map.get(&key)
    }

    /// The count and the token of a symbol that the corpus has.
    pub fn symbol(&self, index: Symbol) -> (entry: (usize, usize))
        requires
            self.ngrams().contains_key(index@),
        ensures
            entry == self.ngrams()[index@],
    {
        *self.get_symbol(index).unwrap()
    }

    /// The count and the token of a bigram that the corpus has.
    pub fn bigram(&self, index: Bigram) -> (entry: (usize, usize))
        requires
            self.ngrams().contains_key(index@),
        ensures
            entry == self.ngrams()[index@],
    {
        *self.get_bigram(index).unwrap()
    }

    /// The count and the token of a trigram that the corpus has.
    pub fn trigram(&self, index: Trigram) -> (entry: (usize, usize))
        requires
            self.ngrams().contains_key(index@),
        ensures
            entry == self.ngrams()[index@],
    {
        *self.get_trigram(index).unwrap()
    }

    /// The tokens of the symbols of the n-gram with the token `token`,
    /// the first symbol first, and zero for a symbol it does not have.
    pub fn token_to_ngram(&self, token: usize) -> (ngram: [usize; 3])
        requires
            self.base() > 0,
            token as int / self.base() / self.base() < self.base(),
        ensures
            ngram@.len() == 3,
            ngram[0] == digits(token as int, self.base())[0],
            ngram[1] == digits(token as int, self.base())[1],
            ngram[2] == digits(token as int, self.base())[2],
            ngram[0] < self.base(),
            ngram[1] < self.base(),
            ngram[2] < self.base(),
    {
        split_token(token, self.token_base)
    }

    /// The base of the tokens.
    pub fn token_base(&self) -> (base: usize)
        ensures
            base == self.base(),
    {
        self.token_base
    }

    /// The count of the n-gram with the token `token`, or zero if there
    /// is none.
    pub fn count_of_token(&self, token: usize) -> (count: usize)
        requires
            token < self.token_counts().len(),
        ensures
            count == self.token_counts()[token as int],
    {
        self.token_map[token]
    }

    /// The number of tokens that `count_of_token` knows.
    pub fn token_limit(&self) -> (limit: usize)
        ensures
            limit == self.token_counts().len(),
    {
        self.token_map.len()
    }

    /// The sum of the counts of all symbols.
    pub fn total_symbols(&self) -> (total: usize)
        ensures
            total == self.symbol_total(),
    {
        self.s_total
    }

    /// The sum of the counts of all bigrams.
    pub fn total_bigrams(&self) -> (total: usize)
        ensures
            total == self.bigram_total(),
    {
        self.b_total
    }

    /// The sum of the counts of all trigrams.
    pub fn total_trigrams(&self) -> (total: usize)
        ensures
            total == self.trigram_total(),
    {
        self.t_total
    }
}

/// Whether every symbol of every entry of `entries` has an entry in `es`.
pub open spec fn symbols_defined(es: Seq<Entry>, entries: Seq<Entry>, n: int) -> bool {
    forall|i: int, p: int|
        0 <= i < entries.len() && 0 <= p < n ==> has_key(
            es,
            #[trigger] place(entries[i].0 as int, n, p) as u64,
        )
}

/// Whether the tokens and the totals of a corpus with these entries fit
/// in a machine word.
pub open spec fn counts_fit(es: Seq<Entry>, eb: Seq<Entry>, et: Seq<Entry>) -> bool {
    &&& (es.len() + 1) * (es.len() + 1) * (es.len() + 1) <= usize::MAX
    &&& count_sum(es) <= usize::MAX
    &&& count_sum(eb) <= usize::MAX
    &&& count_sum(et) <= usize::MAX
}

/// The entries of the n-grams of `n` characters.
pub open spec fn entries_for(es: Seq<Entry>, eb: Seq<Entry>, et: Seq<Entry>, n: int) -> Seq<
    Entry,
> {
    if n == 1 {
        es
    } else if n == 2 {
        eb
    } else {
        et
    }
}

/// Whether `m` holds the n-grams of the entries, and no others, each
/// with the count of its entry.
pub open spec fn holds_counts(
    m: Map<Seq<char>, (usize, usize)>,
    es: Seq<Entry>,
    eb: Seq<Entry>,
    et: Seq<Entry>,
) -> bool {
    &&& forall|g: Seq<char>| #[trigger]
        m.contains_key(g) <==> 1 <= g.len() <= 3 && has_key(
            entries_for(es, eb, et, g.len() as int),
            pack(g) as u64,
        )
    &&& forall|n: int, i: int|
        #![trigger entries_for(es, eb, et, n)[i]]
        1 <= n <= 3 && 0 <= i < entries_for(es, eb, et, n).len() ==> m[unpack(
            entries_for(es, eb, et, n)[i].0 as int,
            n,
        )].0 == entries_for(es, eb, et, n)[i].1
}

/// Lists with the same counts have the same sum.
proof fn lemma_same_counts(a: Seq<Entry>, b: Seq<Entry>)
    requires
        a.len() == b.len(),
        forall|i: int| 0 <= i < a.len() ==> (#[trigger] a[i]).1 == b[i].1,
    ensures
        count_sum(a) == count_sum(b),
    decreases a.len(),
{
    if a.len() > 0 {
        lemma_same_counts(a.drop_last(), b.drop_last());
    }
}

/// The cube of `base`, unless it does not fit in a machine word.
fn cube(base: usize) -> (c: Option<usize>)
    requires
        base >= 1,
    ensures
        match c {
            Some(c) => c == base * base * base,
            None => base * base * base > usize::MAX,
        },
{
    match base.checked_mul(base) {
        Some(square) => square.checked_mul(base),
        None => {
            assert(base * base * base >= base * base) by (nonlinear_arith)
                requires
                    base >= 1,
            ;
            None
        },
    }
}

/// What the maps built from the entries satisfy.
proof fn lemma_built(
    tables: Tables,
    base: int,
    es: Seq<Entry>,
    eb: Seq<Entry>,
    et: Seq<Entry>,
    sl: Seq<Entry>,
    bl: Seq<Entry>,
    tl: Seq<Entry>,
)
    requires
        keys_increase(es),
        keys_valid(es, 1),
        keys_valid(eb, 2),
        keys_valid(et, 3),
        base == es.len() + 1,
        lists_map(sl, tables.s),
        lists_map(bl, tables.b),
        lists_map(tl, tables.t),
        sl.len() == es.len(),
        bl.len() == eb.len(),
        tl.len() == et.len(),
        forall|i: int|
            0 <= i < es.len() ==> (#[trigger] sl[i]).0 == es[i].0 && sl[i].1 == es[i].1 && sl[i].2
                == i + 1,
        all_defined(tables.s, eb, 2),
        all_defined(tables.s, et, 3),
        forall|i: int|
            0 <= i < eb.len() ==> (#[trigger] bl[i]).0 == eb[i].0 && bl[i].1 == eb[i].1 && bl[i].2
                == token_for(tables.s, eb[i].0 as int, 2, base),
        forall|i: int|
            0 <= i < et.len() ==> (#[trigger] tl[i]).0 == et[i].0 && tl[i].1 == et[i].1 && tl[i].2
                == token_for(tables.s, et[i].0 as int, 3, base),
    ensures
        tables_ok(tables, base),
        holds_counts(tables.ngrams(), es, eb, et),
{
    lemma_symbol_tokens(tables.s, base, es, sl);
    assert forall|n: int, key: u64|
        #![trigger tables.of(n).contains_key(key)]
        1 <= n <= 3 && tables.of(n).contains_key(key) implies valid_key(key as int, n)
        && defined_in(tables.s, key as int, n) && tables.of(n)[key].1 == token_for(
        tables.s,
        key as int,
        n,
        base,
    ) by {
        if n == 1 {
            assert(has_key(sl, key));
            let i = choose|i: int| 0 <= i < sl.len() && (#[trigger] sl[i]).0 == key;
            assert(valid_key(es[i].0 as int, 1));
            assert(place(key as int, 1, 0) == key);
            assert(0 * base == 0);
        } else if n == 2 {
            assert(has_key(bl, key));
            let i = choose|i: int| 0 <= i < bl.len() && (#[trigger] bl[i]).0 == key;
            assert(valid_key(eb[i].0 as int, 2));
            assert(defined_in(tables.s, eb[i].0 as int, 2));
        } else {
            assert(has_key(tl, key));
            let i = choose|i: int| 0 <= i < tl.len() && (#[trigger] tl[i]).0 == key;
            assert(valid_key(et[i].0 as int, 3));
            assert(defined_in(tables.s, et[i].0 as int, 3));
        }
    }
    let m = tables.ngrams();
    assert forall|g: Seq<char>| #[trigger]
        m.contains_key(g) <==> 1 <= g.len() <= 3 && has_key(
            entries_for(es, eb, et, g.len() as int),
            pack(g) as u64,
        ) by {
        if 1 <= g.len() <= 3 {
            let n = g.len() as int;
            let key = pack(g) as u64;
            let list = if n == 1 { sl } else if n == 2 { bl } else { tl };
            let entries = entries_for(es, eb, et, n);
            assert(lists_map(list, tables.of(n)));
            if tables.of(n).contains_key(key) {
                assert(has_key(list, key));
                let i = choose|i: int| 0 <= i < list.len() && (#[trigger] list[i]).0 == key;
                assert(entries[i].0 == key);
            }
            if has_key(entries, key) {
                let i = choose|i: int| 0 <= i < entries.len() && (#[trigger] entries[i]).0 == key;
                assert(list[i].0 == key);
                assert(tables.of(n).contains_key(list[i].0));
            }
        }
    }
    assert forall|n: int, i: int|
        #![trigger entries_for(es, eb, et, n)[i]]
        1 <= n <= 3 && 0 <= i < entries_for(es, eb, et, n).len() implies m[unpack(
        entries_for(es, eb, et, n)[i].0 as int,
        n,
    )].0 == entries_for(es, eb, et, n)[i].1 by {
        let list = if n == 1 { sl } else if n == 2 { bl } else { tl };
        let entries = entries_for(es, eb, et, n);
        assert(lists_map(list, tables.of(n)));
        assert(list[i].0 == entries[i].0 && list[i].1 == entries[i].1);
        assert(tables.of(n).contains_key(list[i].0));
        if n == 1 {
            assert(valid_key(es[i].0 as int, 1));
        } else if n == 2 {
            assert(valid_key(eb[i].0 as int, 2));
        } else {
            assert(valid_key(et[i].0 as int, 3));
        }
        lemma_pack_unpack(entries[i].0 as int, n);
    }
}

/// Tokens given in the order of the keys lie from 1 to the number of
/// symbols and grow with the key.
proof fn lemma_symbol_tokens(
    s: Map<u64, (usize, usize)>,
    base: int,
    es: Seq<Entry>,
    sl: Seq<Entry>,
)
    requires
        keys_increase(es),
        base == es.len() + 1,
        lists_map(sl, s),
        sl.len() == es.len(),
        forall|i: int|
            0 <= i < es.len() ==> (#[trigger] sl[i]).0 == es[i].0 && sl[i].1 == es[i].1 && sl[i].2
                == i + 1,
    ensures
        symbol_tokens_ok(s, base),
        forall|key: u64| s.contains_key(key) <==> has_key(es, key),
{
    assert forall|key: u64| #[trigger] s.contains_key(key) implies 1 <= s[key].1 < base by {
        assert(has_key(sl, key));
        let i = choose|i: int| 0 <= i < sl.len() && (#[trigger] sl[i]).0 == key;
        assert(s[sl[i].0] == (sl[i].1, sl[i].2));
    }
    assert forall|k1: u64, k2: u64|
        #![trigger s.contains_key(k1), s.contains_key(k2)]
        s.contains_key(k1) && s.contains_key(k2) && k1 < k2 implies s[k1].1 < s[k2].1 by {
        assert(has_key(sl, k1));
        assert(has_key(sl, k2));
        let i = choose|i: int| 0 <= i < sl.len() && (#[trigger] sl[i]).0 == k1;
        let j = choose|j: int| 0 <= j < sl.len() && (#[trigger] sl[j]).0 == k2;
        assert(s[sl[i].0] == (sl[i].1, sl[i].2));
        assert(s[sl[j].0] == (sl[j].1, sl[j].2));
        assert(es[i].0 == k1 && es[j].0 == k2);
        if i >= j {
            if i > j {
                assert(es[j].0 < es[i].0);
            }
        }
    }
    assert forall|t: int| 1 <= t < base implies #[trigger] token_given(s, t) by {
        assert(sl[t - 1].2 == t);
        assert(s.contains_key(sl[t - 1].0) && s[sl[t - 1].0] == (sl[t - 1].1, sl[t - 1].2));
    }
    assert forall|key: u64| s.contains_key(key) <==> has_key(es, key) by {
        if s.contains_key(key) {
            assert(has_key(sl, key));
            let i = choose|i: int| 0 <= i < sl.len() && (#[trigger] sl[i]).0 == key;
            assert(es[i].0 == key);
        }
        if has_key(es, key) {
            let i = choose|i: int| 0 <= i < es.len() && (#[trigger] es[i]).0 == key;
            assert(sl[i].0 == key);
            assert(s.contains_key(sl[i].0));
        }
    }
}

impl TextStats {
    /// Builds the statistics from the counts of the symbols, bigrams
    /// and trigrams, each list in the order of its keys.
    #[verifier::rlimit(40)]
    pub(crate) fn from_counts(es: &Vec<Entry>, eb: &Vec<Entry>, et: &Vec<Entry>) -> (r: Result<
        TextStats,
        CorpusFormatError,
    >)
        requires
            keys_increase(es@),
            keys_increase(eb@),
            keys_increase(et@),
            keys_valid(es@, 1),
            keys_valid(eb@, 2),
            keys_valid(et@, 3),
        ensures
            match r {
                Ok(stats) => stats.wf() && holds_counts(stats.ngrams(), es@, eb@, et@)
                    && symbols_defined(es@, eb@, 2) && symbols_defined(es@, et@, 3) && counts_fit(
                    es@,
                    eb@,
                    et@,
                ) && stats.symbol_total() == count_sum(es@) && stats.bigram_total() == count_sum(
                    eb@,
                ) && stats.trigram_total() == count_sum(et@),
                Err(CorpusFormatError::UndefinedInBigram) => !symbols_defined(es@, eb@, 2),
                Err(CorpusFormatError::UndefinedInTrigram) => symbols_defined(es@, eb@, 2)
                    && !symbols_defined(es@, et@, 3),
                Err(CorpusFormatError::TooLarge) => symbols_defined(es@, eb@, 2)
                    && symbols_defined(es@, et@, 3) && !counts_fit(es@, eb@, et@),
                Err(_) => false,
            },
    {
        let (s_map, sl) = symbol_table(es);
        proof {
            lemma_symbol_tokens(s_map@, (es@.len() + 1) as int, es@, sl@);
            lemma_defined(s_map@, es@, eb@, 2);
            lemma_defined(s_map@, es@, et@, 3);
            lemma_same_counts(sl@, es@);
        }
        if !are_defined(&s_map, eb, 2) {
            return Err(CorpusFormatError::UndefinedInBigram);
        }
        if !are_defined(&s_map, et, 3) {
            return Err(CorpusFormatError::UndefinedInTrigram);
        }
        let base = match es.len().checked_add(1) {
            Some(base) => base,
            None => {
                assert((es@.len() + 1) * (es@.len() + 1) * (es@.len() + 1) > usize::MAX)
                    by (nonlinear_arith)
                    requires
                        es@.len() + 1 > usize::MAX,
                ;
                return Err(CorpusFormatError::TooLarge);
            },
        };
        if cube(base).is_none() {
            return Err(CorpusFormatError::TooLarge);
        }
        let (b_map, bl) = derived_table(&s_map, eb, 2, base);
        let (t_map, tl) = derived_table(&s_map, et, 3, base);
        proof {
            lemma_same_counts(bl@, eb@);
            lemma_same_counts(tl@, et@);
        }
        let s_total = match sum_counts(&sl) {
            Some(total) => total,
            None => {
                return Err(CorpusFormatError::TooLarge);
            },
        };
        let b_total = match sum_counts(&bl) {
            Some(total) => total,
            None => {
                return Err(CorpusFormatError::TooLarge);
            },
        };
        let t_total = match sum_counts(&tl) {
            Some(total) => total,
            None => {
                return Err(CorpusFormatError::TooLarge);
            },
        };
        let ghost tables = Tables { s: s_map@, b: b_map@, t: t_map@ };
        proof {
            broadcast use vstd::std_specs::btree::axiom_btree_map_view_finite_dom;

            assert(s_map@.dom().finite() && b_map@.dom().finite() && t_map@.dom().finite());
            lemma_built(tables, base as int, es@, eb@, et@, sl@, bl@, tl@);
            lemma_tokens_differ(tables, base as int, sl@, bl@, tl@);
            assert(base <= base * base * base) by (nonlinear_arith)
                requires
                    base >= 1,
            ;
            lemma_list_sum(sl@, s_map@);
            lemma_list_sum(bl@, b_map@);
            lemma_list_sum(tl@, t_map@);
        }
        let token_map = counts_by_token(&sl, &bl, &tl, base);
        proof {
            lemma_token_counts(tables, base as int, sl@, bl@, tl@, token_map@);
            lemma_tokens_ok(tables, base as int);
        }
        let ghost sl_view = sl@;
        let ghost bl_view = bl@;
        let ghost tl_view = tl@;
        let sorted_s = sort_by_count(sl);
        let sorted_b = sort_by_count(bl);
        let sorted_t = sort_by_count(tl);
        proof {
            lemma_reordered_lists_map(sl_view, sorted_s@, s_map@);
            lemma_reordered_lists_map(bl_view, sorted_b@, b_map@);
            lemma_reordered_lists_map(tl_view, sorted_t@, t_map@);
            lemma_ranked_list(tables, base as int, sorted_s@, 1);
            lemma_ranked_list(tables, base as int, sorted_b@, 2);
            lemma_ranked_list(tables, base as int, sorted_t@, 3);
        }
        let symbols = symbols_from(&sorted_s);
        let bigrams = bigrams_from(&sorted_b);
        let trigrams = trigrams_from(&sorted_t);
        let stats = TextStats {
            s_map,
            b_map,
            t_map,
            symbols,
            bigrams,
            trigrams,
            s_total,
            b_total,
            t_total,
            token_base: base,
            token_map,
        };
        proof {
            assert(stats.tables() == tables);
            assert(stats.symbol_list().len() == es@.len());
            assert(stats.tables_wf()) by {
                assert forall|key: u64| #[trigger] stats.s_map@.contains_key(key) implies valid_key(
                    key as int,
                    1,
                ) by {
                    assert(tables.of(1).contains_key(key));
                }
                assert forall|key: u64| #[trigger] stats.b_map@.contains_key(key) implies valid_key(
                    key as int,
                    2,
                ) by {
                    assert(tables.of(2).contains_key(key));
                }
                assert forall|key: u64| #[trigger] stats.t_map@.contains_key(key) implies valid_key(
                    key as int,
                    3,
                ) by {
                    assert(tables.of(3).contains_key(key));
                }
            }
        }
        Ok(stats)
    }
}

/// A symbol is in the map of symbols exactly if the list of symbols has
/// it, so both say the same of what is defined.
proof fn lemma_defined(s: Map<u64, (usize, usize)>, es: Seq<Entry>, entries: Seq<Entry>, n: int)
    requires
        forall|key: u64| s.contains_key(key) <==> has_key(es, key),
    ensures
        all_defined(s, entries, n) == symbols_defined(es, entries, n),
{
    if all_defined(s, entries, n) {
        assert forall|i: int, p: int| 0 <= i < entries.len() && 0 <= p < n implies has_key(
            es,
            #[trigger] place(entries[i].0 as int, n, p) as u64,
        ) by {
            assert(defined_in(s, entries[i].0 as int, n));
        }
    }
    if symbols_defined(es, entries, n) {
        assert forall|i: int| 0 <= i < entries.len() implies defined_in(
            s,
            (#[trigger] entries[i]).0 as int,
            n,
        ) by {
            assert forall|p: int| 0 <= p < n implies s.contains_key(
                #[trigger] place(entries[i].0 as int, n, p) as u64,
            ) by {}
        }
    }
}

impl TextStats {
    /// Restricts the corpus to the symbols that `f` accepts, and to the
    /// bigrams and trigrams made of them.  Counts stay; tokens are given
    /// anew, so they must not be compared with those of `self`.
    pub fn filter<F: Fn(char) -> bool>(self, f: F) -> (filtered: TextStats)
        requires
            self.wf(),
            forall|c: char| f.requires((c,)),
        ensures
            filtered.wf(),
            is_filtered(self.ngrams(), filtered.ngrams(), f),
    {
        let es0 = entries_of(&self.s_map);
        let eb0 = entries_of(&self.b_map);
        let et0 = entries_of(&self.t_map);
        let (es, symbol_map, Ghost(symbols)) = keep_symbols(&es0, &f);
        let eb = keep_ngrams(&eb0, &symbol_map, 2);
        let et = keep_ngrams(&et0, &symbol_map, 3);
        let ghost sel = Selection {
            es0: es0@,
            eb0: eb0@,
            et0: et0@,
            es: es@,
            eb: eb@,
            et: et@,
            symbols,
            symbol_map: symbol_map@,
        };
        let ghost tables = self.tables();
        proof {
            broadcast use vstd::std_specs::btree::axiom_btree_map_view_finite_dom;

            assert(tables.s.dom().finite() && tables.b.dom().finite() && tables.t.dom().finite());
            assert(sel.read(1) == es0@ && sel.read(2) == eb0@ && sel.read(3) == et0@);
            assert(sel.wf(tables));
            assert(self.symbol_list().len() == self.symbols@.len());
            lemma_selection_fits(tables, sel);
        }
        // what was kept of a corpus is a corpus
        let filtered = TextStats::from_counts(&es, &eb, &et).unwrap();
        proof {
            lemma_selection_filters(tables, sel, filtered.ngrams(), f);
        }
        filtered
    }
}

} // verus!
