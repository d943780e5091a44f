//! A corpus as three maps from n-grams to counts, as it is written to a
//! file and read back.

use vstd::prelude::*;
use std::collections::BTreeMap;
use crate::chars::{chars_of, string_from_chars};
use crate::ngram::{
    pack, unpack, valid_key, window_key, lemma_unpack_pack, lemma_pack_injective,
};
use crate::table::{Entry, has_key, lists_map, entries_of};
use crate::sums::{count_sum, map_sum, lemma_map_sum_insert, lemma_list_sum};
use crate::packed::{keys_valid, place, lemma_places};
use crate::corpus_model::{
    NGram, sym, is_listed, is_ranked_list, list_total, symbol_views, bigram_views, trigram_views,
};
use crate::text_stats::{
    TextStats, CorpusFormatError, symbols_defined, holds_counts, entries_for,
};

verus! {

/// The three sections of a written corpus.  Each holds the entries of a
/// map from n-grams to counts, so no n-gram twice.  The sections are
/// lists of entries and not maps by string: what a map by string holds
/// rests on the order of strings, of which nothing can be proved here.
/// A caller that has maps hands in their entries.
#[derive(Clone, Debug, PartialEq, Eq)]
pub struct TextMaps {
    pub symbols: Vec<(String, usize)>,
    pub bigrams: Vec<(String, usize)>,
    pub trigrams: Vec<(String, usize)>,
}

/// An n-gram with its count.
pub type Counted = (Seq<char>, usize);

/// The entries of a section.
pub open spec fn section_view(section: Seq<(String, usize)>) -> Seq<Counted> {
    section.map_values(|e: (String, usize)| (e.0@, e.1))
}

/// Whether every n-gram of a section has `n` characters.
pub open spec fn keys_have_len(section: Seq<Counted>, n: int) -> bool {
    forall|i: int| 0 <= i < section.len() ==> (#[trigger] section[i]).0.len() == n
}

/// Whether no n-gram stands twice in a section.
pub open spec fn keys_differ(section: Seq<Counted>) -> bool {
    forall|i: int, j: int|
        0 <= i < j < section.len() ==> (#[trigger] section[i]).0 != (#[trigger] section[j]).0
}

/// Whether a section has the n-gram `g`.
pub open spec fn section_has(section: Seq<Counted>, g: Seq<char>) -> bool {
    exists|i: int| 0 <= i < section.len() && (#[trigger] section[i]).0 == g
}

/// The sum of the counts of a section.
pub open spec fn section_total(section: Seq<Counted>) -> nat
    decreases section.len(),
{
    if section.len() == 0 {
        0
    } else {
        section_total(section.drop_last()) + section.last().1 as nat
    }
}

/// Whether every character of every n-gram of `section` is a symbol of
/// `symbols`.
pub open spec fn section_defined(symbols: Seq<Counted>, section: Seq<Counted>) -> bool {
    forall|i: int, j: int|
        #![trigger section[i].0[j]]
        0 <= i < section.len() && 0 <= j < section[i].0.len() ==> section_has(
            symbols,
            sym(section[i].0[j]),
        )
}

/// Whether the tokens and the totals of the sections fit in a machine
/// word.
pub open spec fn sections_fit(s: Seq<Counted>, b: Seq<Counted>, t: Seq<Counted>) -> bool {
    &&& (s.len() + 1) * (s.len() + 1) * (s.len() + 1) <= usize::MAX
    &&& section_total(s) <= usize::MAX
    &&& section_total(b) <= usize::MAX
    &&& section_total(t) <= usize::MAX
}

/// Why the sections are no corpus, if they are none: the first of the
/// reasons in the order of `CorpusFormatError`.
pub open spec fn format_error(s: Seq<Counted>, b: Seq<Counted>, t: Seq<Counted>) -> Option<
    CorpusFormatError,
> {
    if !keys_have_len(s, 1) {
        Some(CorpusFormatError::SymbolKey)
    } else if !keys_have_len(b, 2) {
        Some(CorpusFormatError::BigramKey)
    } else if !keys_have_len(t, 3) {
        Some(CorpusFormatError::TrigramKey)
    } else if !section_defined(s, b) {
        Some(CorpusFormatError::UndefinedInBigram)
    } else if !section_defined(s, t) {
        Some(CorpusFormatError::UndefinedInTrigram)
    } else if !sections_fit(s, b, t) {
        Some(CorpusFormatError::TooLarge)
    } else {
        None
    }
}

/// The section of the n-grams of `n` characters.
pub open spec fn section_for(s: Seq<Counted>, b: Seq<Counted>, t: Seq<Counted>, n: int) -> Seq<
    Counted,
> {
    if n == 1 {
        s
    } else if n == 2 {
        b
    } else {
        t
    }
}

/// Whether `m` holds the n-grams of the sections, and no others, each
/// with the count of its section.
pub open spec fn holds_sections(
    m: Map<Seq<char>, (usize, usize)>,
    s: Seq<Counted>,
    b: Seq<Counted>,
    t: Seq<Counted>,
) -> bool {
    &&& forall|g: Seq<char>| #[trigger]
        m.contains_key(g) <==> 1 <= g.len() <= 3 && section_has(
            section_for(s, b, t, g.len() as int),
            g,
        )
    &&& forall|n: int, i: int|
        #![trigger section_for(s, b, t, n)[i]]
        1 <= n <= 3 && 0 <= i < section_for(s, b, t, n).len() ==> m[section_for(s, b, t, n)[i].0].0
            == section_for(s, b, t, n)[i].1
}

/// Whether `r` is what reading the sections gives: the corpus with
/// their n-grams and counts, or the reason why they are none.
pub open spec fn reads_as(
    s: Seq<Counted>,
    b: Seq<Counted>,
    t: Seq<Counted>,
    r: Result<TextStats, CorpusFormatError>,
) -> bool {
    match r {
        Ok(stats) => format_error(s, b, t) is None && stats.wf() && holds_sections(
            stats.ngrams(),
            s,
            b,
            t,
        ),
        Err(e) => format_error(s, b, t) == Some(e),
    }
}

/// What the map of a section holds after its first `n` entries.
pub open spec fn holds_section(
    m: Map<u64, (usize, usize)>,
    section: Seq<Counted>,
    arity: int,
    n: int,
) -> bool {
    &&& m.dom().finite()
    &&& m.dom().len() == n
    &&& map_sum(m) == section_total(section.take(n))
    &&& forall|i: int|
        0 <= i < n ==> m.contains_key(pack((#[trigger] section[i]).0) as u64) && m[pack(
            section[i].0,
        ) as u64] == (section[i].1, 0usize)
    &&& forall|key: u64| #[trigger]
        m.contains_key(key) ==> valid_key(key as int, arity) && exists|i: int|
            0 <= i < n && pack((#[trigger] section[i]).0) as u64 == key
}

/// Reads a section into a map by key, unless one of its n-grams has not
/// `arity` characters.
fn read_section(section: &Vec<(String, usize)>, arity: usize) -> (r: Option<
    BTreeMap<u64, (usize, usize)>,
>)
    requires
        1 <= arity <= 3,
        keys_differ(section_view(section@)),
    ensures
        match r {
            Some(m) => keys_have_len(section_view(section@), arity as int) && holds_section(
                m@,
                section_view(section@),
                arity as int,
                section@.len() as int,
            ),
            None => !keys_have_len(section_view(section@), arity as int),
        },
{
    let ghost sv = section_view(section@);
    let mut map: BTreeMap<u64, (usize, usize)> = BTreeMap::new();
    let mut i: usize = 0;
    proof {
        broadcast use vstd::std_specs::btree::axiom_btree_map_view_finite_dom;

        assert(map@.dom().finite());
        assert(sv.take(0) =~= Seq::<Counted>::empty());
    }
    while i < section.len()
        invariant
            1 <= arity <= 3,
            i <= section@.len(),
            sv == section_view(section@),
            keys_differ(sv),
            forall|j: int| 0 <= j < i ==> (#[trigger] sv[j]).0.len() == arity,
            holds_section(map@, sv, arity as int, i as int),
        decreases section@.len() - i,
    {
        let chars = chars_of(section[i].0.as_str());
        let count = section[i].1;
        assert(sv[i as int] == (chars@, count));
        if chars.len() != arity {
            return None;
        }
        let key = window_key(&chars, 0, arity);
        let ghost before = map@;
        proof {
            assert(chars@.subrange(0, arity as int) =~= chars@);
            lemma_unpack_pack(chars@);
            if before.contains_key(key) {
                let j = choose|j: int| 0 <= j < i && pack((#[trigger] sv[j]).0) as u64 == key;
                lemma_unpack_pack(sv[j].0);
                lemma_pack_injective(sv[j].0, chars@);
            }
            lemma_map_sum_insert(before, key, (count, 0));
            assert(sv.take(i + 1).drop_last() =~= sv.take(i as int));
        }
        map.insert(key, (count, 0));
        proof {
            assert(map@.dom() =~= before.dom().insert(key));
            assert forall|j: int| 0 <= j < i + 1 implies map@.contains_key(
                pack((#[trigger] sv[j]).0) as u64,
            ) && map@[pack(sv[j].0) as u64] == (sv[j].1, 0usize) by {
                if j < i {
                    lemma_unpack_pack(sv[j].0);
                    if pack(sv[j].0) as u64 == key {
                        lemma_pack_injective(sv[j].0, chars@);
                    }
                }
            }
            assert forall|k: u64| #[trigger] map@.contains_key(k) implies valid_key(
                k as int,
                arity as int,
            ) && exists|j: int| 0 <= j < i + 1 && pack((#[trigger] sv[j]).0) as u64 == k by {
                if k == key {
                    assert(pack(sv[i as int].0) as u64 == k);
                } else {
                    let j = choose|j: int| 0 <= j < i && pack((#[trigger] sv[j]).0) as u64 == k;
                    assert(pack(sv[j].0) as u64 == k);
                }
            }
        }
        i += 1;
    }
    assert(sv.take(i as int) =~= sv);
    Some(map)
}

/// The list of a section's map says of keys what the section says of
/// n-grams.
proof fn lemma_section_list(
    m: Map<u64, (usize, usize)>,
    section: Seq<Counted>,
    arity: int,
    entries: Seq<Entry>,
)
    requires
        1 <= arity <= 3,
        keys_have_len(section, arity),
        holds_section(m, section, arity, section.len() as int),
        lists_map(entries, m),
    ensures
        keys_valid(entries, arity),
        entries.len() == section.len(),
        count_sum(entries) == section_total(section),
        forall|g: Seq<char>|
            #![trigger pack(g)]
            g.len() == arity ==> (has_key(entries, pack(g) as u64) <==> section_has(section, g)),
        forall|i: int|
            0 <= i < section.len() ==> has_key(entries, pack((#[trigger] section[i]).0) as u64),
{
    lemma_list_sum(entries, m);
    assert(section.take(section.len() as int) =~= section);
    assert forall|i: int| 0 <= i < entries.len() implies valid_key(
        (#[trigger] entries[i]).0 as int,
        arity,
    ) by {
        assert(m.contains_key(entries[i].0));
    }
    assert forall|g: Seq<char>| #![trigger pack(g)] g.len() == arity implies (has_key(
        entries,
        pack(g) as u64,
    ) <==> section_has(section, g)) by {
        let key = pack(g) as u64;
        lemma_unpack_pack(g);
        if has_key(entries, key) {
            let i = choose|i: int| 0 <= i < entries.len() && (#[trigger] entries[i]).0 == key;
            assert(m.contains_key(entries[i].0));
            let j = choose|j: int|
                0 <= j < section.len() && pack((#[trigger] section[j]).0) as u64 == key;
            lemma_unpack_pack(section[j].0);
            lemma_pack_injective(section[j].0, g);
        }
        if section_has(section, g) {
            let j = choose|j: int| 0 <= j < section.len() && (#[trigger] section[j]).0 == g;
            assert(m.contains_key(pack(section[j].0) as u64));
        }
    }
    assert forall|i: int| 0 <= i < section.len() implies has_key(
        entries,
        pack((#[trigger] section[i]).0) as u64,
    ) by {
        assert(m.contains_key(pack(section[i].0) as u64));
    }
}

/// The lists say of the symbols of bigrams or trigrams what the sections
/// say.
proof fn lemma_sections_defined(
    s: Seq<Counted>,
    x: Seq<Counted>,
    arity: int,
    es: Seq<Entry>,
    ex: Seq<Entry>,
    ms: Map<u64, (usize, usize)>,
    mx: Map<u64, (usize, usize)>,
)
    requires
        2 <= arity <= 3,
        keys_have_len(s, 1),
        keys_have_len(x, arity),
        holds_section(ms, s, 1, s.len() as int),
        holds_section(mx, x, arity, x.len() as int),
        lists_map(es, ms),
        lists_map(ex, mx),
    ensures
        symbols_defined(es, ex, arity) == section_defined(s, x),
{
    lemma_section_list(ms, s, 1, es);
    lemma_section_list(mx, x, arity, ex);
    if section_defined(s, x) {
        assert forall|i: int, p: int| 0 <= i < ex.len() && 0 <= p < arity implies has_key(
            es,
            #[trigger] place(ex[i].0 as int, arity, p) as u64,
        ) by {
            assert(mx.contains_key(ex[i].0));
            let j = choose|j: int| 0 <= j < x.len() && pack((#[trigger] x[j]).0) as u64 == ex[i].0;
            let g = x[j].0;
            lemma_unpack_pack(g);
            lemma_places(g);
            assert(section_has(s, sym(g[p]))) by {
                assert(x[j].0[p] == g[p]);
            }
            lemma_unpack_pack(sym(g[p]));
        }
    }
    if symbols_defined(es, ex, arity) {
        assert forall|i: int, j: int|
            #![trigger x[i].0[j]]
            0 <= i < x.len() && 0 <= j < x[i].0.len() implies section_has(s, sym(x[i].0[j])) by {
            let g = x[i].0;
            lemma_unpack_pack(g);
            lemma_places(g);
            let key = pack(g) as u64;
            assert(has_key(ex, key));
            let k = choose|k: int| 0 <= k < ex.len() && (#[trigger] ex[k]).0 == key;
            assert(has_key(es, place(ex[k].0 as int, arity, j) as u64));
            lemma_unpack_pack(sym(g[j]));
        }
    }
}

/// The corpus built from the lists holds what the sections hold.
proof fn lemma_holds_sections(
    m: Map<Seq<char>, (usize, usize)>,
    s: Seq<Counted>,
    b: Seq<Counted>,
    t: Seq<Counted>,
    es: Seq<Entry>,
    eb: Seq<Entry>,
    et: Seq<Entry>,
    ms: Map<u64, (usize, usize)>,
    mb: Map<u64, (usize, usize)>,
    mt: Map<u64, (usize, usize)>,
)
    requires
        keys_have_len(s, 1),
        keys_have_len(b, 2),
        keys_have_len(t, 3),
        holds_section(ms, s, 1, s.len() as int),
        holds_section(mb, b, 2, b.len() as int),
        holds_section(mt, t, 3, t.len() as int),
        lists_map(es, ms),
        lists_map(eb, mb),
        lists_map(et, mt),
        holds_counts(m, es, eb, et),
    ensures
        holds_sections(m, s, b, t),
{
    lemma_section_list(ms, s, 1, es);
    lemma_section_list(mb, b, 2, eb);
    lemma_section_list(mt, t, 3, et);
    assert forall|g: Seq<char>| #[trigger]
        m.contains_key(g) <==> 1 <= g.len() <= 3 && section_has(
            section_for(s, b, t, g.len() as int),
            g,
        ) by {
        if 1 <= g.len() <= 3 {
            let key = pack(g) as u64;
        }
    }
    assert forall|n: int, i: int|
        #![trigger section_for(s, b, t, n)[i]]
        1 <= n <= 3 && 0 <= i < section_for(s, b, t, n).len() implies m[section_for(
        s,
        b,
        t,
        n,
    )[i].0].0 == section_for(s, b, t, n)[i].1 by {
        let section = section_for(s, b, t, n);
        let entries = entries_for(es, eb, et, n);
        let table = if n == 1 { ms } else if n == 2 { mb } else { mt };
        let g = section[i].0;
        let key = pack(g) as u64;
        lemma_unpack_pack(g);
        assert(has_key(entries, pack(section[i].0) as u64));
        let k = choose|k: int| 0 <= k < entries.len() && (#[trigger] entries[k]).0 == key;
        assert(table.contains_key(entries[k].0));
        assert(table[pack(section[i].0) as u64] == (section[i].1, 0usize));
        assert(m[unpack(entries_for(es, eb, et, n)[k].0 as int, n)].0 == entries_for(
            es,
            eb,
            et,
            n,
        )[k].1);
    }
}

impl TextStats {
    /// Reads a corpus from its three sections.
    pub fn try_from(maps: &TextMaps) -> (r: Result<TextStats, CorpusFormatError>)
        requires
            keys_differ(section_view(maps.symbols@)),
            keys_differ(section_view(maps.bigrams@)),
            keys_differ(section_view(maps.trigrams@)),
        ensures
            reads_as(
                section_view(maps.symbols@),
                section_view(maps.bigrams@),
                section_view(maps.trigrams@),
                r,
            ),
    {
        let ghost s = section_view(maps.symbols@);
        let ghost b = section_view(maps.bigrams@);
        let ghost t = section_view(maps.trigrams@);
        let s_map = match read_section(&maps.symbols, 1) {
            Some(m) => m,
            None => {
                return Err(CorpusFormatError::SymbolKey);
            },
        };
        let b_map = match read_section(&maps.bigrams, 2) {
            Some(m) => m,
            None => {
                return Err(CorpusFormatError::BigramKey);
            },
        };
        let t_map = match read_section(&maps.trigrams, 3) {
            Some(m) => m,
            None => {
                return Err(CorpusFormatError::TrigramKey);
            },
        };
        let es = entries_of(&s_map);
        let eb = entries_of(&b_map);
        let et = entries_of(&t_map);
        proof {
            lemma_section_list(s_map@, s, 1, es@);
            lemma_section_list(b_map@, b, 2, eb@);
            lemma_section_list(t_map@, t, 3, et@);
            lemma_sections_defined(s, b, 2, es@, eb@, s_map@, b_map@);
            lemma_sections_defined(s, t, 3, es@, et@, s_map@, t_map@);
        }
        match TextStats::from_counts(&es, &eb, &et) {
            Ok(stats) => {
                proof {
                    lemma_holds_sections(
                        stats.ngrams(),
                        s,
                        b,
                        t,
                        es@,
                        eb@,
                        et@,
                        s_map@,
                        b_map@,
                        t_map@,
                    );
                }
                Ok(stats)
            },
            Err(e) => Err(e),
        }
    }
}

/// The n-grams of a list with their counts.
pub open spec fn counted(list: Seq<NGram>) -> Seq<Counted> {
    list.map_values(|e: NGram| (e.0, e.1))
}

/// Whether two corpora have the same n-grams with the same counts.
pub open spec fn same_counts(
    a: Map<Seq<char>, (usize, usize)>,
    b: Map<Seq<char>, (usize, usize)>,
) -> bool {
    &&& forall|g: Seq<char>| a.contains_key(g) <==> b.contains_key(g)
    &&& forall|g: Seq<char>| #[trigger] a.contains_key(g) ==> a[g].0 == b[g].0
}

/// The characters of a key as a string.
fn key_string(chars: &Vec<char>) -> (s: String)
    ensures
        s@ == chars@,
{
    string_from_chars(chars)
}

impl TextStats {
    /// Writes the corpus as its three sections: every n-gram with its
    /// count, most frequent first.  Tokens are not written.
    pub fn to_maps(&self) -> (maps: TextMaps)
        ensures
            section_view(maps.symbols@) == counted(self.symbol_list()),
            section_view(maps.bigrams@) == counted(self.bigram_list()),
            section_view(maps.trigrams@) == counted(self.trigram_list()),
    {
        let symbol_list = self.iter_symbols();
        let bigram_list = self.iter_bigrams();
        let trigram_list = self.iter_trigrams();
        let mut symbols: Vec<(String, usize)> = Vec::new();
        let mut i: usize = 0;
        while i < symbol_list.len()
            invariant
                i <= symbol_list@.len(),
                symbols@.len() == i,
                forall|j: int|
                    0 <= j < i ==> (#[trigger] symbols@[j]).0@ == symbol_list@[j].0@ && symbols@[j].1
                        == symbol_list@[j].1,
            decreases symbol_list@.len() - i,
        {
            let g = symbol_list[i].0;
            let mut chars: Vec<char> = Vec::new();
            chars.push(g[0]);
            assert(chars@ =~= g@);
            symbols.push((key_string(&chars), symbol_list[i].1));
            i += 1;
        }
        let mut bigrams: Vec<(String, usize)> = Vec::new();
        let mut i: usize = 0;
        while i < bigram_list.len()
            invariant
                i <= bigram_list@.len(),
                bigrams@.len() == i,
                forall|j: int|
                    0 <= j < i ==> (#[trigger] bigrams@[j]).0@ == bigram_list@[j].0@ && bigrams@[j].1
                        == bigram_list@[j].1,
            decreases bigram_list@.len() - i,
        {
            let g = bigram_list[i].0;
            let mut chars: Vec<char> = Vec::new();
            chars.push(g[0]);
            chars.push(g[1]);
            assert(chars@ =~= g@);
            bigrams.push((key_string(&chars), bigram_list[i].1));
            i += 1;
        }
        let mut trigrams: Vec<(String, usize)> = Vec::new();
        let mut i: usize = 0;
        while i < trigram_list.len()
            invariant
                i <= trigram_list@.len(),
                trigrams@.len() == i,
                forall|j: int|
                    0 <= j < i ==> (#[trigger] trigrams@[j]).0@ == trigram_list@[j].0@
                        && trigrams@[j].1 == trigram_list@[j].1,
            decreases trigram_list@.len() - i,
        {
            let g = trigram_list[i].0;
            let mut chars: Vec<char> = Vec::new();
            chars.push(g[0]);
            chars.push(g[1]);
            chars.push(g[2]);
            assert(chars@ =~= g@);
            trigrams.push((key_string(&chars), trigram_list[i].1));
            i += 1;
        }
        proof {
            assert(section_view(symbols@) =~= counted(symbol_views(symbol_list@)));
            assert(section_view(bigrams@) =~= counted(bigram_views(bigram_list@)));
            assert(section_view(trigrams@) =~= counted(trigram_views(trigram_list@)));
        }
        TextMaps { symbols, bigrams, trigrams }
    }
}

/// The counts of a list add up as those of its section.
proof fn lemma_counted_total(list: Seq<NGram>)
    ensures
        section_total(counted(list)) == list_total(list),
    decreases list.len(),
{
    if list.len() > 0 {
        lemma_counted_total(list.drop_last());
        assert(counted(list).drop_last() =~= counted(list.drop_last()));
    }
}

/// The sections of a corpus can be read: no n-gram stands twice in them.
pub proof fn lemma_written_keys_differ(stats: TextStats)
    requires
        stats.wf(),
    ensures
        keys_differ(counted(stats.symbol_list())),
        keys_differ(counted(stats.bigram_list())),
        keys_differ(counted(stats.trigram_list())),
{
}

/// A corpus that is written and read again has every n-gram that it
/// had, and no other, each with the count that it had.
pub proof fn lemma_round_trip(stats: TextStats, back: Result<TextStats, CorpusFormatError>)
    requires
        stats.wf(),
        reads_as(
            counted(stats.symbol_list()),
            counted(stats.bigram_list()),
            counted(stats.trigram_list()),
            back,
        ),
    ensures
        back is Ok,
        same_counts(stats.ngrams(), back->Ok_0.ngrams()),
{
    let s = counted(stats.symbol_list());
    let b = counted(stats.bigram_list());
    let t = counted(stats.trigram_list());
    lemma_written_is_corpus(stats);
    lemma_read_has_counts(stats, back->Ok_0.ngrams());
}

/// The sections of a corpus are a corpus.
proof fn lemma_written_is_corpus(stats: TextStats)
    requires
        stats.wf(),
    ensures
        format_error(
            counted(stats.symbol_list()),
            counted(stats.bigram_list()),
            counted(stats.trigram_list()),
        ) is None,
{
    let m = stats.ngrams();
    let s = counted(stats.symbol_list());
    let b = counted(stats.bigram_list());
    let t = counted(stats.trigram_list());
    lemma_counted_total(stats.symbol_list());
    lemma_counted_total(stats.bigram_list());
    lemma_counted_total(stats.trigram_list());
    lemma_written_defined(stats, 2);
    lemma_written_defined(stats, 3);
    assert(is_ranked_list(stats.symbol_list(), m, 1));
    assert(is_ranked_list(stats.bigram_list(), m, 2));
    assert(is_ranked_list(stats.trigram_list(), m, 3));
    assert(keys_have_len(s, 1));
    assert(keys_have_len(b, 2));
    assert(keys_have_len(t, 3));
    assert(ranked(stats, 2) == stats.bigram_list() && ranked(stats, 3) == stats.trigram_list());
    assert(section_defined(s, b));
    assert(section_defined(s, t));
    assert(s.len() + 1 == stats.base());
    assert(sections_fit(s, b, t));
}

/// What holds the sections of a corpus has the n-grams of the corpus,
/// each with its count.
proof fn lemma_read_has_counts(stats: TextStats, after: Map<Seq<char>, (usize, usize)>)
    requires
        stats.wf(),
        holds_sections(
            after,
            counted(stats.symbol_list()),
            counted(stats.bigram_list()),
            counted(stats.trigram_list()),
        ),
    ensures
        same_counts(stats.ngrams(), after),
{
    let m = stats.ngrams();
    let s = counted(stats.symbol_list());
    let b = counted(stats.bigram_list());
    let t = counted(stats.trigram_list());
    assert forall|g: Seq<char>| m.contains_key(g) <==> after.contains_key(g) by {
        lemma_written_has(stats, g);
    }
    assert forall|g: Seq<char>| #[trigger] m.contains_key(g) implies m[g].0 == after[g].0 by {
        lemma_written_has(stats, g);
        let n = g.len() as int;
        let list = ranked(stats, n);
        assert(is_ranked_list(list, m, n));
        assert(is_listed(list, g));
        let i = choose|i: int| 0 <= i < list.len() && (#[trigger] list[i]).0 == g;
        assert(section_for(s, b, t, n)[i] == (list[i].0, list[i].1));
        assert(after[section_for(s, b, t, n)[i].0].0 == section_for(s, b, t, n)[i].1);
    }
}

/// The ranked list of the n-grams of `n` characters.
pub open spec fn ranked(stats: TextStats, n: int) -> Seq<NGram> {
    if n == 1 {
        stats.symbol_list()
    } else if n == 2 {
        stats.bigram_list()
    } else {
        stats.trigram_list()
    }
}

/// A section of a corpus has the n-grams of the corpus of its length.
proof fn lemma_written_has(stats: TextStats, g: Seq<char>)
    requires
        stats.wf(),
    ensures
        stats.ngrams().contains_key(g) <==> 1 <= g.len() <= 3 && section_has(
            section_for(
                counted(stats.symbol_list()),
                counted(stats.bigram_list()),
                counted(stats.trigram_list()),
                g.len() as int,
            ),
            g,
        ),
{
    let m = stats.ngrams();
    if 1 <= g.len() <= 3 {
        let n = g.len() as int;
        let list = ranked(stats, n);
        let section = counted(list);
        assert(is_ranked_list(list, m, n));
        if m.contains_key(g) {
            assert(is_listed(list, g));
            let i = choose|i: int| 0 <= i < list.len() && (#[trigger] list[i]).0 == g;
            assert(section[i].0 == g);
        }
        if section_has(section, g) {
            let i = choose|i: int| 0 <= i < section.len() && (#[trigger] section[i]).0 == g;
            assert(list[i].0 == g);
        }
    }
}

/// Every character of a written bigram or trigram is a written symbol.
proof fn lemma_written_defined(stats: TextStats, n: int)
    requires
        stats.wf(),
        2 <= n <= 3,
    ensures
        section_defined(counted(stats.symbol_list()), counted(ranked(stats, n))),
{
    let m = stats.ngrams();
    let s = counted(stats.symbol_list());
    let list = ranked(stats, n);
    let x = counted(list);
    assert(is_ranked_list(list, m, n));
    assert forall|i: int, j: int|
        #![trigger x[i].0[j]]
        0 <= i < x.len() && 0 <= j < x[i].0.len() implies section_has(s, sym(x[i].0[j])) by {
        let g = list[i].0;
        assert(m.contains_key(g));
        assert(m.contains_key(sym(g[j])));
        lemma_written_has(stats, sym(g[j]));
    }
}

} // verus!
