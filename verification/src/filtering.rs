//! Restricting a corpus to the symbols that a predicate accepts.

use vstd::prelude::*;
use crate::ngram::{pack, unpack, valid_key, lemma_unpack_pack};
use crate::table::{Entry, keys_increase, has_key, lists_map};
use crate::sums::{map_sum, lemma_list_sum};
use crate::packed::{Tables, keys_valid, place, defined_in, lemma_places};
use crate::selection::{kept, has_count, defined_keys, lemma_kept};
use crate::corpus_model::sym;
use crate::tokens::lemma_cube_monotonic;
use crate::text_stats::{symbols_defined, counts_fit, holds_counts, entries_for};

verus! {

/// Whether every character of `g` is a symbol of `m`.
pub open spec fn all_symbols_in(m: Map<Seq<char>, (usize, usize)>, g: Seq<char>) -> bool {
    forall|i: int| 0 <= i < g.len() ==> m.contains_key(sym(#[trigger] g[i]))
}

/// Whether `after` is what is left of the n-grams `before` when `f` is
/// asked of every symbol whether it stays: a symbol stays only if `f`
/// says yes and goes only if `f` says no; a bigram or trigram stays
/// exactly if each of its symbols does; and what stays keeps its count.
pub open spec fn is_filtered<F: Fn(char) -> bool>(
    before: Map<Seq<char>, (usize, usize)>,
    after: Map<Seq<char>, (usize, usize)>,
    f: F,
) -> bool {
    &&& forall|c: char| #[trigger]
        after.contains_key(sym(c)) ==> before.contains_key(sym(c)) && f.ensures((c,), true)
    &&& forall|c: char|
        #![trigger before.contains_key(sym(c))]
        before.contains_key(sym(c)) && !after.contains_key(sym(c)) ==> f.ensures((c,), false)
    &&& forall|g: Seq<char>| #[trigger]
        after.contains_key(g) <==> before.contains_key(g) && all_symbols_in(after, g)
    &&& forall|g: Seq<char>| #[trigger] after.contains_key(g) ==> after[g].0 == before[g].0
}

/// The lists that were read from the maps of a corpus, and what was
/// kept of them.
pub struct Selection {
    pub es0: Seq<Entry>,
    pub eb0: Seq<Entry>,
    pub et0: Seq<Entry>,
    pub es: Seq<Entry>,
    pub eb: Seq<Entry>,
    pub et: Seq<Entry>,
    pub symbols: Set<u64>,
    pub symbol_map: Map<u64, (usize, usize)>,
}

impl Selection {
    /// The list that was read from the map of the n-grams of `n` characters.
    pub open spec fn read(self, n: int) -> Seq<Entry> {
        entries_for(self.es0, self.eb0, self.et0, n)
    }

    /// What was kept of that list.
    pub open spec fn chosen(self, n: int) -> Seq<Entry> {
        entries_for(self.es, self.eb, self.et, n)
    }

    /// Whether the lists were read from `tables`, and kept as filtering does.
    pub open spec fn wf(self, tables: Tables) -> bool {
        &&& tables.s.dom().finite() && tables.b.dom().finite() && tables.t.dom().finite()
        &&& forall|n: int, key: u64|
            #![trigger tables.of(n).contains_key(key)]
            1 <= n <= 3 && tables.of(n).contains_key(key) ==> valid_key(key as int, n)
        &&& forall|n: int|
            1 <= n <= 3 ==> lists_map(#[trigger] self.read(n), tables.of(n)) && keys_increase(
                self.read(n),
            )
        &&& self.es == kept(self.es0, self.symbols)
        &&& self.eb == kept(self.eb0, defined_keys(self.symbol_map, 2))
        &&& self.et == kept(self.et0, defined_keys(self.symbol_map, 3))
        &&& forall|key: u64| self.symbol_map.contains_key(key) <==> self.symbols.contains(key)
        &&& forall|key: u64| self.symbols.contains(key) ==> has_key(self.es0, key)
    }
}

/// What was kept can be built into a corpus again.
pub proof fn lemma_selection_fits(tables: Tables, sel: Selection)
    requires
        sel.wf(tables),
        (tables.s.dom().len() + 1) * (tables.s.dom().len() + 1) * (tables.s.dom().len() + 1)
            <= usize::MAX,
        map_sum(tables.s) <= usize::MAX,
        map_sum(tables.b) <= usize::MAX,
        map_sum(tables.t) <= usize::MAX,
    ensures
        keys_increase(sel.es),
        keys_increase(sel.eb),
        keys_increase(sel.et),
        keys_valid(sel.es, 1),
        keys_valid(sel.eb, 2),
        keys_valid(sel.et, 3),
        symbols_defined(sel.es, sel.eb, 2),
        symbols_defined(sel.es, sel.et, 3),
        counts_fit(sel.es, sel.eb, sel.et),
{
    assert(sel.read(1) == sel.es0 && sel.read(2) == sel.eb0 && sel.read(3) == sel.et0);
    lemma_kept(sel.es0, sel.symbols);
    lemma_kept(sel.eb0, defined_keys(sel.symbol_map, 2));
    lemma_kept(sel.et0, defined_keys(sel.symbol_map, 3));
    lemma_list_sum(sel.es0, tables.s);
    lemma_list_sum(sel.eb0, tables.b);
    lemma_list_sum(sel.et0, tables.t);
    lemma_cube_monotonic((sel.es.len() + 1) as int, (tables.s.dom().len() + 1) as int);
    lemma_selection_valid(tables, sel, 1);
    lemma_selection_valid(tables, sel, 2);
    lemma_selection_valid(tables, sel, 3);
    lemma_selection_defined(tables, sel, 2);
    lemma_selection_defined(tables, sel, 3);
}

proof fn lemma_selection_valid(tables: Tables, sel: Selection, n: int)
    requires
        sel.wf(tables),
        1 <= n <= 3,
    ensures
        keys_valid(sel.chosen(n), n),
{
    let chosen = sel.chosen(n);
    let read = sel.read(n);
    let keep = if n == 1 { sel.symbols } else { defined_keys(sel.symbol_map, n) };
    assert(lists_map(read, tables.of(n)));
    lemma_kept(read, keep);
    assert(chosen == kept(read, keep));
    assert forall|j: int| 0 <= j < chosen.len() implies valid_key(
        (#[trigger] chosen[j]).0 as int,
        n,
    ) by {
        assert(has_count(read, chosen[j].0, chosen[j].1));
        let i = choose|i: int|
            0 <= i < read.len() && (#[trigger] read[i]).0 == chosen[j].0 && read[i].1
                == chosen[j].1;
        assert(tables.of(n).contains_key(read[i].0));
    }
}

proof fn lemma_selection_defined(tables: Tables, sel: Selection, n: int)
    requires
        sel.wf(tables),
        2 <= n <= 3,
    ensures
        symbols_defined(sel.es, sel.chosen(n), n),
{
    let chosen = sel.chosen(n);
    let read = sel.read(n);
    let keep = defined_keys(sel.symbol_map, n);
    assert(keys_increase(read));
    assert(sel.read(1) == sel.es0);
    assert(keys_increase(sel.read(1)));
    lemma_kept(read, keep);
    lemma_kept(sel.es0, sel.symbols);
    assert forall|j: int, p: int| 0 <= j < chosen.len() && 0 <= p < n implies has_key(
        sel.es,
        #[trigger] place(chosen[j].0 as int, n, p) as u64,
    ) by {
        let key = chosen[j].0;
        assert(has_key(chosen, key));
        assert(keep.contains(key));
        assert(defined_in(sel.symbol_map, key as int, n));
        let symbol = place(key as int, n, p) as u64;
        assert(sel.symbol_map.contains_key(symbol));
        assert(sel.symbols.contains(symbol));
        assert(has_key(sel.es0, symbol));
    }
}

/// The corpus built from what was kept is the corpus filtered.
pub proof fn lemma_selection_filters<F: Fn(char) -> bool>(
    tables: Tables,
    sel: Selection,
    after: Map<Seq<char>, (usize, usize)>,
    f: F,
)
    requires
        sel.wf(tables),
        holds_counts(after, sel.es, sel.eb, sel.et),
        forall|i: int|
            0 <= i < sel.es0.len() ==> f.ensures(
                (unpack((#[trigger] sel.es0[i]).0 as int, 1)[0],),
                sel.symbols.contains(sel.es0[i].0),
            ),
    ensures
        is_filtered(tables.ngrams(), after, f),
{
    let before = tables.ngrams();
    assert(sel.read(1) == sel.es0);
    assert(lists_map(sel.read(1), tables.of(1)) && keys_increase(sel.read(1)));
    lemma_kept(sel.es0, sel.symbols);
    assert forall|c: char| #[trigger] after.contains_key(sym(c)) implies before.contains_key(
        sym(c),
    ) && f.ensures((c,), true) by {
        lemma_symbol_kept(tables, sel, after, c);
        lemma_unpack_pack(sym(c));
        let key = pack(sym(c)) as u64;
        let i = choose|i: int| 0 <= i < sel.es0.len() && (#[trigger] sel.es0[i]).0 == key;
        assert(unpack(sel.es0[i].0 as int, 1) == sym(c));
    }
    assert forall|c: char|
        #![trigger before.contains_key(sym(c))]
        before.contains_key(sym(c)) && !after.contains_key(sym(c)) implies f.ensures(
        (c,),
        false,
    ) by {
        lemma_symbol_kept(tables, sel, after, c);
        lemma_unpack_pack(sym(c));
        let key = pack(sym(c)) as u64;
        assert(tables.of(1).contains_key(key));
        assert(has_key(sel.es0, key));
        let i = choose|i: int| 0 <= i < sel.es0.len() && (#[trigger] sel.es0[i]).0 == key;
        assert(unpack(sel.es0[i].0 as int, 1) == sym(c));
    }
    assert forall|g: Seq<char>| #[trigger]
        after.contains_key(g) <==> before.contains_key(g) && all_symbols_in(after, g) by {
        if g.len() == 1 {
            assert(g =~= sym(g[0]));
            lemma_symbol_kept(tables, sel, after, g[0]);
            if after.contains_key(g) {
                assert forall|i: int| 0 <= i < g.len() implies after.contains_key(
                    sym(#[trigger] g[i]),
                ) by {}
            }
            if all_symbols_in(after, g) {
                assert(after.contains_key(sym(g[0])));
            }
        } else if 2 <= g.len() <= 3 {
            let n = g.len() as int;
            let key = pack(g) as u64;
            let read = sel.read(n);
            let chosen = sel.chosen(n);
            let keep = defined_keys(sel.symbol_map, n);
            lemma_unpack_pack(g);
            lemma_places(g);
            assert(lists_map(read, tables.of(n)) && keys_increase(read));
            lemma_kept(read, keep);
            assert(chosen == kept(read, keep));
            assert(after.contains_key(g) <==> has_key(chosen, key));
            assert(has_key(chosen, key) <==> has_key(read, key) && keep.contains(key));
            if has_key(read, key) {
                let i = choose|i: int| 0 <= i < read.len() && (#[trigger] read[i]).0 == key;
                assert(tables.of(n).contains_key(read[i].0));
            }
            assert(before.contains_key(g) <==> has_key(read, key));
            if keep.contains(key) {
                assert(defined_in(sel.symbol_map, key as int, n));
                assert forall|i: int| 0 <= i < g.len() implies after.contains_key(
                    sym(#[trigger] g[i]),
                ) by {
                    assert(sel.symbol_map.contains_key(place(key as int, n, i) as u64));
                    lemma_symbol_kept(tables, sel, after, g[i]);
                }
            }
            if all_symbols_in(after, g) {
                assert forall|i: int| 0 <= i < n implies sel.symbol_map.contains_key(
                    #[trigger] place(key as int, n, i) as u64,
                ) by {
                    assert(after.contains_key(sym(g[i])));
                    lemma_symbol_kept(tables, sel, after, g[i]);
                }
                assert(defined_in(sel.symbol_map, key as int, n));
            }
        }
    }
    assert forall|g: Seq<char>| #[trigger] after.contains_key(g) implies after[g].0
        == before[g].0 by {
        let n = g.len() as int;
        let key = pack(g) as u64;
        let read = sel.read(n);
        let chosen = sel.chosen(n);
        let keep = if n == 1 { sel.symbols } else { defined_keys(sel.symbol_map, n) };
        lemma_unpack_pack(g);
        assert(lists_map(read, tables.of(n)) && keys_increase(read));
        lemma_kept(read, keep);
        assert(chosen == kept(read, keep));
        assert(has_key(chosen, key));
        let j = choose|j: int| 0 <= j < chosen.len() && (#[trigger] chosen[j]).0 == key;
        assert(after[unpack(entries_for(sel.es, sel.eb, sel.et, n)[j].0 as int, n)].0
            == entries_for(sel.es, sel.eb, sel.et, n)[j].1);
        assert(has_count(read, chosen[j].0, chosen[j].1));
        let i = choose|i: int|
            0 <= i < read.len() && (#[trigger] read[i]).0 == chosen[j].0 && read[i].1
                == chosen[j].1;
        assert(tables.of(n).contains_key(read[i].0));
    }
}

/// A symbol is in the filtered corpus exactly if its key was kept.
proof fn lemma_symbol_kept(
    tables: Tables,
    sel: Selection,
    after: Map<Seq<char>, (usize, usize)>,
    c: char,
)
    requires
        sel.wf(tables),
        holds_counts(after, sel.es, sel.eb, sel.et),
    ensures
        pack(sym(c)) == c as int,
        after.contains_key(sym(c)) <==> sel.symbols.contains(pack(sym(c)) as u64),
        after.contains_key(sym(c)) <==> sel.symbol_map.contains_key(pack(sym(c)) as u64),
        sel.symbols.contains(pack(sym(c)) as u64) ==> has_key(sel.es0, pack(sym(c)) as u64)
            && tables.ngrams().contains_key(sym(c)),
{
    lemma_unpack_pack(sym(c));
    let key = pack(sym(c)) as u64;
    assert(sel.read(1) == sel.es0);
    assert(lists_map(sel.read(1), tables.of(1)) && keys_increase(sel.read(1)));
    lemma_kept(sel.es0, sel.symbols);
    assert(after.contains_key(sym(c)) <==> has_key(entries_for(sel.es, sel.eb, sel.et, 1), key));
    if sel.symbols.contains(key) {
        assert(has_key(sel.es0, key));
        let i = choose|i: int| 0 <= i < sel.es0.len() && (#[trigger] sel.es0[i]).0 == key;
        assert(tables.of(1).contains_key(sel.es0[i].0));
    }
}

} // verus!
