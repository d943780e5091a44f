//! What a layout makes of the symbols of a corpus: the key of every
//! token, and how often every key is pressed.

use vstd::prelude::*;
use crate::layout::Layout;
use crate::corpus_model::{sym, is_listed, lemma_count_below_total};
use crate::text_stats::TextStats;

verus! {

/// The key of a token that no key of the layout holds.
pub const NO_KEY: u8 = u8::MAX;

/// How often the symbol `c` occurs; zero if the corpus does not have it.
pub open spec fn symbol_count(m: Map<Seq<char>, (usize, usize)>, c: char) -> nat {
    if m.contains_key(sym(c)) {
        m[sym(c)].0 as nat
    } else {
        0
    }
}

/// How often key `k` is pressed: the counts of its two symbols.
pub open spec fn key_heat(layout: Layout, m: Map<Seq<char>, (usize, usize)>, k: int) -> nat {
    symbol_count(m, layout[k][0]) + symbol_count(m, layout[k][1])
}

/// How often the first `n` keys are pressed.
pub open spec fn heat_sum(layout: Layout, m: Map<Seq<char>, (usize, usize)>, n: int) -> nat
    decreases n,
{
    if n <= 0 {
        0
    } else {
        heat_sum(layout, m, n - 1) + key_heat(layout, m, n - 1)
    }
}

/// Whether one of the two symbols of key `k` has the token `token`.
pub open spec fn key_holds(
    layout: Layout,
    m: Map<Seq<char>, (usize, usize)>,
    k: int,
    token: int,
) -> bool {
    ||| (m.contains_key(sym(layout[k][0])) && m[sym(layout[k][0])].1 == token)
    ||| (m.contains_key(sym(layout[k][1])) && m[sym(layout[k][1])].1 == token)
}

/// The last of the first `n` keys that holds the token, or `NO_KEY`.
pub open spec fn key_of_token(
    layout: Layout,
    m: Map<Seq<char>, (usize, usize)>,
    token: int,
    n: int,
) -> int
    decreases n,
{
    if n <= 0 {
        NO_KEY as int
    } else if key_holds(layout, m, n - 1, token) {
        n - 1
    } else {
        key_of_token(layout, m, token, n - 1)
    }
}

/// The keys of the tokens and the use of the keys.
#[derive(Clone, Debug, PartialEq, Eq)]
pub struct KeyUsage {
    /// The key of every token below the base of the corpus.
    pub token_keymap: Vec<u8>,
    /// How often each of the 30 keys is pressed.
    pub heatmap: Vec<u128>,
    /// How often any key is pressed.
    pub strokes: u128,
}

impl KeyUsage {
    /// Whether this is the usage of `layout` with the symbols `m` of a
    /// corpus with the base `base`.
    pub open spec fn is_usage_of(
        &self,
        layout: Layout,
        m: Map<Seq<char>, (usize, usize)>,
        base: int,
    ) -> bool {
        &&& self.token_keymap@.len() == base
        &&& forall|t: int|
            0 <= t < base ==> #[trigger] self.token_keymap@[t] == key_of_token(layout, m, t, 30)
        &&& self.heatmap@.len() == 30
        &&& forall|k: int| 0 <= k < 30 ==> #[trigger] self.heatmap@[k] == key_heat(layout, m, k)
        &&& self.strokes == heat_sum(layout, m, 30)
    }
}

/// No symbol occurs more often than all symbols together.
pub proof fn lemma_symbol_count_bound(ts: &TextStats, c: char)
    requires
        ts.wf(),
    ensures
        symbol_count(ts.ngrams(), c) <= ts.symbol_total(),
{
    let m = ts.ngrams();
    if m.contains_key(sym(c)) {
        assert(is_listed(ts.symbol_list(), sym(c)));
        let i = choose|i: int|
            0 <= i < ts.symbol_list().len() && (#[trigger] ts.symbol_list()[i]).0 == sym(c);
        lemma_count_below_total(ts.symbol_list(), i);
    }
}

proof fn lemma_key_of_token_bound(
    layout: Layout,
    m: Map<Seq<char>, (usize, usize)>,
    token: int,
    n: int,
)
    requires
        0 <= n <= 30,
    ensures
        key_of_token(layout, m, token, n) < n || key_of_token(layout, m, token, n) == NO_KEY,
        0 <= key_of_token(layout, m, token, n),
    decreases n,
{
    if n > 0 {
        lemma_key_of_token_bound(layout, m, token, n - 1);
    }
}

/// Looks up one symbol of a key: notes the key under the token of the
/// symbol and gives the count of the symbol.
fn note_symbol(ts: &TextStats, c: char, k: usize, keymap: &mut Vec<u8>) -> (count: u128)
    requires
        ts.wf(),
        k < 30,
        old(keymap)@.len() == ts.base(),
    ensures
        final(keymap)@.len() == ts.base(),
        count == symbol_count(ts.ngrams(), c),
        ts.ngrams().contains_key(sym(c)) ==> final(keymap)@ == old(keymap)@.update(
            ts.ngrams()[sym(c)].1 as int,
            k as u8,
        ),
        !ts.ngrams().contains_key(sym(c)) ==> final(keymap)@ == old(keymap)@,
{
    let symbol = [c];
    assert(symbol@ =~= sym(c));
    match ts.get_symbol(symbol) {
        Some(entry) => {
            let count = entry.0;
            let token = entry.1;
            keymap.set(token, k as u8);
            count as u128
        },
        None => 0,
    }
}

/// Finds the key of every token and counts how often each key is pressed.
pub fn key_usage(layout: &Layout, ts: &TextStats) -> (usage: KeyUsage)
    requires
        ts.wf(),
    ensures
        usage.is_usage_of(*layout, ts.ngrams(), ts.base()),
{
    let base = ts.token_base();
    let ghost m = ts.ngrams();
    let mut keymap: Vec<u8> = Vec::new();
    keymap.resize(base, NO_KEY);
    let mut heatmap: Vec<u128> = Vec::new();
    let mut strokes: u128 = 0;
    let mut k: usize = 0;
    while k < 30
        invariant
            k <= 30,
            ts.wf(),
            m == ts.ngrams(),
            base == ts.base(),
            keymap@.len() == base,
            forall|t: int|
                0 <= t < base ==> #[trigger] keymap@[t] == key_of_token(*layout, m, t, k as int),
            heatmap@.len() == k,
            forall|i: int| 0 <= i < k ==> #[trigger] heatmap@[i] == key_heat(*layout, m, i),
            strokes == heat_sum(*layout, m, k as int),
            strokes <= 2 * k * ts.symbol_total(),
        decreases 30 - k,
    {
        let ghost before = keymap@;
        proof {
            lemma_symbol_count_bound(ts, layout[k as int][0]);
            lemma_symbol_count_bound(ts, layout[k as int][1]);
            assert(2 * (k + 1) * ts.symbol_total() == 2 * k * ts.symbol_total() + 2
                * ts.symbol_total()) by (nonlinear_arith);
            assert(2 * (k + 1) * ts.symbol_total() <= 60 * ts.symbol_total()) by (nonlinear_arith)
                requires
                    k + 1 <= 30,
            ;
        }
        let lower = note_symbol(ts, layout[k][0], k, &mut keymap);
        let upper = note_symbol(ts, layout[k][1], k, &mut keymap);
        let heat = lower + upper;
        heatmap.push(heat);
        strokes = strokes + heat;
        proof {
            assert forall|t: int| 0 <= t < base implies #[trigger] keymap@[t] == key_of_token(
                *layout,
                m,
                t,
                k + 1,
            ) by {
                lemma_key_of_token_bound(*layout, m, t, k as int);
            }
        }
        k += 1;
    }
    KeyUsage { token_keymap: keymap, heatmap, strokes }
}

} // verus!
