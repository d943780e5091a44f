//! Evaluating a layout against a corpus: the use of the keys and the
//! classes of the bigrams and trigrams.  Scores are made of these counts.

use vstd::prelude::*;
use crate::layout::Layout;
use crate::model::KuehlmakModel;
use crate::corpus_model::{NGram, sym, token_at, tokens_ok, list_total, lemma_token_digits};
use crate::tokens::digits;
use crate::usage::{key_of_token, key_holds, NO_KEY};
use crate::tally::key_at;
use crate::text_stats::TextStats;
use crate::usage::{KeyUsage, key_usage, key_heat, heat_sum};
use crate::geometry::{KeyboardType, key_hand, key_finger};
use crate::tally::{Tally, Placement, pairs, pairs_total, tally};

verus! {

/// What the evaluation of a layout counts.
#[derive(Clone, Debug, PartialEq, Eq)]
pub struct LayoutCounts {
    /// The key of every token and the use of every key.
    pub usage: KeyUsage,
    /// How often the left and the right hand press a key.
    pub hand_use: Vec<u128>,
    /// How often each of the eight fingers presses a key.
    pub finger_use: Vec<u128>,
    /// The classes of the bigrams.
    pub bigrams: Tally,
    /// The classes of the trigrams.
    pub trigrams: Tally,
}

/// How often the keys of the hand `hand` among the first `n` keys are
/// pressed.
pub open spec fn hand_heat(heat: Seq<u128>, hand: int, n: int) -> nat
    decreases n,
{
    if n <= 0 {
        0
    } else {
        hand_heat(heat, hand, n - 1) + if key_hand(n - 1) == hand { heat[n - 1] as nat } else { 0 }
    }
}

/// How often the keys of the finger `finger` among the first `n` keys
/// are pressed.
pub open spec fn finger_heat(board: KeyboardType, heat: Seq<u128>, finger: int, n: int) -> nat
    decreases n,
{
    if n <= 0 {
        0
    } else {
        finger_heat(board, heat, finger, n - 1) + if key_finger(board, n - 1) == finger {
            heat[n - 1] as nat
        } else {
            0
        }
    }
}

/// The sum of the use of the first `n` keys.
pub open spec fn heat_total(heat: Seq<u128>, n: int) -> nat
    decreases n,
{
    if n <= 0 {
        0
    } else {
        heat_total(heat, n - 1) + heat[n - 1] as nat
    }
}

proof fn lemma_hand_heat_bound(heat: Seq<u128>, hand: int, n: int)
    ensures
        hand_heat(heat, hand, n) <= heat_total(heat, n),
    decreases n,
{
    if n > 0 {
        lemma_hand_heat_bound(heat, hand, n - 1);
    }
}

proof fn lemma_finger_heat_bound(board: KeyboardType, heat: Seq<u128>, finger: int, n: int)
    ensures
        finger_heat(board, heat, finger, n) <= heat_total(heat, n),
    decreases n,
{
    if n > 0 {
        lemma_finger_heat_bound(board, heat, finger, n - 1);
    }
}

proof fn lemma_heat_total(layout: Layout, m: Map<Seq<char>, (usize, usize)>, heat: Seq<u128>, n: int)
    requires
        0 <= n <= 30,
        heat.len() == 30,
        forall|k: int| 0 <= k < 30 ==> #[trigger] heat[k] == key_heat(layout, m, k),
    ensures
        heat_total(heat, n) == heat_sum(layout, m, n),
    decreases n,
{
    if n > 0 {
        lemma_heat_total(layout, m, heat, n - 1);
    }
}

proof fn lemma_heat_total_monotonic(heat: Seq<u128>, n: int, m: int)
    requires
        n <= m,
    ensures
        heat_total(heat, n) <= heat_total(heat, m),
    decreases m - n,
{
    if n < m {
        lemma_heat_total_monotonic(heat, n, m - 1);
    }
}

/// Adds up the use of the keys for each hand and for each finger.
fn use_of_hands_and_fingers(model: &KuehlmakModel, heat: &Vec<u128>) -> (r: (
    Vec<u128>,
    Vec<u128>,
))
    requires
        model.wf(),
        heat@.len() == 30,
        heat_total(heat@, 30) <= u128::MAX,
    ensures
        r.0@.len() == 2,
        forall|h: int| 0 <= h < 2 ==> #[trigger] r.0@[h] == hand_heat(heat@, h, 30),
        r.1@.len() == 8,
        forall|f: int|
            0 <= f < 8 ==> #[trigger] r.1@[f] == finger_heat(model.board(), heat@, f, 30),
{
    let mut hands: Vec<u128> = Vec::new();
    hands.resize(2, 0);
    let mut fingers: Vec<u128> = Vec::new();
    fingers.resize(8, 0);
    let mut k: usize = 0;
    while k < 30
        invariant
            k <= 30,
            model.wf(),
            heat@.len() == 30,
            heat_total(heat@, 30) <= u128::MAX,
            hands@.len() == 2,
            fingers@.len() == 8,
            forall|h: int| 0 <= h < 2 ==> #[trigger] hands@[h] == hand_heat(heat@, h, k as int),
            forall|f: int|
                0 <= f < 8 ==> #[trigger] fingers@[f] == finger_heat(
                    model.board(),
                    heat@,
                    f,
                    k as int,
                ),
        decreases 30 - k,
    {
        let props = model.key_props(k);
        let hand = props.hand as usize;
        let finger = props.finger as usize;
        proof {
            lemma_hand_heat_bound(heat@, hand as int, k + 1);
            lemma_finger_heat_bound(model.board(), heat@, finger as int, k + 1);
            lemma_heat_total_monotonic(heat@, k + 1, 30);
        }
        let sum = hands[hand] + heat[k];
        hands.set(hand, sum);
        let sum = fingers[finger] + heat[k];
        fingers.set(finger, sum);
        k += 1;
    }
    (hands, fingers)
}

/// The counts of a list of n-grams add up as those of its pairs.
pub proof fn lemma_pairs_of_list(list: Seq<NGram>)
    ensures
        pairs_total(pairs(list)) == list_total(list),
    decreases list.len(),
{
    if list.len() > 0 {
        lemma_pairs_of_list(list.drop_last());
        assert(pairs(list).drop_last() =~= pairs(list.drop_last()));
    }
}

impl LayoutCounts {
    /// Whether these are the counts of `layout` on the board of `model`
    /// against the corpus `ts`.
    pub open spec fn is_evaluation_of(
        &self,
        model: &KuehlmakModel,
        layout: Layout,
        ts: &TextStats,
        bigram_percentile: int,
        trigram_percentile: int,
        with_details: bool,
    ) -> bool {
        let p = Placement {
            board: model.board(),
            keymap: self.usage.token_keymap@,
            base: ts.base(),
        };
        &&& self.usage.is_usage_of(layout, ts.ngrams(), ts.base())
        &&& self.hand_use@.len() == 2
        &&& forall|h: int|
            0 <= h < 2 ==> #[trigger] self.hand_use@[h] == hand_heat(self.usage.heatmap@, h, 30)
        &&& self.finger_use@.len() == 8
        &&& forall|f: int|
            0 <= f < 8 ==> #[trigger] self.finger_use@[f] == finger_heat(
                model.board(),
                self.usage.heatmap@,
                f,
                30,
            )
        &&& self.bigrams.is_tally_of(
            p,
            2,
            pairs(ts.bigram_list()),
            ts.bigram_total() as int,
            bigram_percentile,
            with_details,
        )
        &&& self.trigrams.is_tally_of(
            p,
            3,
            pairs(ts.trigram_list()),
            ts.trigram_total() as int,
            trigram_percentile,
            with_details,
        )
    }
}

impl KuehlmakModel {
    /// Evaluates a layout against a corpus.  The bigrams are looked at,
    /// most frequent first, until those looked at count more than
    /// `bigram_percentile`, and likewise the trigrams; `with_details`
    /// asks for the class of every n-gram.  Every layout can be
    /// evaluated against every corpus: a corpus without bigrams or
    /// without trigrams is evaluated like any other, the sums of their
    /// classes being zero; and the use of the keys is added up in 128
    /// bits, which hold sixty counts of any size.
    pub fn eval_layout(
        &self,
        layout: &Layout,
        ts: &TextStats,
        bigram_percentile: u64,
        trigram_percentile: u64,
        with_details: bool,
    ) -> (counts: LayoutCounts)
        requires
            self.wf(),
            ts.wf(),
        ensures
            counts.is_evaluation_of(
                self,
                *layout,
                ts,
                bigram_percentile as int,
                trigram_percentile as int,
                with_details,
            ),
    {
        let usage = key_usage(layout, ts);
        proof {
            lemma_heat_total(*layout, ts.ngrams(), usage.heatmap@, 30);
        }
        let (hand_use, finger_use) = use_of_hands_and_fingers(self, &usage.heatmap);
        let base = ts.token_base();
        let bigram_list = ts.iter_bigrams();
        let trigram_list = ts.iter_trigrams();
        proof {
            let m = ts.ngrams();
            lemma_pairs_of_list(ts.bigram_list());
            lemma_pairs_of_list(ts.trigram_list());
            assert(pairs(bigram_list@) =~= pairs(ts.bigram_list()));
            assert(pairs(trigram_list@) =~= pairs(ts.trigram_list()));
            assert forall|i: int| 0 <= i < bigram_list@.len() implies (
            #[trigger] bigram_list@[i]).2 as int / (base as int) / (base as int) < base by {
                let e = ts.bigram_list()[i];
                assert(m.contains_key(e.0) && m[e.0] == (e.1, e.2));
                lemma_token_digits(m, ts.base(), e.0);
            }
            assert forall|i: int| 0 <= i < trigram_list@.len() implies (
            #[trigger] trigram_list@[i]).2 as int / (base as int) / (base as int) < base by {
                let e = ts.trigram_list()[i];
                assert(m.contains_key(e.0) && m[e.0] == (e.1, e.2));
                lemma_token_digits(m, ts.base(), e.0);
            }
        }
        let bigrams = tally(
            self,
            bigram_list,
            2,
            &usage.token_keymap,
            base,
            ts.total_bigrams(),
            bigram_percentile,
            with_details,
        );
        let trigrams = tally(
            self,
            trigram_list,
            3,
            &usage.token_keymap,
            base,
            ts.total_trigrams(),
            trigram_percentile,
            with_details,
        );
        LayoutCounts { usage, hand_use, finger_use, bigrams, trigrams }
    }
}

/// Whether two tallies hold the same.
pub open spec fn tallies_agree(a: Tally, b: Tally) -> bool {
    &&& a.counts@ == b.counts@
    &&& a.observed == b.observed
    &&& a.same_hand@ == b.same_hand@
    &&& a.moves@ == b.moves@
    &&& match (a.details, b.details) {
        (Some(x), Some(y)) => x@ == y@,
        (None, None) => true,
        _ => false,
    }
}

/// Whether two evaluations count the same.
pub open spec fn counts_agree(a: LayoutCounts, b: LayoutCounts) -> bool {
    &&& a.usage.token_keymap@ == b.usage.token_keymap@
    &&& a.usage.heatmap@ == b.usage.heatmap@
    &&& a.usage.strokes == b.usage.strokes
    &&& a.hand_use@ == b.hand_use@
    &&& a.finger_use@ == b.finger_use@
    &&& tallies_agree(a.bigrams, b.bigrams)
    &&& tallies_agree(a.trigrams, b.trigrams)
}

/// The evaluation of a layout depends on nothing but the model, the
/// layout, the corpus and how much of the corpus is to be looked at:
/// whenever it is evaluated, it counts the same.
pub proof fn lemma_evaluation_is_unique(
    a: LayoutCounts,
    b: LayoutCounts,
    model: &KuehlmakModel,
    layout: Layout,
    ts: &TextStats,
    bigram_percentile: int,
    trigram_percentile: int,
    with_details: bool,
)
    requires
        a.is_evaluation_of(model, layout, ts, bigram_percentile, trigram_percentile, with_details),
        b.is_evaluation_of(model, layout, ts, bigram_percentile, trigram_percentile, with_details),
    ensures
        counts_agree(a, b),
{
    assert(a.usage.token_keymap@ =~= b.usage.token_keymap@);
    assert(a.usage.heatmap@ =~= b.usage.heatmap@);
    assert(a.hand_use@ =~= b.hand_use@);
    assert(a.finger_use@ =~= b.finger_use@);
    assert(a.bigrams.counts@ =~= b.bigrams.counts@);
    assert(a.bigrams.same_hand@ =~= b.bigrams.same_hand@);
    assert(a.trigrams.counts@ =~= b.trigrams.counts@);
    assert(a.trigrams.same_hand@ =~= b.trigrams.same_hand@);
}

/// The last of the first `n` keys that holds the symbol `c` on one of
/// its two levels, or `NO_KEY`.
pub open spec fn key_of_symbol(layout: Layout, c: char, n: int) -> int
    decreases n,
{
    if n <= 0 {
        NO_KEY as int
    } else if layout[n - 1][0] == c || layout[n - 1][1] == c {
        n - 1
    } else {
        key_of_symbol(layout, c, n - 1)
    }
}

/// The key of the token of a symbol is the key of the symbol.
proof fn lemma_key_of_symbol_token(
    layout: Layout,
    m: Map<Seq<char>, (usize, usize)>,
    base: int,
    c: char,
    n: int,
)
    requires
        tokens_ok(m, base),
        m.contains_key(sym(c)),
        0 <= n <= 30,
    ensures
        key_of_token(layout, m, m[sym(c)].1 as int, n) == key_of_symbol(layout, c, n),
    decreases n,
{
    if n > 0 {
        lemma_key_of_symbol_token(layout, m, base, c, n - 1);
        let token = m[sym(c)].1 as int;
        assert forall|x: char| m.contains_key(sym(x)) && m[sym(x)].1 == token implies x == c by {
            if (x as int) < (c as int) {
                assert(m[sym(x)].1 < m[sym(c)].1);
            } else if (c as int) < (x as int) {
                assert(m[sym(c)].1 < m[sym(x)].1);
            } else {
                crate::ngram::lemma_char_code(x);
                crate::ngram::lemma_char_code(c);
            }
        }
        assert(key_holds(layout, m, n - 1, token) <==> (layout[n - 1][0] == c || layout[n - 1][1]
            == c));
    }
}

/// The keys by which an n-gram of the corpus is classed are the keys of
/// its symbols: the key that the evaluation finds at place `i` of the
/// token of the n-gram is the last key of the layout that holds the
/// symbol at place `i`.
pub proof fn lemma_keys_of_ngram(
    usage: KeyUsage,
    model: &KuehlmakModel,
    layout: Layout,
    ts: &TextStats,
    g: Seq<char>,
    i: int,
)
    requires
        ts.wf(),
        usage.is_usage_of(layout, ts.ngrams(), ts.base()),
        ts.ngrams().contains_key(g),
        0 <= i < g.len(),
    ensures
        key_at(
            Placement { board: model.board(), keymap: usage.token_keymap@, base: ts.base() },
            ts.ngrams()[g].1 as int,
            i,
        ) == key_of_symbol(layout, g[i], 30),
{
    let m = ts.ngrams();
    lemma_token_digits(m, ts.base(), g);
    let d = digits(m[g].1 as int, ts.base());
    assert(d[i] == token_at(m, g, i));
    assert(m.contains_key(sym(g[i])));
    lemma_key_of_symbol_token(layout, m, ts.base(), g[i], 30);
}

} // verus!
