//! The pass over the bigrams or trigrams of a corpus that sorts them
//! into classes by the keys a layout gives to their symbols.
//!
//! The n-grams are looked at in the order of the corpus, most frequent
//! first, until those looked at count more than a given number; the sums
//! of the classes are then scaled up to the whole corpus.

use vstd::prelude::*;
use vstd::arithmetic::div_mod::{lemma_div_is_ordered, lemma_div_by_multiple, lemma_div_pos_is_pos};
use vstd::arithmetic::mul::lemma_mul_inequality;
use crate::geometry::KeyboardType;
use crate::model::{
    KuehlmakModel, bigram_type, trigram_type, BIGRAM_NUM_TYPES, TRIGRAM_NUM_TYPES,
    BIGRAM_ALTERNATE, BIGRAM_SAMEKEY, BIGRAM_SFB, TRIGRAM_D_SAMEKEY, TRIGRAM_SHD_SFB,
};
use crate::tokens::{digits, split_token};

verus! {

/// The count and the token of an n-gram.
pub type Pair = (usize, usize);

/// The board, the key of every token, and the base of the tokens.
pub struct Placement {
    pub board: KeyboardType,
    pub keymap: Seq<u8>,
    pub base: int,
}

/// The counts and tokens of a list of n-grams.
pub open spec fn pairs<T>(list: Seq<(T, usize, usize)>) -> Seq<Pair> {
    list.map_values(|e: (T, usize, usize)| (e.1, e.2))
}

/// The sum of the counts of `ps`.
pub open spec fn pairs_total(ps: Seq<Pair>) -> nat
    decreases ps.len(),
{
    if ps.len() == 0 {
        0
    } else {
        pairs_total(ps.drop_last()) + ps.last().0 as nat
    }
}

/// How many n-grams are looked at: an n-gram is looked at unless those
/// before it count more than `percentile` together.
pub open spec fn looked_at(ps: Seq<Pair>, percentile: int) -> int
    decreases ps.len(),
{
    if ps.len() == 0 {
        0
    } else if pairs_total(ps.drop_last()) > percentile {
        looked_at(ps.drop_last(), percentile)
    } else {
        ps.len() as int
    }
}

/// The key of the symbol at place `i` of the n-gram with the token `token`.
pub open spec fn key_at(p: Placement, token: int, i: int) -> int {
    p.keymap[digits(token, p.base)[i]] as int
}

/// The class of an n-gram of `arity` symbols, or -1 where one of its
/// symbols is on no key.
pub open spec fn class_of(p: Placement, arity: int, token: int) -> int {
    let k0 = key_at(p, token, 0);
    let k1 = key_at(p, token, 1);
    let k2 = key_at(p, token, 2);
    if k0 >= 30 || k1 >= 30 || (arity == 3 && k2 >= 30) {
        -1
    } else if arity == 2 {
        bigram_type(p.board, k0, k1)
    } else {
        trigram_type(p.board, k0, k1, k2)
    }
}

/// Whether the n-grams of a class strike one key, or one finger, twice,
/// so that the finger travels from key to key and not from its home.
pub open spec fn is_same_finger(arity: int, class: int) -> bool {
    if arity == 2 {
        class == BIGRAM_SFB || class == BIGRAM_SAMEKEY
    } else {
        TRIGRAM_D_SAMEKEY <= class <= TRIGRAM_SHD_SFB
    }
}

/// The sum of the counts of the class `class` among the first `n` n-grams.
pub open spec fn class_total(p: Placement, arity: int, ps: Seq<Pair>, class: int, n: int) -> nat
    decreases n,
{
    if n <= 0 {
        0
    } else {
        class_total(p, arity, ps, class, n - 1) + if class_of(p, arity, ps[n - 1].1 as int)
            == class {
            ps[n - 1].0 as nat
        } else {
            0
        }
    }
}

/// Whether a bigram stays on the hand `hand`.
pub open spec fn stays_on_hand(p: Placement, token: int, hand: int) -> bool {
    class_of(p, 2, token) >= 1 && key_at(p, token, 0) % 10 / 5 == hand
}

/// The sum of the counts of the bigrams among the first `n` that stay
/// on the hand `hand`.
pub open spec fn hand_total(p: Placement, ps: Seq<Pair>, hand: int, n: int) -> nat
    decreases n,
{
    if n <= 0 {
        0
    } else {
        hand_total(p, ps, hand, n - 1) + if stays_on_hand(p, ps[n - 1].1 as int, hand) {
            ps[n - 1].0 as nat
        } else {
            0
        }
    }
}

/// The key that a finger comes from and the key it goes to, with the
/// count, for every same-finger n-gram among the first `n`.
pub open spec fn finger_moves(p: Placement, arity: int, ps: Seq<Pair>, n: int) -> Seq<
    (u8, u8, u64),
>
    decreases n,
{
    if n <= 0 {
        Seq::empty()
    } else {
        let token = ps[n - 1].1 as int;
        let before = finger_moves(p, arity, ps, n - 1);
        if is_same_finger(arity, class_of(p, arity, token)) {
            before.push(
                (
                    key_at(p, token, 0) as u8,
                    key_at(p, token, arity - 1) as u8,
                    ps[n - 1].0 as u64,
                ),
            )
        } else {
            before
        }
    }
}

/// The class and the place in the list of every n-gram among the first
/// `n` that has a class other than the class 0.
pub open spec fn classified(p: Placement, arity: int, ps: Seq<Pair>, n: int) -> Seq<(u8, usize)>
    decreases n,
{
    if n <= 0 {
        Seq::empty()
    } else {
        let class = class_of(p, arity, ps[n - 1].1 as int);
        let before = classified(p, arity, ps, n - 1);
        if class >= 1 {
            before.push((class as u8, (n - 1) as usize))
        } else {
            before
        }
    }
}

/// What the pass over a list found.
#[derive(Clone, Debug, PartialEq, Eq)]
pub struct Tally {
    /// The sum of the counts of every class, scaled to the whole corpus.
    pub counts: Vec<u64>,
    /// The sum of the counts of the n-grams looked at.
    pub observed: u64,
    /// The sum of the counts of the bigrams that stay on the left and on
    /// the right hand; not scaled, and zero for trigrams.
    pub same_hand: Vec<u64>,
    /// The moves of fingers from key to key, in the order of the list.
    pub moves: Vec<(u8, u8, u64)>,
    /// The class and the place of every n-gram with a class other than
    /// the class 0, if asked for.
    pub details: Option<Vec<(u8, usize)>>,
}

/// The number of classes of n-grams of `arity` symbols.
pub open spec fn num_classes(arity: int) -> int {
    if arity == 2 {
        BIGRAM_NUM_TYPES as int
    } else {
        TRIGRAM_NUM_TYPES as int
    }
}

impl Tally {
    /// Whether this is what the pass finds for the n-grams `ps` of
    /// `arity` symbols, scaled to the sum `total`.  Where the n-grams
    /// count nothing, none is looked at, and every sum is zero.
    pub open spec fn is_tally_of(
        &self,
        p: Placement,
        arity: int,
        ps: Seq<Pair>,
        total: int,
        percentile: int,
        with_details: bool,
    ) -> bool {
        let n = if total == 0 { 0 } else { looked_at(ps, percentile) };
        &&& self.observed == pairs_total(ps.take(n))
        &&& self.observed == 0 <==> total == 0
        &&& self.counts@.len() == num_classes(arity)
        &&& forall|c: int|
            0 <= c < num_classes(arity) ==> #[trigger] self.counts@[c] == if self.observed == 0 {
                0
            } else {
                class_total(p, arity, ps, c, n) * total / (self.observed as int)
            }
        &&& self.same_hand@.len() == 2
        &&& forall|h: int|
            0 <= h < 2 ==> #[trigger] self.same_hand@[h] == if arity == 2 {
                hand_total(p, ps, h, n)
            } else {
                0
            }
        &&& self.moves@ == finger_moves(p, arity, ps, n)
        &&& match self.details {
            Some(d) => with_details && d@ == classified(p, arity, ps, n),
            None => !with_details,
        }
    }
}

/// The first `n` n-grams count what the first `n - 1` count and the last
/// of them.
pub proof fn lemma_pairs_step(ps: Seq<Pair>, n: int)
    requires
        0 <= n < ps.len(),
    ensures
        pairs_total(ps.take(n + 1)) == pairs_total(ps.take(n)) + ps[n].0,
{
    assert(ps.take(n + 1).drop_last() =~= ps.take(n));
}

/// More n-grams count no less.
pub proof fn lemma_pairs_monotonic(ps: Seq<Pair>, m: int, n: int)
    requires
        0 <= m <= n <= ps.len(),
    ensures
        pairs_total(ps.take(m)) <= pairs_total(ps.take(n)),
    decreases n - m,
{
    if m < n {
        lemma_pairs_step(ps, n - 1);
        lemma_pairs_monotonic(ps, m, n - 1);
    }
}

/// The pass stops at the first n-gram before which the sum is above
/// `percentile`.
proof fn lemma_looked_at(ps: Seq<Pair>, percentile: int, n: int)
    requires
        0 <= n <= ps.len(),
        n < ps.len() ==> pairs_total(ps.take(n)) > percentile,
        n > 0 ==> pairs_total(ps.take(n - 1)) <= percentile,
    ensures
        looked_at(ps, percentile) == n,
    decreases ps.len(),
{
    if ps.len() > 0 {
        assert(ps.drop_last() =~= ps.take(ps.len() - 1));
        if n < ps.len() {
            lemma_pairs_monotonic(ps, n, ps.len() - 1);
            let shorter = ps.drop_last();
            assert(shorter.take(n) =~= ps.take(n));
            if n > 0 {
                assert(shorter.take(n - 1) =~= ps.take(n - 1));
            }
            lemma_looked_at(shorter, percentile, n);
        }
    }
}

/// A class counts no more than all n-grams looked at.
proof fn lemma_class_total_bound(p: Placement, arity: int, ps: Seq<Pair>, class: int, n: int)
    requires
        0 <= n <= ps.len(),
    ensures
        class_total(p, arity, ps, class, n) <= pairs_total(ps.take(n)),
    decreases n,
{
    if n > 0 {
        lemma_class_total_bound(p, arity, ps, class, n - 1);
        lemma_pairs_step(ps, n - 1);
    } else {
        assert(ps.take(0) =~= Seq::<Pair>::empty());
    }
}

/// The bigrams that stay on a hand count no more than all looked at.
proof fn lemma_hand_total_bound(p: Placement, ps: Seq<Pair>, hand: int, n: int)
    requires
        0 <= n <= ps.len(),
    ensures
        hand_total(p, ps, hand, n) <= pairs_total(ps.take(n)),
    decreases n,
{
    if n > 0 {
        lemma_hand_total_bound(p, ps, hand, n - 1);
        lemma_pairs_step(ps, n - 1);
    } else {
        assert(ps.take(0) =~= Seq::<Pair>::empty());
    }
}

/// Scales a sum from the n-grams looked at to the whole corpus.
fn scale(raw: u64, total: usize, observed: u64) -> (scaled: u64)
    requires
        raw <= observed,
        observed > 0,
    ensures
        scaled == raw * total / (observed as int),
{
    proof {
        lemma_mul_inequality(raw as int, observed as int, total as int);
        lemma_div_is_ordered(raw * total, observed * total, observed as int);
        assert(observed * total == total * observed) by (nonlinear_arith);
        lemma_div_by_multiple(total as int, observed as int);
        assert(0 <= raw * total) by (nonlinear_arith)
            requires
                0 <= raw,
                0 <= total,
        ;
        lemma_div_pos_is_pos(raw * total, observed as int);
        assert(raw * total <= 0xffff_ffff_ffff_ffff * 0xffff_ffff_ffff_ffff) by (nonlinear_arith)
            requires
                0 <= raw <= 0xffff_ffff_ffff_ffff,
                0 <= total <= 0xffff_ffff_ffff_ffff,
        ;
    }
    let product: u128 = raw as u128 * total as u128;
    (product / observed as u128) as u64
}

/// The keys of the symbols of an n-gram, or `None` where one of them is
/// on no key.
fn keys_of(keymap: &Vec<u8>, base: usize, arity: usize, token: usize) -> (keys: Option<
    (usize, usize, usize),
>)
    requires
        2 <= arity <= 3,
        base > 0,
        keymap@.len() == base,
        token as int / (base as int) / (base as int) < base,
    ensures
        match keys {
            Some(k) => k.0 < 30 && k.1 < 30 && k.2 < 30 && k.0 == keymap@[digits(
                token as int,
                base as int,
            )[0]] && k.1 == keymap@[digits(token as int, base as int)[1]] && (arity == 3 ==> k.2
                == keymap@[digits(token as int, base as int)[2]]),
            None => keymap@[digits(token as int, base as int)[0]] >= 30 || keymap@[digits(
                token as int,
                base as int,
            )[1]] >= 30 || (arity == 3 && keymap@[digits(token as int, base as int)[2]] >= 30),
        },
{
    let d = split_token(token, base);
    let k0 = keymap[d[0]] as usize;
    let k1 = keymap[d[1]] as usize;
    if k0 >= 30 || k1 >= 30 {
        return None;
    }
    if arity == 3 {
        let k2 = keymap[d[2]] as usize;
        if k2 >= 30 {
            return None;
        }
        Some((k0, k1, k2))
    } else {
        Some((k0, k1, 0))
    }
}

/// Sorts the n-grams of a list into classes.  The n-grams are taken in
/// the order of the list until those taken count more than `percentile`.
pub fn tally<T>(
    model: &KuehlmakModel,
    list: &Vec<(T, usize, usize)>,
    arity: usize,
    keymap: &Vec<u8>,
    base: usize,
    total: usize,
    percentile: u64,
    with_details: bool,
) -> (t: Tally)
    requires
        model.wf(),
        2 <= arity <= 3,
        base > 0,
        keymap@.len() == base,
        forall|i: int|
            0 <= i < list@.len() ==> (#[trigger] list@[i]).2 as int / (base as int) / (base as int)
                < base,
        pairs_total(pairs(list@)) == total,
    ensures
        t.is_tally_of(
            Placement { board: model.board(), keymap: keymap@, base: base as int },
            arity as int,
            pairs(list@),
            total as int,
            percentile as int,
            with_details,
        ),
{
    let ghost p = Placement { board: model.board(), keymap: keymap@, base: base as int };
    let ghost ps = pairs(list@);
    let ghost a = arity as int;
    let classes: usize = if arity == 2 { BIGRAM_NUM_TYPES } else { TRIGRAM_NUM_TYPES };
    let mut raw: Vec<u64> = Vec::new();
    raw.resize(classes, 0);
    let mut same_hand: Vec<u64> = Vec::new();
    same_hand.resize(2, 0);
    let mut moves: Vec<(u8, u8, u64)> = Vec::new();
    let mut details: Vec<(u8, usize)> = Vec::new();
    if total == 0 {
        // nothing was typed: there is nothing to look at and nothing to scale
        proof {
            assert(ps.take(0) =~= Seq::<Pair>::empty());
            assert(moves@ =~= finger_moves(p, a, ps, 0));
            assert(details@ =~= classified(p, a, ps, 0));
        }
        return Tally {
            counts: raw,
            observed: 0,
            same_hand,
            moves,
            details: if with_details { Some(details) } else { None },
        };
    }
    let mut observed: usize = 0;
    let mut i: usize = 0;
    proof {
        assert(ps.take(0) =~= Seq::<Pair>::empty());
        assert(ps.take(ps.len() as int) =~= ps);
    }
    while i < list.len() && observed as u64 <= percentile
        invariant
            total > 0,
            model.wf(),
            2 <= arity <= 3,
            a == arity,
            base > 0,
            keymap@.len() == base,
            p == (Placement { board: model.board(), keymap: keymap@, base: base as int }),
            ps == pairs(list@),
            forall|j: int|
                0 <= j < list@.len() ==> (#[trigger] list@[j]).2 as int / (base as int) / (
                base as int) < base,
            pairs_total(ps) == total,
            classes == num_classes(a),
            i <= list@.len(),
            observed == pairs_total(ps.take(i as int)),
            i > 0 ==> pairs_total(ps.take(i - 1)) <= percentile,
            raw@.len() == classes,
            forall|c: int| 0 <= c < classes ==> #[trigger] raw@[c] == class_total(p, a, ps, c, i as int),
            same_hand@.len() == 2,
            forall|h: int|
                0 <= h < 2 ==> #[trigger] same_hand@[h] == if a == 2 {
                    hand_total(p, ps, h, i as int)
                } else {
                    0
                },
            moves@ == finger_moves(p, a, ps, i as int),
            details@ == if with_details {
                classified(p, a, ps, i as int)
            } else {
                Seq::<(u8, usize)>::empty()
            },
        decreases list@.len() - i,
    {
        let count = list[i].1;
        let token = list[i].2;
        proof {
            assert(ps[i as int] == (count, token));
            lemma_pairs_step(ps, i as int);
            lemma_pairs_monotonic(ps, i + 1, ps.len() as int);
            assert(ps.take(ps.len() as int) =~= ps);
        }
        observed = observed + count;
        match keys_of(keymap, base, arity, token) {
            Some((k0, k1, k2)) => {
                let class: u8 = if arity == 2 {
                    model.bigram_type(k0, k1)
                } else {
                    model.trigram_type(k0, k1, k2)
                };
                assert(class == class_of(p, a, token as int));
                assert(class < classes) by {
                    crate::model::lemma_class_range(model.board(), k0 as int, k1 as int, k2 as int);
                }
                proof {
                    lemma_class_total_bound(p, a, ps, class as int, i as int);
                    lemma_hand_total_bound(p, ps, (k0 % 10 / 5) as int, i as int);
                    lemma_pairs_monotonic(ps, i as int, ps.len() as int);
                }
                let sum = raw[class as usize] + count as u64;
                raw.set(class as usize, sum);
                if with_details && class >= 1 {
                    details.push((class, i));
                }
                let same_finger = if arity == 2 {
                    class == BIGRAM_SFB as u8 || class == BIGRAM_SAMEKEY as u8
                } else {
                    class >= TRIGRAM_D_SAMEKEY as u8 && class <= TRIGRAM_SHD_SFB as u8
                };
                if same_finger {
                    let to = if arity == 2 { k1 } else { k2 };
                    moves.push((k0 as u8, to as u8, count as u64));
                }
                if arity == 2 && class != BIGRAM_ALTERNATE as u8 {
                    let hand = k0 % 10 / 5;
                    let sum = same_hand[hand] + count as u64;
                    same_hand.set(hand, sum);
                }
            },
            None => {
                assert(class_of(p, a, token as int) == -1);
            },
        }
        i += 1;
    }
    proof {
        lemma_looked_at(ps, percentile as int, i as int);
        assert forall|c: int| 0 <= c < classes implies #[trigger] raw@[c] <= observed by {
            lemma_class_total_bound(p, a, ps, c, i as int);
        }
        if i == list@.len() {
            assert(ps.take(i as int) =~= ps);
        }
    }
    let mut counts: Vec<u64> = Vec::new();
    let mut c: usize = 0;
    while c < classes
        invariant
            c <= classes,
            raw@.len() == classes,
            observed > 0,
            forall|x: int| 0 <= x < classes ==> #[trigger] raw@[x] <= observed,
            counts@.len() == c,
            forall|x: int|
                0 <= x < c ==> #[trigger] counts@[x] == raw@[x] * total / (observed as int),
        decreases classes - c,
    {
        counts.push(scale(raw[c], total, observed as u64));
        c += 1;
    }
    Tally {
        counts,
        observed: observed as u64,
        same_hand,
        moves,
        details: if with_details { Some(details) } else { None },
    }
}

} // verus!
