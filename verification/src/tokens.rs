//! Tokens of n-grams: a symbol has a small number of its own, and the
//! token of a bigram or trigram holds the tokens of its symbols as digits
//! to the base of the corpus, the first symbol in the lowest place.

use vstd::prelude::*;
use vstd::arithmetic::div_mod::lemma_fundamental_div_mod_converse;
use vstd::arithmetic::mul::{lemma_mul_upper_bound, lemma_mul_inequality};

verus! {

/// The token made of the three digits `t0`, `t1` and `t2`.
pub open spec fn compose(t0: int, t1: int, t2: int, base: int) -> int {
    (t2 * base + t1) * base + t0
}

/// The three digits of `token`, lowest first.
pub open spec fn digits(token: int, base: int) -> Seq<int> {
    seq![token % base, (token / base) % base, token / base / base]
}

/// Three digits below the base make a token below its cube, and the
/// token gives the digits back.
pub proof fn lemma_digits_of_compose(t0: int, t1: int, t2: int, base: int)
    requires
        0 <= t0 < base,
        0 <= t1 < base,
        0 <= t2 < base,
    ensures
        digits(compose(t0, t1, t2, base), base) == seq![t0, t1, t2],
        0 <= compose(t0, t1, t2, base) < base * base * base,
        t2 == 0 ==> compose(t0, t1, t2, base) < base * base,
        t2 == 0 && t1 == 0 ==> compose(t0, t1, t2, base) == t0,
        t1 >= 1 ==> compose(t0, t1, t2, base) >= base,
        t2 >= 1 ==> compose(t0, t1, t2, base) >= base * base,
{
    let high = t2 * base + t1;
    let token = high * base + t0;
    lemma_fundamental_div_mod_converse(token, base, high, t0);
    lemma_fundamental_div_mod_converse(high, base, t2, t1);
    assert(digits(token, base) =~= seq![t0, t1, t2]);
    assert(0 <= t2 * base) by {
        lemma_mul_inequality(0, t2, base);
    }
    assert(t2 * base <= (base - 1) * base) by {
        lemma_mul_inequality(t2, base - 1, base);
    }
    assert((base - 1) * base == base * base - base) by (nonlinear_arith);
    assert(0 <= high < base * base);
    assert(0 <= high * base) by {
        lemma_mul_inequality(0, high, base);
    }
    assert(high * base <= (base * base - 1) * base) by {
        lemma_mul_inequality(high, base * base - 1, base);
    }
    assert((base * base - 1) * base == base * base * base - base) by (nonlinear_arith);
    if t2 == 0 {
        assert(t2 * base == 0);
        assert(high == t1);
        assert(t1 * base <= (base - 1) * base) by {
            lemma_mul_inequality(t1, base - 1, base);
        }
        if t1 == 0 {
            assert(high * base == 0);
        }
    }
    if t1 >= 1 {
        assert(high >= 1);
        assert(high * base >= 1 * base) by {
            lemma_mul_inequality(1, high, base);
        }
    }
    if t2 >= 1 {
        assert(t2 * base >= 1 * base) by {
            lemma_mul_inequality(1, t2, base);
        }
        assert(high >= base);
        assert(high * base >= base * base) by {
            lemma_mul_inequality(base, high, base);
        }
    }
}

/// Two tokens with the same digits are one token.
pub proof fn lemma_compose_injective(
    s0: int,
    s1: int,
    s2: int,
    t0: int,
    t1: int,
    t2: int,
    base: int,
)
    requires
        0 <= s0 < base,
        0 <= s1 < base,
        0 <= s2 < base,
        0 <= t0 < base,
        0 <= t1 < base,
        0 <= t2 < base,
        compose(s0, s1, s2, base) == compose(t0, t1, t2, base),
    ensures
        s0 == t0,
        s1 == t1,
        s2 == t2,
{
    lemma_digits_of_compose(s0, s1, s2, base);
    lemma_digits_of_compose(t0, t1, t2, base);
    let d = digits(compose(s0, s1, s2, base), base);
    assert(d[0] == s0 && d[1] == s1 && d[2] == s2);
    assert(d[0] == t0 && d[1] == t1 && d[2] == t2);
}

/// A smaller base has a smaller cube.
pub proof fn lemma_cube_monotonic(a: int, b: int)
    requires
        0 <= a <= b,
    ensures
        a * a * a <= b * b * b,
{
    lemma_mul_upper_bound(a, b, a, b);
    assert(0 <= a * a) by (nonlinear_arith)
        requires
            0 <= a,
    ;
    lemma_mul_upper_bound(a * a, b * b, a, b);
}

/// Splits a token into its three digits.
pub(crate) fn split_token(token: usize, base: usize) -> (ngram: [usize; 3])
    requires
        base > 0,
    ensures
        ngram@.len() == 3,
        ngram[0] == digits(token as int, base as int)[0],
        ngram[1] == digits(token as int, base as int)[1],
        ngram[2] == digits(token as int, base as int)[2],
{
    let t0 = token % base;
    let rest = token / base;
    let t1 = rest % base;
    let t2 = rest / base;
    [t0, t1, t2]
}

} // verus!
