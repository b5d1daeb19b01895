//! Integer arithmetic helpers for the fixed-point engine: truncating
//! division (the rounding used for every fixed-point rescale) and the
//! integer square root that backs vector normalization.

use vstd::prelude::*;
use vstd::arithmetic::div_mod::{
    lemma_div_is_ordered, lemma_div_multiples_vanish, lemma_div_pos_is_pos,
    lemma_fundamental_div_mod, lemma_mod_bound,
};

verus! {

/// Division of `a` by `b` that rounds toward zero, as machine division does.
/// For `a >= 0` it agrees with Euclidean division.
pub open spec fn tdiv(a: int, b: int) -> int {
    if a >= 0 {
        a / b
    } else {
        -((-a) / b)
    }
}

/// Integer square root: the largest `r` with `r * r <= n`.
pub open spec fn isqrt_spec(n: nat) -> nat
    decreases n,
{
    if n == 0 {
        0
    } else {
        let r = isqrt_spec((n - 1) as nat);
        if (r + 1) * (r + 1) <= n {
            r + 1
        } else {
            r
        }
    }
}

/// `isqrt_spec(n)` is indeed the integer square root of `n`.
pub proof fn lemma_isqrt_bounds(n: nat)
    ensures
        isqrt_spec(n) * isqrt_spec(n) <= n,
        n < (isqrt_spec(n) + 1) * (isqrt_spec(n) + 1),
    decreases n,
{
    if n == 0 {
        assert(isqrt_spec(n) == 0);
        assert(isqrt_spec(n) * isqrt_spec(n) <= n);
        assert(n < (isqrt_spec(n) + 1) * (isqrt_spec(n) + 1)) by (nonlinear_arith)
            requires
                n == 0,
                isqrt_spec(n) == 0,
        ;
    } else {
        lemma_isqrt_bounds((n - 1) as nat);
        let r = isqrt_spec((n - 1) as nat);
        assert(r * r <= n - 1 < (r + 1) * (r + 1));
        if (r + 1) * (r + 1) <= n {
            assert(isqrt_spec(n) == r + 1);
            assert(isqrt_spec(n) * isqrt_spec(n) <= n);
            assert(n < (r + 2) * (r + 2)) by (nonlinear_arith)
                requires
                    n <= (r + 1) * (r + 1),
            ;
            assert(n < (isqrt_spec(n) + 1) * (isqrt_spec(n) + 1));
        } else {
            assert(isqrt_spec(n) == r);
            assert(isqrt_spec(n) * isqrt_spec(n) <= n);
            assert(n < (isqrt_spec(n) + 1) * (isqrt_spec(n) + 1));
        }
    }
}

/// There is only one integer square root.
pub proof fn lemma_isqrt_unique(n: nat, r: nat)
    requires
        r * r <= n,
        n < (r + 1) * (r + 1),
    ensures
        r == isqrt_spec(n),
{
    lemma_isqrt_bounds(n);
    let s = isqrt_spec(n);
    assert(r == s) by (nonlinear_arith)
        requires
            r * r <= n,
            n < (r + 1) * (r + 1),
            s * s <= n,
            n < (s + 1) * (s + 1),
    ;
}

/// A quotient with a truncating division is no larger in magnitude than the
/// corresponding bound on the dividend divided by the divisor.
pub proof fn lemma_tdiv_le(a: int, b: int, k: int)
    requires
        b >= 1,
        k >= 0,
        -(b * k) <= a <= b * k,
    ensures
        -k <= tdiv(a, b) <= k,
{
    if a >= 0 {
        lemma_div_pos_is_pos(a, b);
        lemma_div_is_ordered(a, b * k, b);
        lemma_div_multiples_vanish(k, b);
    } else {
        lemma_div_pos_is_pos(-a, b);
        lemma_div_is_ordered(-a, b * k, b);
        lemma_div_multiples_vanish(k, b);
    }
}

/// [`tdiv`] rounds toward zero for negative divisors as well: dividing by
/// `b <= -1` is negating the quotient by `-b`.
pub proof fn lemma_tdiv_neg_divisor(a: int, b: int)
    requires
        b <= -1,
    ensures
        tdiv(a, b) == -tdiv(a, -b),
{
    if a >= 0 {
        assert(a / b == -(a / (-b))) by (nonlinear_arith)
            requires
                a >= 0,
                b <= -1,
        ;
    } else {
        assert((-a) / b == -((-a) / (-b))) by (nonlinear_arith)
            requires
                a < 0,
                b <= -1,
        ;
    }
}

/// A truncating quotient multiplied back differs from the dividend by less
/// than the divisor, and never overshoots the dividend's magnitude.
pub proof fn lemma_tdiv_mul_range(a: int, b: int)
    requires
        b >= 1,
    ensures
        a >= 0 ==> b * tdiv(a, b) <= a < b * tdiv(a, b) + b,
        a < 0 ==> b * tdiv(a, b) - b < a <= b * tdiv(a, b),
{
    if a >= 0 {
        lemma_fundamental_div_mod(a, b);
        lemma_mod_bound(a, b);
    } else {
        lemma_fundamental_div_mod(-a, b);
        lemma_mod_bound(-a, b);
        assert(b * ((-a) / b) == -(b * tdiv(a, b))) by (nonlinear_arith)
            requires
                tdiv(a, b) == -((-a) / b),
        ;
    }
}

/// Truncating division on machine integers; rejects only the one dividend
/// whose negation does not fit.
pub fn div_trunc(a: i64, b: i64) -> (r: i64)
    requires
        b >= 1,
        a > i64::MIN,
    ensures
        r == tdiv(a as int, b as int),
{
    if a >= 0 {
        let q: u64 = (a as u64) / (b as u64);
        proof {
            lemma_div_pos_is_pos(a as int, b as int);
            lemma_div_is_ordered(a as int, a as int, b as int);
            assert(a as int / b as int <= a as int) by (nonlinear_arith)
                requires
                    a >= 0,
                    b >= 1,
            ;
        }
        q as i64
    } else {
        let m: i64 = -a;
        let q: u64 = (m as u64) / (b as u64);
        proof {
            lemma_div_pos_is_pos(m as int, b as int);
            assert(m as int / b as int <= m as int) by (nonlinear_arith)
                requires
                    m >= 0,
                    b >= 1,
            ;
        }
        -(q as i64)
    }
}

/// Integer square root of a machine integer, by a verified upward search.
pub fn isqrt64(n: i64) -> (r: i64)
    requires
        0 <= n < 0x4000_0000_0000_0000,
    ensures
        0 <= r,
        r * r <= n,
        n < (r + 1) * (r + 1),
        r == isqrt_spec(n as nat),
{
    let mut r: i64 = 0;
    loop
        invariant
            0 <= r <= n,
            r * r <= n,
            r <= 0x7fff_ffff,
            0 <= n < 0x4000_0000_0000_0000,
        ensures
            0 <= r,
            r * r <= n,
            n < (r + 1) * (r + 1),
        decreases n - r,
    {
        proof {
            assert((r + 1) * (r + 1) <= 0x4000_0000_0000_0000int) by (nonlinear_arith)
                requires
                    0 <= r <= 0x7fff_ffffint,
            ;
        }
        let next: i64 = (r + 1) * (r + 1);
        if next > n {
            break;
        }
        r = r + 1;
        proof {
            assert(r <= n && r <= 0x7fff_ffff) by (nonlinear_arith)
                requires
                    1 <= r,
                    r * r <= n,
                    n < 0x4000_0000_0000_0000int,
            ;
        }
    }
    proof {
        lemma_isqrt_unique(n as nat, r as nat);
    }
    r
}

} // verus!
