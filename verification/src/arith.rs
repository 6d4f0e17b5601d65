//! Arithmetic support for the pool math: division bounds and the integer
//! square root used for bootstrap liquidity.

use vstd::prelude::*;

verus! {

/// Bundle of the Euclidean division facts for a nonnegative dividend.
pub proof fn div_mod_facts(x: int, d: int)
    requires
        0 <= x,
        1 <= d,
    ensures
        x == d * (x / d) + x % d,
        0 <= x % d < d,
        0 <= x / d,
{
    vstd::arithmetic::div_mod::lemma_fundamental_div_mod(x, d);
    vstd::arithmetic::div_mod::lemma_mod_bound(x, d);
    if x / d < 0 {
        assert(d * (x / d) <= x / d) by (nonlinear_arith)
            requires
                d >= 1,
                x / d < 0,
        ;
    }
}

/// `r` is the floor of the square root of `n`.
pub open spec fn is_isqrt(n: int, r: int) -> bool {
    &&& 0 <= r
    &&& r * r <= n
    &&& n < (r + 1) * (r + 1)
}

/// From `n < m * d` conclude `n / d < m`.
pub proof fn lemma_div_bound_lt(n: int, d: int, m: int)
    requires
        0 <= n,
        1 <= d,
        0 <= m,
        n < m * d,
    ensures
        n / d < m,
{
    if n / d >= m {
        div_mod_facts(n, d);
        assert(d * (n / d) >= d * m) by (nonlinear_arith)
            requires
                n / d >= m,
                d >= 1,
        ;
        assert(d * m == m * d) by (nonlinear_arith);
    }
}

/// From `n <= m * d` conclude `n / d <= m`.
pub proof fn lemma_div_bound_le(n: int, d: int, m: int)
    requires
        0 <= n,
        1 <= d,
        0 <= m,
        n <= m * d,
    ensures
        n / d <= m,
{
    if n / d > m {
        div_mod_facts(n, d);
        assert(d * (n / d) >= d * (m + 1)) by (nonlinear_arith)
            requires
                n / d >= m + 1,
                d >= 1,
        ;
        assert(d * (m + 1) == m * d + d) by (nonlinear_arith);
    }
}

/// From `n / d >= m` conclude `n >= m * d`.
pub proof fn lemma_div_lower_bound(n: int, d: int, m: int)
    requires
        0 <= n,
        1 <= d,
        0 <= m,
        n / d >= m,
    ensures
        n >= m * d,
{
    div_mod_facts(n, d);
    assert(d * (n / d) >= d * m) by (nonlinear_arith)
        requires
            n / d >= m,
            d >= 1,
    ;
    assert(d * m == m * d) by (nonlinear_arith);
}

/// Multiplication respects bounds on both factors.
pub proof fn lemma_mul_le(a: int, b: int, c: int, d: int)
    requires
        0 <= a <= c,
        0 <= b <= d,
    ensures
        a * b <= c * d,
{
    assert(a * b <= c * d) by (nonlinear_arith)
        requires
            0 <= a <= c,
            0 <= b <= d,
    ;
}

/// Division by a positive divisor keeps order.
pub proof fn lemma_div_mono(n1: int, n2: int, d: int)
    requires
        0 <= n1 <= n2,
        1 <= d,
    ensures
        n1 / d <= n2 / d,
{
    vstd::arithmetic::div_mod::lemma_div_is_ordered(n1, n2, d);
}

/// Floor square root of a `u128`, by Newton iteration.
pub fn isqrt_u128(x: u128) -> (r: u128)
    requires
        x < u128::MAX,
    ensures
        is_isqrt(x as int, r as int),
{
    if x < 2 {
        proof {
            assert(is_isqrt(0, 0)) by (nonlinear_arith);
            assert(is_isqrt(1, 1)) by (nonlinear_arith);
        }
        return x;
    }
    let mut a: u128 = x;
    let mut y: u128 = (x + 1) / 2;
    proof {
        let xi = x as int;
        assert(xi < (xi + 1) * (xi + 1)) by (nonlinear_arith)
            requires
                xi >= 2,
        ;
        assert(xi / xi == 1) by {
            vstd::arithmetic::div_mod::lemma_fundamental_div_mod_converse(xi, xi, 1, 0);
        }
        assert(y as int == (xi + xi / xi) / 2);
    }
    while y < a
        invariant
            2 <= x < u128::MAX,
            1 <= a <= x,
            x < (a + 1) * (a + 1),
            y as int == (a + x as int / a as int) / 2,
            1 <= y,
        decreases a,
    {
        proof {
            // the iterate bounds the root from above:
            // x < a(q+1), 4a(q+1) <= (a+q+1)^2, a+q+1 <= 2y+2, so x < (y+1)^2
            let ai = a as int;
            let xi = x as int;
            let qi = xi / ai;
            let yi = y as int;
            div_mod_facts(xi, ai);
            assert(xi < ai * (qi + 1)) by (nonlinear_arith)
                requires
                    xi == ai * qi + xi % ai,
                    xi % ai < ai,
            ;
            assert(0 <= (ai - qi - 1) * (ai - qi - 1)) by (nonlinear_arith);
            assert(4 * xi < (ai + qi + 1) * (ai + qi + 1)) by (nonlinear_arith)
                requires
                    xi < ai * (qi + 1),
                    0 <= (ai - qi - 1) * (ai - qi - 1),
            ;
            div_mod_facts(ai + qi, 2);
            assert(ai + qi == 2 * yi + (ai + qi) % 2);
            assert((ai + qi + 1) * (ai + qi + 1) <= (2 * yi + 2) * (2 * yi + 2))
                by (nonlinear_arith)
                requires
                    0 <= ai + qi + 1,
                    ai + qi + 1 <= 2 * yi + 2,
            ;
            assert((2 * yi + 2) * (2 * yi + 2) == 4 * ((yi + 1) * (yi + 1))) by (nonlinear_arith);
            assert(xi < (yi + 1) * (yi + 1));
        }
        a = y;
        let q: u128 = x / a;
        proof {
            // a + q stays in range: a * q <= x, so a + q <= x + 1
            let ai = a as int;
            let xi = x as int;
            let qi = q as int;
            div_mod_facts(xi, ai);
            assert(ai * qi <= xi);
            if qi >= 1 {
                assert(ai + qi <= ai * qi + 1) by (nonlinear_arith)
                    requires
                        ai >= 1,
                        qi >= 1,
                ;
            }
            assert(ai + qi <= xi + 1);
        }
        y = (a + q) / 2;
        proof {
            // the new iterate is at least one
            let ai = a as int;
            let qi = q as int;
            if ai == 1 {
                vstd::arithmetic::div_mod::lemma_div_basics(x as int);
                assert(qi == x as int);
                assert((1 + qi) / 2 >= 1) by {
                    lemma_div_mono(2, 1 + qi, 2);
                }
            } else {
                assert((ai + qi) / 2 >= 1) by {
                    lemma_div_mono(2, ai + qi, 2);
                }
            }
        }
    }
    proof {
        // at exit y >= a, so q = x / a >= a, hence a * a <= x
        let ai = a as int;
        let xi = x as int;
        let qi = xi / ai;
        div_mod_facts(xi, ai);
        assert((ai + qi) / 2 >= ai);
        div_mod_facts(ai + qi, 2);
        assert(ai + qi == 2 * ((ai + qi) / 2) + (ai + qi) % 2);
        assert(2 * ((ai + qi) / 2) >= 2 * ai) by (nonlinear_arith)
            requires
                (ai + qi) / 2 >= ai,
        ;
        assert(qi >= ai);
        assert(ai * ai <= ai * qi) by (nonlinear_arith)
            requires
                ai >= 1,
                ai <= qi,
        ;
    }
    a
}

} // verus!
