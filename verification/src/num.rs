//! Small numbers: the smaller, the larger, and division rounded up.
use vstd::prelude::*;

verus! {

/// The smaller of two numbers.
pub open spec fn min(a: int, b: int) -> int {
    if a <= b {
        a
    } else {
        b
    }
}

/// The larger of two numbers.
pub open spec fn max(a: int, b: int) -> int {
    if a >= b {
        a
    } else {
        b
    }
}

/// `a / b`, rounded up.
pub open spec fn div_up(a: int, b: int) -> int {
    (a + b - 1) / b
}

/// `a / b`, rounded up, without overflow.
pub fn ceil_div(a: u64, b: u64) -> (r: u64)
    requires
        b > 0,
    ensures
        r == div_up(a as int, b as int),
        r <= a,
{
    proof {
        vstd::arithmetic::div_mod::lemma_fundamental_div_mod(a as int, b as int);
        let (q, m) = (a as int / b as int, a as int % b as int);
        assert(b * q == q * b) by (nonlinear_arith);
        assert(q >= 0) by (nonlinear_arith)
            requires
                a == b * q + m,
                m < b,
                a >= 0,
                b > 0,
        ;
        assert(q <= a) by (nonlinear_arith)
            requires
                a == b * q + m,
                m >= 0,
                b > 0,
                q >= 0,
        ;
        if m == 0 {
            vstd::arithmetic::div_mod::lemma_fundamental_div_mod_converse(a + b - 1, b as int, q, b - 1);
        } else {
            assert((q + 1) * b == q * b + b) by (nonlinear_arith);
            vstd::arithmetic::div_mod::lemma_fundamental_div_mod_converse(a + b - 1, b as int, q + 1, m - 1);
            assert(q + 1 <= a) by (nonlinear_arith)
                requires
                    a == b * q + m,
                    m >= 1,
                    b > 0,
                    q >= 0,
            ;
        }
    }
    let q: u64 = a / b;
    if a % b == 0 {
        q
    } else {
        q + 1
    }
}

} // verus!
