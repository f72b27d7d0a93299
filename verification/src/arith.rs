//! Exact integer arithmetic on values that do not fit a machine word in between.

use vstd::arithmetic::div_mod::lemma_fundamental_div_mod_converse;
use vstd::prelude::*;

verus! {

/// Quotient and remainder of `a * m` by `d`, or `None` where the quotient exceeds `u128::MAX`.
fn mul_div_rem(a: u128, m: u128, d: u128) -> (r: Option<(u128, u128)>)
    requires
        d > 0,
    ensures
        match r {
            Some((q, rem)) => q * d + rem == a * m && rem < d,
            None => a * m >= d * (u128::MAX + 1),
        },
    decreases a,
{
    if a == 0 {
        assert(0 * m == 0) by (nonlinear_arith);
        assert(0 * d == 0) by (nonlinear_arith);
        return Some((0, 0));
    }
    let half: u128 = a / 2;
    let odd: bool = a % 2 == 1;
    let ghost add: int = if odd {
        m as int
    } else {
        0
    };
    assert(a * m == 2 * (half * m) + add) by {
        if odd {
            assert(a * m == 2 * (half * m) + m) by (nonlinear_arith)
                requires
                    a == 2 * half + 1,
            ;
        } else {
            assert(a * m == 2 * (half * m)) by (nonlinear_arith)
                requires
                    a == 2 * half,
            ;
        }
    }
    assert(half * m >= 0) by (nonlinear_arith);
    match mul_div_rem(half, m, d) {
        None => None,
        Some((q0, r0)) => {
            // 2 * (q0 * d + r0) == q1 * d + r1
            let carry1: bool = r0 >= d - r0;
            let r1: u128 = if carry1 {
                r0 - (d - r0)
            } else {
                r0 + r0
            };
            let ghost c1: int = if carry1 {
                1
            } else {
                0
            };
            assert((2 * q0 + c1) * d + r1 == 2 * (half * m)) by (nonlinear_arith)
                requires
                    q0 * d + r0 == half * m,
                    2 * r0 == c1 * d + r1,
            ;
            // (q1 * d + r1) + add == q2 * d + r2
            let (mq, mr): (u128, u128) = if odd {
                (m / d, m % d)
            } else {
                (0, 0)
            };
            assert(mq * d + mr == add) by {
                if odd {
                    vstd::arithmetic::div_mod::lemma_fundamental_div_mod(m as int, d as int);
                    assert(mq * d == d * (m as int / d as int)) by (nonlinear_arith)
                        requires
                            mq == m as int / d as int,
                    ;
                } else {
                    assert(0 * d == 0) by (nonlinear_arith);
                }
            }
            let carry2: bool = r1 >= d - mr;
            let r2: u128 = if carry2 {
                r1 - (d - mr)
            } else {
                r1 + mr
            };
            let ghost c2: int = if carry2 {
                1
            } else {
                0
            };
            let ghost q: int = 2 * q0 + c1 + mq + c2;
            assert(q * d + r2 == a * m) by (nonlinear_arith)
                requires
                    (2 * q0 + c1) * d + r1 == 2 * (half * m),
                    mq * d + mr == add,
                    r1 + mr == c2 * d + r2,
                    a * m == 2 * (half * m) + add,
                    q == 2 * q0 + c1 + mq + c2,
            ;
            let carries: u128 = (if carry1 {
                1u128
            } else {
                0u128
            }) + (if carry2 {
                1u128
            } else {
                0u128
            });
            let out: Option<u128> = match q0.checked_mul(2) {
                Some(t) => match t.checked_add(mq) {
                    Some(u) => u.checked_add(carries),
                    None => None,
                },
                None => None,
            };
            match out {
                Some(v) => Some((v, r2)),
                None => {
                    assert(q >= u128::MAX + 1);
                    assert(a * m >= d * (u128::MAX + 1)) by (nonlinear_arith)
                        requires
                            q * d + r2 == a * m,
                            q >= u128::MAX + 1,
                            r2 >= 0,
                            d > 0,
                    ;
                    None
                },
            }
        },
    }
}

/// `a * m / d` rounded down, or `None` where that exceeds `u128::MAX`. The product may be
/// wider than a machine word.
pub fn mul_div(a: u128, m: u128, d: u128) -> (r: Option<u128>)
    requires
        d > 0,
    ensures
        r == (if (a * m) / d as int <= u128::MAX {
            Some(((a * m) / d as int) as u128)
        } else {
            None
        }),
{
    match mul_div_rem(a, m, d) {
        Some((q, rem)) => {
            proof {
                assert(a * m == q * d + rem);
                lemma_fundamental_div_mod_converse((a * m) as int, d as int, q as int, rem as int);
            }
            Some(q)
        },
        None => {
            proof {
                let p = (a * m) as int;
                vstd::arithmetic::div_mod::lemma_fundamental_div_mod(p, d as int);
                let k = p / d as int;
                assert(k > u128::MAX) by (nonlinear_arith)
                    requires
                        p == d * k + p % d as int,
                        p >= d * (u128::MAX + 1),
                        p % (d as int) < d,
                        d > 0,
                ;
            }
            None
        },
    }
}

} // verus!
