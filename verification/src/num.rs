//! Integer division as the machine does it: rounded toward zero.

use vstd::prelude::*;

verus! {

/// Quotient rounded toward zero, as integer `/` computes it.
pub open spec fn quot(a: int, b: int) -> int {
    let ma = if a < 0 { -a } else { a };
    let mb = if b < 0 { -b } else { b };
    if (a < 0) != (b < 0) { -(ma / mb) } else { ma / mb }
}

/// Remainder of the quotient rounded toward zero, as integer `%`
/// computes it: it takes the sign of `a`.
pub open spec fn rem(a: int, b: int) -> int {
    a - b * quot(a, b)
}

fn magnitude(a: i64) -> (m: u64)
    ensures
        m as int == (if a < 0 { -a } else { a as int }),
{
    if a < 0 {
        if a == i64::MIN { 0x8000_0000_0000_0000u64 } else { (-a) as u64 }
    } else {
        a as u64
    }
}

/// `a / b` rounded toward zero. The one quotient that does not fit,
/// the smallest value over minus one, wraps to itself.
pub fn divide(a: i64, b: i64) -> (q: i64)
    requires
        b != 0,
    ensures
        !(a == i64::MIN && b == -1) ==> q as int == quot(a as int, b as int),
        a == i64::MIN && b == -1 ==> q == i64::MIN,
{
    if a == i64::MIN && b == -1 {
        return i64::MIN;
    }
    let ua = magnitude(a);
    let ub = magnitude(b);
    let m: u64 = if ub == 1 { ua } else { ua / ub };
    proof {
        if ub != 1 {
            assert(ua / ub <= ua / 2) by {
                vstd::arithmetic::div_mod::lemma_div_is_ordered_by_denominator(ua as int, 2, ub as int);
            }
        }
    }
    if (a < 0) != (b < 0) {
        if m == 0x8000_0000_0000_0000u64 { i64::MIN } else { -(m as i64) }
    } else {
        m as i64
    }
}

/// `a % b`: the remainder with the sign of `a`.
pub fn remainder(a: i64, b: i64) -> (r: i64)
    requires
        b != 0,
    ensures
        r as int == rem(a as int, b as int),
{
    let ua = magnitude(a);
    let ub = magnitude(b);
    let m: u64 = ua % ub;
    proof {
        let q = (ua as int) / (ub as int);
        assert(ua as int == (ub as int) * q + (m as int)) by (nonlinear_arith)
            requires
                ub > 0,
                q == (ua as int) / (ub as int),
                m as int == (ua as int) % (ub as int),
        ;
        assert(0 <= m < ub);
        if a < 0 {
            if b < 0 {
                assert(quot(a as int, b as int) == q);
                assert(rem(a as int, b as int) == -(m as int)) by (nonlinear_arith)
                    requires
                        a < 0,
                        b < 0,
                        ua as int == -a,
                        ub as int == -b,
                        ua as int == (ub as int) * q + (m as int),
                        quot(a as int, b as int) == q,
                        rem(a as int, b as int) == a - b * quot(a as int, b as int),
                ;
            } else {
                assert(quot(a as int, b as int) == -q);
                assert(rem(a as int, b as int) == -(m as int)) by (nonlinear_arith)
                    requires
                        a < 0,
                        b > 0,
                        ua as int == -a,
                        ub as int == b,
                        ua as int == (ub as int) * q + (m as int),
                        quot(a as int, b as int) == -q,
                        rem(a as int, b as int) == a - b * quot(a as int, b as int),
                ;
            }
        } else {
            if b < 0 {
                assert(quot(a as int, b as int) == -q);
                assert(rem(a as int, b as int) == (m as int)) by (nonlinear_arith)
                    requires
                        a >= 0,
                        b < 0,
                        ua as int == a,
                        ub as int == -b,
                        ua as int == (ub as int) * q + (m as int),
                        quot(a as int, b as int) == -q,
                        rem(a as int, b as int) == a - b * quot(a as int, b as int),
                ;
            } else {
                assert(quot(a as int, b as int) == q);
                assert(rem(a as int, b as int) == (m as int)) by (nonlinear_arith)
                    requires
                        a >= 0,
                        b > 0,
                        ua as int == a,
                        ub as int == b,
                        ua as int == (ub as int) * q + (m as int),
                        quot(a as int, b as int) == q,
                        rem(a as int, b as int) == a - b * quot(a as int, b as int),
                ;
            }
        }
    }
    if a < 0 { -(m as i64) } else { m as i64 }
}

} // verus!
