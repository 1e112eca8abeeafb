use vstd::prelude::*;
use vstd::arithmetic::div_mod::{lemma_fundamental_div_mod, lemma_mod_add_multiples_vanish, lemma_small_mod, lemma_mod_sub_multiples_vanish};

verus! {

/// `x` reduced to the signed 64-bit range modulo 2^64 (two's-complement wrap).
pub open spec fn wrap64(x: int) -> i64 {
    let m = x % 0x1_0000_0000_0000_0000;
    if m > i64::MAX {
        (m - 0x1_0000_0000_0000_0000) as i64
    } else {
        m as i64
    }
}

pub open spec fn mag(a: int) -> nat {
    if a >= 0 {
        a as nat
    } else {
        (-a) as nat
    }
}

/// Integer division rounding toward zero.
pub open spec fn trunc_div(a: int, b: int) -> int {
    if (a >= 0) == (b >= 0) {
        (mag(a) / mag(b)) as int
    } else {
        -((mag(a) / mag(b)) as int)
    }
}

/// The remainder that goes with `trunc_div`: it takes the sign of `a`.
pub open spec fn trunc_rem(a: int, b: int) -> int {
    a - b * trunc_div(a, b)
}

proof fn lemma_wrap_in_range(x: int)
    requires
        i64::MIN <= x <= i64::MAX,
    ensures
        wrap64(x) as int == x,
{
    if x >= 0 {
        lemma_small_mod(x as nat, 0x1_0000_0000_0000_0000);
    } else {
        lemma_mod_add_multiples_vanish(x, 0x1_0000_0000_0000_0000);
        lemma_small_mod((x + 0x1_0000_0000_0000_0000) as nat, 0x1_0000_0000_0000_0000);
    }
}

proof fn lemma_wrap_shift(x: int)
    ensures
        wrap64(x + 0x1_0000_0000_0000_0000) == wrap64(x),
        wrap64(x - 0x1_0000_0000_0000_0000) == wrap64(x),
{
    lemma_mod_add_multiples_vanish(x, 0x1_0000_0000_0000_0000);
    lemma_mod_sub_multiples_vanish(x, 0x1_0000_0000_0000_0000);
}

/// Wrapping sum.
pub fn int_add(a: i64, b: i64) -> (r: i64)
    ensures
        r == wrap64(a + b),
{
    let r = a.wrapping_add(b);
    proof {
        lemma_wrap_shift(a + b);
        lemma_wrap_shift(a + b - 0x1_0000_0000_0000_0000);
        lemma_wrap_in_range(r as int);
    }
    r
}

/// Wrapping difference.
pub fn int_sub(a: i64, b: i64) -> (r: i64)
    ensures
        r == wrap64(a - b),
{
    let r = a.wrapping_sub(b);
    proof {
        lemma_wrap_shift(a - b);
        lemma_wrap_shift(a - b - 0x1_0000_0000_0000_0000);
        lemma_wrap_in_range(r as int);
    }
    r
}

/// Wrapping product.
pub fn int_mul(a: i64, b: i64) -> (r: i64)
    ensures
        r == wrap64(a * b),
{
    a.wrapping_mul(b)
}

/// Wrapping negation: the smallest value negates to itself.
pub fn int_neg(a: i64) -> (r: i64)
    ensures
        r == wrap64(-a),
{
    let r = 0i64.wrapping_sub(a);
    proof {
        lemma_wrap_shift(0 - a);
        lemma_wrap_in_range(r as int);
    }
    r
}

fn magnitude(a: i64) -> (r: u64)
    ensures
        r == mag(a as int),
{
    if a >= 0 {
        a as u64
    } else {
        (0i128 - a as i128) as u64
    }
}

/// Division toward zero; the one quotient out of range, of the smallest value
/// by -1, wraps to the smallest value.
pub fn int_div(a: i64, b: i64) -> (r: i64)
    requires
        b != 0,
    ensures
        r == wrap64(trunc_div(a as int, b as int)),
{
    let q: u64 = magnitude(a) / magnitude(b);
    assert(q <= 0x8000_0000_0000_0000) by (nonlinear_arith)
        requires q == mag(a as int) / mag(b as int), mag(a as int) <= 0x8000_0000_0000_0000, mag(b as int) >= 1;
    let r: i128 = if (a >= 0) == (b >= 0) { q as i128 } else { 0i128 - q as i128 };
    proof {
        if r <= i64::MAX {
            lemma_wrap_in_range(r as int);
        } else {
            lemma_wrap_shift(r as int - 0x1_0000_0000_0000_0000);
            lemma_wrap_in_range(r as int - 0x1_0000_0000_0000_0000);
        }
    }
    if r > i64::MAX as i128 {
        i64::MIN
    } else {
        r as i64
    }
}

/// Remainder of division toward zero; it has the sign of `a`.
pub fn int_rem(a: i64, b: i64) -> (r: i64)
    requires
        b != 0,
    ensures
        r == trunc_rem(a as int, b as int),
{
    let ma: u64 = magnitude(a);
    let mb: u64 = magnitude(b);
    let m: u64 = ma % mb;
    proof {
        lemma_fundamental_div_mod(ma as int, mb as int);
        let q = ma as int / mb as int;
        if (a >= 0) == (b >= 0) {
            if a >= 0 {
                assert(a - b * q == m);
            } else {
                assert(a - b * q == -(m as int)) by (nonlinear_arith)
                    requires a == -(ma as int), b == -(mb as int), ma == mb * q + m;
            }
        } else {
            if a >= 0 {
                assert(a - b * (-q) == m) by (nonlinear_arith)
                    requires a == ma, b == -(mb as int), ma == mb * q + m;
            } else {
                assert(a - b * (-q) == -(m as int)) by (nonlinear_arith)
                    requires a == -(ma as int), b == mb, ma == mb * q + m;
            }
        }
    }
    if a >= 0 {
        m as i64
    } else {
        0i64 - m as i64
    }
}

/// Apart from the smallest value divided by -1, the quotient toward zero is
/// an `i64` and needs no wrapping.
pub proof fn lemma_trunc_div_fits(a: i64, b: i64)
    requires
        b != 0,
        !(a == i64::MIN && b == -1),
    ensures
        wrap64(trunc_div(a as int, b as int)) as int == trunc_div(a as int, b as int),
{
    let q = mag(a as int) / mag(b as int);
    assert(q <= mag(a as int)) by (nonlinear_arith)
        requires q == mag(a as int) / mag(b as int), mag(b as int) >= 1;
    if q == 0x8000_0000_0000_0000 {
        assert(mag(b as int) == 1) by (nonlinear_arith)
            requires q == mag(a as int) / mag(b as int), mag(b as int) >= 1,
                mag(a as int) <= 0x8000_0000_0000_0000, q == 0x8000_0000_0000_0000;
    }
    lemma_wrap_in_range(trunc_div(a as int, b as int));
}

} // verus!
