//! Signed division as Rust computes it (truncating toward zero).
use vstd::prelude::*;

verus! {

/// `a / b` rounded toward zero.
pub open spec fn trunc_div(a: int, b: int) -> int {
    if a >= 0 { a / b } else { -((-a) / b) }
}

/// `a % b` with the sign of `a`.
pub open spec fn trunc_rem(a: int, b: int) -> int {
    a - trunc_div(a, b) * b
}

/// `a / b` for `b > 0`, rounded toward zero.
pub fn div_i32(a: i32, b: i32) -> (r: i32)
    requires
        b > 0,
    ensures
        r == trunc_div(a as int, b as int),
{
    if a >= 0 {
        ((a as u32) / (b as u32)) as i32
    } else {
        let m: u32 = if a == i32::MIN { 0x8000_0000u32 } else { (-a) as u32 };
        let q = m / (b as u32);
        proof {
            assert(q <= 0x8000_0000);
        }
        if q == 0x8000_0000u32 { i32::MIN } else { -(q as i32) }
    }
}

/// `a % b` for `b > 0`, with the sign of `a`.
pub fn rem_i32(a: i32, b: i32) -> (r: i32)
    requires
        b > 0,
    ensures
        r == trunc_rem(a as int, b as int),
        -b < r < b,
{
    let q = div_i32(a, b);
    proof {
        let m: int = if a >= 0 { a as int } else { -a };
        vstd::arithmetic::div_mod::lemma_fundamental_div_mod(m, b as int);
        vstd::arithmetic::div_mod::lemma_mod_bound(m, b as int);
        vstd::arithmetic::mul::lemma_mul_is_commutative(b as int, m / (b as int));
        if a < 0 {
            vstd::arithmetic::mul::lemma_mul_unary_negation(m / (b as int), b as int);
        }
    }
    let qb: i64 = (q as i64) * (b as i64);
    (a as i64 - qb) as i32
}

/// A truncated quotient times the divisor lies between zero and the dividend.
pub proof fn lemma_trunc_div_bounds(a: int, b: int)
    requires
        b > 0,
    ensures
        a >= 0 ==> 0 <= trunc_div(a, b) * b <= a,
        a < 0 ==> a <= trunc_div(a, b) * b <= 0,
        a >= 0 ==> trunc_div(a, b) >= 0,
        a < 0 ==> trunc_div(a, b) <= 0,
{
    let m: int = if a >= 0 { a } else { -a };
    vstd::arithmetic::div_mod::lemma_fundamental_div_mod(m, b);
    vstd::arithmetic::div_mod::lemma_mod_bound(m, b);
    vstd::arithmetic::div_mod::lemma_div_pos_is_pos(m, b);
    vstd::arithmetic::mul::lemma_mul_is_commutative(b, m / b);
    vstd::arithmetic::mul::lemma_mul_nonnegative(m / b, b);
    if a < 0 {
        vstd::arithmetic::mul::lemma_mul_unary_negation(m / b, b);
    }
}

} // verus!
