//! A 256-bit unsigned integer held as two 128-bit halves.
use vstd::prelude::*;
use vstd::arithmetic::div_mod::*;
use vstd::arithmetic::mul::*;
use vstd::arithmetic::power2::*;

verus! {

/// 2^64
pub open spec fn pow64() -> nat {
    0x1_0000_0000_0000_0000nat
}

/// 2^127
pub open spec fn pow127() -> nat {
    0x8000_0000_0000_0000_0000_0000_0000_0000nat
}

/// 2^128
pub open spec fn pow128() -> nat {
    0x1_0000_0000_0000_0000_0000_0000_0000_0000nat
}

/// 2^256
pub open spec fn pow256() -> nat {
    pow128() * pow128()
}

/// An unsigned integer below 2^256: `hi * 2^128 + lo`.
#[derive(Clone, Copy, Debug, PartialEq, Eq)]
pub struct U256 {
    pub lo: u128,
    pub hi: u128,
}

impl View for U256 {
    type V = nat;

    open spec fn view(&self) -> nat {
        self.hi as nat * pow128() + self.lo as nat
    }
}

pub proof fn lemma_u256_bound(x: U256)
    ensures
        x@ < pow256(),
{
    lemma_mul_upper_bound(x.hi as int, pow128() - 1, pow128() as int, pow128() as int);
    lemma_mul_is_distributive_sub_other_way(pow128() as int, pow128() as int, 1);
}

/// Splitting a value below 2^256 into its halves is unique.
proof fn lemma_halves_unique(hi: nat, lo: nat, hi2: nat, lo2: nat)
    requires
        lo < pow128(),
        lo2 < pow128(),
        hi * pow128() + lo == hi2 * pow128() + lo2,
    ensures
        hi == hi2,
        lo == lo2,
{
    lemma_fundamental_div_mod_converse(
        (hi * pow128() + lo) as int,
        pow128() as int,
        hi as int,
        lo as int,
    );
    lemma_fundamental_div_mod_converse(
        (hi2 * pow128() + lo2) as int,
        pow128() as int,
        hi2 as int,
        lo2 as int,
    );
}

/// The full product of two 128-bit values as a `U256`.
pub fn mul_wide(a: u128, b: u128) -> (r: U256)
    ensures
        r@ == a as nat * b as nat,
{
    let m: u128 = 0x1_0000_0000_0000_0000;
    let a0 = a % m;
    let a1 = a / m;
    let b0 = b % m;
    let b1 = b / m;
    proof {
        lemma_mul_upper_bound(a0 as int, (m - 1) as int, b0 as int, (m - 1) as int);
        lemma_mul_upper_bound(a0 as int, (m - 1) as int, b1 as int, (m - 1) as int);
        lemma_mul_upper_bound(a1 as int, (m - 1) as int, b0 as int, (m - 1) as int);
        lemma_mul_upper_bound(a1 as int, (m - 1) as int, b1 as int, (m - 1) as int);
    }
    let p00 = a0 * b0;
    let p01 = a0 * b1;
    let p10 = a1 * b0;
    let p11 = a1 * b1;
    let mid = p00 / m + p01 % m + p10 % m;
    let lo = p00 % m + (mid % m) * m;
    proof {
        assert(a == a1 * m + a0);
        assert(b == b1 * m + b0);
        assert((a1 * m + a0) * (b1 * m + b0) == p11 * (m * m) + (p01 + p10) * m + p00)
            by (nonlinear_arith)
            requires
                p00 == a0 * b0,
                p01 == a0 * b1,
                p10 == a1 * b0,
                p11 == a1 * b1,
        ;
        assert(p01 == (p01 / m) * m + p01 % m);
        assert(p10 == (p10 / m) * m + p10 % m);
        assert(p00 == (p00 / m) * m + p00 % m);
        assert(mid == (mid / m) * m + mid % m);
        lemma_mul_upper_bound(a as int, u128::MAX as int, b as int, u128::MAX as int);
    }
    let hi_acc: Ghost<int> = Ghost(
        p11 as int + (p01 / m) as int + (p10 / m) as int + (mid / m) as int,
    );
    proof {
        assert(a as int * b as int == hi_acc@ * (m * m) + lo as int) by (nonlinear_arith)
            requires
                a as int * b as int == p11 * (m * m) + (p01 + p10) * m + p00,
                p01 == (p01 / m) * m + p01 % m,
                p10 == (p10 / m) * m + p10 % m,
                p00 == (p00 / m) * m + p00 % m,
                mid == p00 / m + p01 % m + p10 % m,
                mid == (mid / m) * m + mid % m,
                lo == p00 % m + (mid % m) * m,
                hi_acc@ == p11 as int + (p01 / m) as int + (p10 / m) as int + (mid / m) as int,
        ;
        assert(lo < m * m) by (nonlinear_arith)
            requires
                lo == p00 % m + (mid % m) * m,
                p00 % m < m,
                mid % m < m,
        ;
        assert(hi_acc@ < m * m) by (nonlinear_arith)
            requires
                a as int * b as int == hi_acc@ * (m * m) + lo as int,
                a as int * b as int <= u128::MAX as int * u128::MAX as int,
                m == 0x1_0000_0000_0000_0000,
                lo >= 0,
        ;
    }
    let hi = p11 + p01 / m + p10 / m + mid / m;
    U256 { lo, hi }
}

impl U256 {
    pub fn zero() -> (r: U256)
        ensures
            r@ == 0,
    {
        U256 { lo: 0, hi: 0 }
    }

    pub fn from_u128(x: u128) -> (r: U256)
        ensures
            r@ == x,
    {
        U256 { lo: x, hi: 0 }
    }

    pub fn is_zero(&self) -> (r: bool)
        ensures
            r == (self@ == 0),
    {
        self.hi == 0 && self.lo == 0
    }

    /// The value as a `u128`; it must fit.
    pub fn as_u128(&self) -> (r: u128)
        requires
            self@ < pow128(),
        ensures
            r == self@,
    {
        proof {
            if self.hi > 0 {
                lemma_mul_inequality(1, self.hi as int, pow128() as int);
            }
        }
        self.lo
    }

    pub fn lt(&self, other: &U256) -> (r: bool)
        ensures
            r == (self@ < other@),
    {
        proof {
            lemma_order(*self, *other);
        }
        self.hi < other.hi || (self.hi == other.hi && self.lo < other.lo)
    }

    pub fn le(&self, other: &U256) -> (r: bool)
        ensures
            r == (self@ <= other@),
    {
        !other.lt(self)
    }

    pub fn eq(&self, other: &U256) -> (r: bool)
        ensures
            r == (self@ == other@),
    {
        proof {
            if self@ == other@ {
                lemma_halves_unique(self.hi as nat, self.lo as nat, other.hi as nat, other.lo as nat);
            }
        }
        self.hi == other.hi && self.lo == other.lo
    }

    /// `Some(self + rhs)` unless the sum reaches 2^256.
    pub fn checked_add(&self, rhs: &U256) -> (r: Option<U256>)
        ensures
            r is Some <==> self@ + rhs@ < pow256(),
            r matches Some(v) ==> v@ == self@ + rhs@,
    {
        let m: u128 = u128::MAX;
        let (lo, carry) = if self.lo <= m - rhs.lo {
            (self.lo + rhs.lo, 0u128)
        } else {
            ((self.lo - (m - rhs.lo)) - 1, 1u128)
        };
        proof {
            assert(self.lo + rhs.lo == lo + carry * pow128());
        }
        if self.hi > m - rhs.hi || self.hi + rhs.hi > m - carry {
            proof {
                lemma_mul_is_distributive_add_other_way(pow128() as int, self.hi as int, rhs.hi as int);
                lemma_mul_inequality(pow128() as int, (self.hi + rhs.hi + carry) as int, pow128() as int);
                lemma_mul_is_distributive_add_other_way(pow128() as int, (self.hi + rhs.hi) as int, carry as int);
            }
            None
        } else {
            let hi = self.hi + rhs.hi + carry;
            proof {
                lemma_mul_is_distributive_add_other_way(pow128() as int, self.hi as int, rhs.hi as int);
                lemma_mul_is_distributive_add_other_way(pow128() as int, (self.hi + rhs.hi) as int, carry as int);
                lemma_u256_bound(U256 { lo, hi });
            }
            Some(U256 { lo, hi })
        }
    }

    /// `Some(self - rhs)` unless `rhs` is larger.
    pub fn checked_sub(&self, rhs: &U256) -> (r: Option<U256>)
        ensures
            r is Some <==> rhs@ <= self@,
            r matches Some(v) ==> v@ == self@ - rhs@,
    {
        if self.lt(rhs) {
            None
        } else {
            Some(self.wrapping_sub(rhs))
        }
    }

    /// `(self - rhs) mod 2^256`.
    pub fn wrapping_sub(&self, rhs: &U256) -> (r: U256)
        ensures
            r@ == if rhs@ <= self@ { self@ - rhs@ } else { pow256() + self@ - rhs@ },
    {
        let (lo, borrow) = if self.lo >= rhs.lo {
            (self.lo - rhs.lo, 0u128)
        } else {
            (u128::MAX - (rhs.lo - self.lo) + 1, 1u128)
        };
        proof {
            assert(self.lo + borrow * pow128() == lo + rhs.lo);
            lemma_u256_bound(*self);
            lemma_u256_bound(*rhs);
        }
        let t = rhs.hi as u128;
        if self.hi >= t && self.hi - t >= borrow {
            let hi = self.hi - t - borrow;
            proof {
                lemma_mul_is_distributive_sub_other_way(pow128() as int, self.hi as int, t as int);
                lemma_mul_is_distributive_sub_other_way(pow128() as int, (self.hi - t) as int, borrow as int);
            }
            U256 { lo, hi }
        } else {
            // the true difference is negative: wrap around 2^256
            let d: u128 = if self.hi >= t { (t - self.hi) as u128 } else { t - self.hi };
            let hi: u128 = if self.hi >= t {
                u128::MAX
            } else {
                (u128::MAX - (t - self.hi)) + 1 - borrow
            };
            proof {
                if self.hi >= t {
                    assert(self.hi == t && borrow == 1);
                    assert(hi as nat * pow128() == (pow128() - 1) * pow128());
                    lemma_mul_is_distributive_sub_other_way(pow128() as int, pow128() as int, 1);
                } else {
                    lemma_mul_is_distributive_sub_other_way(pow128() as int, pow128() as int, (t - self.hi) as int);
                    lemma_mul_is_distributive_sub_other_way(pow128() as int, (pow128() - (t - self.hi)) as int, borrow as int);
                    lemma_mul_is_distributive_sub_other_way(pow128() as int, t as int, self.hi as int);
                }
            }
            U256 { lo, hi }
        }
    }

    /// `Some(self * rhs)` unless the product reaches 2^256.
    pub fn checked_mul(&self, rhs: &U256) -> (r: Option<U256>)
        ensures
            r is Some <==> self@ * rhs@ < pow256(),
            r matches Some(v) ==> v@ == self@ * rhs@,
    {
        if self.hi != 0 && rhs.hi != 0 {
            proof {
                lemma_mul_inequality(pow128() as int, self@ as int, rhs@ as int);
                lemma_mul_inequality(pow128() as int, rhs@ as int, pow128() as int);
                lemma_mul_is_commutative(self@ as int, rhs@ as int);
                lemma_mul_inequality(1, self.hi as int, pow128() as int);
                lemma_mul_inequality(1, rhs.hi as int, pow128() as int);
            }
            return None;
        }
        let (small, big) = if self.hi == 0 { (*self, *rhs) } else { (*rhs, *self) };
        proof {
            lemma_mul_is_commutative(self@ as int, rhs@ as int);
        }
        let w = mul_wide(small.lo, big.lo);
        let x = mul_wide(small.lo, big.hi);
        proof {
            assert(small@ == small.lo);
            assert(small@ * big@ == w@ + x@ * pow128()) by (nonlinear_arith)
                requires
                    small@ == small.lo,
                    big@ == big.hi * pow128() + big.lo,
                    w@ == small.lo * big.lo,
                    x@ == small.lo * big.hi,
            ;
        }
        if x.hi != 0 {
            proof {
                lemma_mul_inequality(1, x.hi as int, pow128() as int);
                lemma_mul_inequality(pow128() as int, x@ as int, pow128() as int);
            }
            return None;
        }
        let t = U256 { lo: w.hi, hi: 0 };
        let u = U256 { lo: x.lo, hi: 0 };
        match t.checked_add(&u) {
            None => {
                proof {
                    assert(w.hi + x.lo >= pow128()) by {
                        lemma_u256_bound(t);
                    }
                    lemma_mul_inequality(pow128() as int, (w.hi + x.lo) as int, pow128() as int);
                    lemma_mul_is_distributive_add_other_way(pow128() as int, w.hi as int, x.lo as int);
                }
                None
            },
            Some(s) => {
                if s.hi != 0 {
                    proof {
                        lemma_mul_inequality(1, s.hi as int, pow128() as int);
                        lemma_mul_inequality(pow128() as int, (w.hi + x.lo) as int, pow128() as int);
                        lemma_mul_is_distributive_add_other_way(pow128() as int, w.hi as int, x.lo as int);
                    }
                    None
                } else {
                    proof {
                        lemma_mul_is_distributive_add_other_way(pow128() as int, w.hi as int, x.lo as int);
                        lemma_u256_bound(U256 { lo: w.lo, hi: s.lo });
                    }
                    Some(U256 { lo: w.lo, hi: s.lo })
                }
            },
        }
    }

    /// Shifts left by one bit, returning the bit shifted out and `2 * self mod 2^256`.
    fn shl1(&self) -> (r: (u128, U256))
        ensures
            r.0 <= 1,
            2 * self@ == r.0 * pow256() + r.1@,
            r.1.lo % 2 == 0,
    {
        let h: u128 = 0x8000_0000_0000_0000_0000_0000_0000_0000;
        let top = self.hi / h;
        let hi = (self.hi % h) * 2 + self.lo / h;
        let lo = (self.lo % h) * 2;
        proof {
            assert(self.hi == top * h + self.hi % h);
            assert(self.lo == (self.lo / h) * h + self.lo % h);
            assert(2 * self@ == top * pow256() + hi * pow128() + lo) by (nonlinear_arith)
                requires
                    self@ == self.hi * pow128() + self.lo,
                    self.hi == top * h + self.hi % h,
                    self.lo == (self.lo / h) * h + self.lo % h,
                    hi == (self.hi % h) * 2 + self.lo / h,
                    lo == (self.lo % h) * 2,
                    pow128() == 2 * h,
                    pow256() == pow128() * pow128(),
            ;
        }
        (top, U256 { lo, hi })
    }

    /// `Some(self / rhs)` unless `rhs` is zero.
    pub fn checked_div(&self, rhs: &U256) -> (r: Option<U256>)
        ensures
            r is Some <==> rhs@ != 0,
            r matches Some(v) ==> v@ == self@ / rhs@,
    {
        if rhs.is_zero() {
            return None;
        }
        let (q, _r) = self.div_rem(rhs);
        Some(q)
    }

    /// `Some(self % rhs)` unless `rhs` is zero.
    pub fn checked_rem(&self, rhs: &U256) -> (r: Option<U256>)
        ensures
            r is Some <==> rhs@ != 0,
            r matches Some(v) ==> v@ == self@ % rhs@,
    {
        if rhs.is_zero() {
            return None;
        }
        let (_q, r) = self.div_rem(rhs);
        Some(r)
    }

    /// Binary long division: the quotient and remainder of `self / d`.
    pub fn div_rem(&self, d: &U256) -> (r: (U256, U256))
        requires
            d@ != 0,
        ensures
            r.0@ == self@ / d@,
            r.1@ == self@ % d@,
    {
        if self.hi == 0 && d.hi == 0 {
            return (U256::from_u128(self.lo / d.lo), U256::from_u128(self.lo % d.lo));
        }
        let mut q = U256::zero();
        let mut rem = U256::zero();
        let mut m = *self;
        let ghost mut p: nat = 0;
        let mut k: u32 = 0;
        proof {
            lemma_u256_bound(*self);
            lemma_u256_bound(*d);
            lemma_pow2_256();
            lemma2_to64();
        }
        while k < 256
            invariant
                k <= 256,
                0 < d@ < pow256(),
                self@ < pow256(),
                pow2(256) == pow256(),
                self@ * pow2(k as nat) == p * pow256() + m@,
                q@ * d@ + rem@ == p,
                rem@ < d@,
            decreases 256 - k,
        {
            let (top, m2) = m.shl1();
            let (carry, r2) = rem.shl1();
            let r3 = U256 { lo: r2.lo + top, hi: r2.hi };
            let ghost big: nat = (carry * pow256() + r3@) as nat;
            let ghost p2: nat = (2 * p + top) as nat;
            let ghost q_old: nat = q@;
            proof {
                assert(big == 2 * rem@ + top);
                lemma_pow2_unfold((k + 1) as nat);
                assert(self@ * pow2((k + 1) as nat) == p2 * pow256() + m2@) by (nonlinear_arith)
                    requires
                        self@ * pow2(k as nat) == p * pow256() + m@,
                        pow2((k + 1) as nat) == 2 * pow2(k as nat),
                        2 * m@ == top * pow256() + m2@,
                        p2 == 2 * p + top,
                ;
                if k + 1 < 256 {
                    lemma_pow2_strictly_increases((k + 1) as nat, 256);
                }
                assert(p2 * pow256() <= self@ * pow256()) by (nonlinear_arith)
                    requires
                        self@ * pow2((k + 1) as nat) == p2 * pow256() + m2@,
                        pow2((k + 1) as nat) <= pow256(),
                        m2@ >= 0,
                ;
                assert(p2 <= self@) by (nonlinear_arith)
                    requires
                        p2 * pow256() <= self@ * pow256(),
                        pow256() > 0,
                ;
                assert(2 * q_old * d@ <= p2) by (nonlinear_arith)
                    requires
                        q_old * d@ + rem@ == p,
                        p2 == 2 * p + top,
                        top >= 0,
                        rem@ >= 0,
                ;
            }
            let (qc, q2) = q.shl1();
            if carry == 1 || !r3.lt(d) {
                rem = r3.wrapping_sub(d);
                proof {
                    assert(rem@ == big - d@);
                    assert((2 * q_old + 1) * d@ <= p2) by (nonlinear_arith)
                        requires
                            big == 2 * (p - q_old * d@) + top,
                            p2 == 2 * p + top,
                            big >= d@,
                    ;
                    assert(2 * q_old + 1 <= p2) by (nonlinear_arith)
                        requires
                            (2 * q_old + 1) * d@ <= p2,
                            d@ >= 1,
                    ;
                    assert(qc == 0);
                }
                q = U256 { lo: q2.lo + 1, hi: q2.hi };
                proof {
                    assert(q@ == 2 * q_old + 1);
                    assert(q@ * d@ + rem@ == p2) by (nonlinear_arith)
                        requires
                            q@ == 2 * q_old + 1,
                            rem@ == big - d@,
                            big == 2 * (p - q_old * d@) + top,
                            p2 == 2 * p + top,
                    ;
                }
            } else {
                rem = r3;
                proof {
                    assert(carry == 0);
                    assert(2 * q_old <= p2) by (nonlinear_arith)
                        requires
                            2 * q_old * d@ <= p2,
                            d@ >= 1,
                    ;
                    assert(qc == 0);
                    assert(q2@ * d@ + rem@ == p2) by (nonlinear_arith)
                        requires
                            q2@ == 2 * q_old,
                            rem@ == big,
                            big == 2 * (p - q_old * d@) + top,
                            p2 == 2 * p + top,
                    ;
                }
                q = q2;
            }
            proof {
                p = p2;
            }
            m = m2;
            k = k + 1;
        }
        proof {
            lemma_u256_bound(m);
            assert(p == self@) by (nonlinear_arith)
                requires
                    self@ * pow256() == p * pow256() + m@,
                    m@ < pow256(),
                    m@ >= 0,
                    pow256() > 0,
            ;
            lemma_fundamental_div_mod_converse(self@ as int, d@ as int, q@ as int, rem@ as int);
        }
        (q, rem)
    }
}

/// 2^256 as a power of two.
proof fn lemma_pow2_256()
    ensures
        pow2(256) == pow256(),
{
    lemma2_to64_rest();
    lemma_pow2_adds(64, 64);
    lemma_pow2_adds(128, 128);
}

proof fn lemma_order(a: U256, b: U256)
    ensures
        (a@ < b@) == (a.hi < b.hi || (a.hi == b.hi && a.lo < b.lo)),
{
    if a.hi < b.hi {
        lemma_mul_inequality((a.hi + 1) as int, b.hi as int, pow128() as int);
        lemma_mul_is_distributive_add_other_way(pow128() as int, a.hi as int, 1);
    } else if a.hi > b.hi {
        lemma_mul_inequality((b.hi + 1) as int, a.hi as int, pow128() as int);
        lemma_mul_is_distributive_add_other_way(pow128() as int, b.hi as int, 1);
    }
}

/// `n` widened to 256 bits.
pub fn to_u256(n: u128) -> (r: U256)
    ensures
        r@ == n,
{
    U256 { lo: n, hi: 0 }
}

} // verus!
