//! Fixed-point decimals of the concentrated-liquidity pool: each holds an
//! integer `v` that stands for `v / 10^scale`.
use vstd::prelude::*;
use vstd::arithmetic::div_mod::*;
use vstd::arithmetic::mul::*;
use crate::u256::{U256, mul_wide, pow128, pow256, lemma_u256_bound};
use crate::errors::{ErrorCause, ErrSpec, TrackableError, agrees};

verus! {

/// 10^24, the unit of `Price` (scale 24).
pub const PRICE_ONE: u128 = 1_000_000_000_000_000_000_000_000;
/// 10^6, the unit of `Liquidity` (scale 6).
pub const LIQUIDITY_ONE: u128 = 1_000_000;
/// 10^12, the unit of `FixedPoint` (scale 12).
pub const FIXED_POINT_ONE: u128 = 1_000_000_000_000;
/// 10^18: the gap between the scales of `Price` and `Liquidity`.
pub const PRICE_LIQUIDITY_DENOMINATOR: u128 = 1_000_000_000_000_000_000;

/// 10^k
pub open spec fn pow10(k: nat) -> nat
    decreases k,
{
    if k == 0 { 1 } else { 10 * pow10((k - 1) as nat) }
}

/// 10^k for k <= 38.
pub fn pow10_exec(k: u32) -> (r: u128)
    requires
        k <= 38,
    ensures
        r == pow10(k as nat),
{
    let mut r: u128 = 1;
    let mut i: u32 = 0;
    while i < k
        invariant
            i <= k <= 38,
            r == pow10(i as nat),
        decreases k - i,
    {
        proof {
            lemma_pow10_bound(i as nat);
        }
        r = r * 10;
        i = i + 1;
    }
    r
}

/// Powers of ten up to 10^38 fit in a `u128`.
pub proof fn lemma_pow10_bound(k: nat)
    requires
        k <= 38,
    ensures
        pow10(k) <= 100_000_000_000_000_000_000_000_000_000_000_000_000,
        pow10(k) >= 1,
        k < 38 ==> pow10(k) * 10 <= 100_000_000_000_000_000_000_000_000_000_000_000_000,
{
    lemma_pow10_pos(k);
    lemma_pow10_mono(k);
    reveal_with_fuel(pow10, 39);
    assert(pow10(38) == 100_000_000_000_000_000_000_000_000_000_000_000_000);
    if k < 38 {
        lemma_pow10_mono(k + 1);
    }
}

pub(crate) proof fn lemma_pow10_pos(k: nat)
    ensures
        pow10(k) >= 1,
    decreases k,
{
    if k > 0 {
        lemma_pow10_pos((k - 1) as nat);
    }
}

proof fn lemma_pow10_mono(k: nat)
    requires
        k <= 38,
    ensures
        pow10(k) <= pow10(38),
    decreases 38 - k,
{
    if k < 38 {
        lemma_pow10_mono(k + 1);
        lemma_pow10_pos(k);
    }
}

/// A square root of a price, scale 24.
#[derive(Clone, Copy, Debug, PartialEq, Eq, Default)]
pub struct Price {
    pub v: u128,
}

/// Pool liquidity, scale 6.
#[derive(Clone, Copy, Debug, PartialEq, Eq, Default)]
pub struct Liquidity {
    pub v: u128,
}

/// A fraction such as a fee, scale 12.
#[derive(Clone, Copy, Debug, PartialEq, Eq, Default)]
pub struct FixedPoint {
    pub v: u128,
}

/// Accumulated fees per unit of liquidity, scale 28.
#[derive(Clone, Copy, Debug, PartialEq, Eq, Default)]
pub struct FeeGrowth {
    pub v: u128,
}

/// A number of tokens, scale 0.
#[derive(Clone, Copy, Debug, PartialEq, Eq, Default)]
pub struct TokenAmount(pub u64);

/// `floor(a * b / d)` of a product computed in 256 bits.
pub open spec fn mul_div(a: nat, b: nat, d: nat) -> nat {
    a * b / d
}

/// `ceil(a * b / d)` as the pool computes it: `(a * b + d - 1) / d`.
pub open spec fn mul_div_up(a: nat, b: nat, d: nat) -> nat {
    (a * b + d - 1) as nat / d
}

/// `self * other / other_one` in 256 bits, the shared form of `big_mul_to_value`.
fn mul_to_value(a: u128, b: u128, one: u128) -> (r: U256)
    requires
        one > 0,
    ensures
        r@ == mul_div(a as nat, b as nat, one as nat),
{
    let w = mul_wide(a, b);
    let o = U256::from_u128(one);
    let (q, _) = w.div_rem(&o);
    q
}

/// `(self * other + other_one - 1) / other_one` in 256 bits.
fn mul_to_value_up(a: u128, b: u128, one: u128) -> (r: U256)
    requires
        one > 0,
    ensures
        r@ == mul_div_up(a as nat, b as nat, one as nat),
{
    let w = mul_wide(a, b);
    proof {
        lemma_mul_upper_bound(a as int, u128::MAX as int, b as int, u128::MAX as int);
        assert(u128::MAX as int * u128::MAX as int + u128::MAX < pow256()) by (nonlinear_arith);
    }
    let s = w.checked_add(&U256::from_u128(one - 1)).unwrap();
    let (q, _) = s.div_rem(&U256::from_u128(one));
    q
}

impl Price {
    pub fn new(v: u128) -> (r: Price)
        ensures
            r.v == v,
    {
        Price { v }
    }

    pub fn get(&self) -> (r: u128)
        ensures
            r == self.v,
    {
        self.v
    }

    pub fn one() -> (r: u128)
        ensures
            r == PRICE_ONE,
    {
        PRICE_ONE
    }

    pub fn almost_one() -> (r: u128)
        ensures
            r == PRICE_ONE - 1,
    {
        PRICE_ONE - 1
    }

    pub fn is_zero(&self) -> (r: bool)
        ensures
            r == (self.v == 0),
    {
        self.v == 0
    }

    /// `n` whole units.
    pub fn from_integer(n: u128) -> (r: Price)
        requires
            n * PRICE_ONE <= u128::MAX,
        ensures
            r.v == n * PRICE_ONE,
    {
        Price { v: n * PRICE_ONE }
    }

    /// `val / 10^scale` held at scale 24.
    pub fn from_scale(val: u128, scale: u8) -> (r: Price)
        requires
            scale <= 48,
            scale < 24 ==> val * pow10((24 - scale) as nat) <= u128::MAX,
        ensures
            scale < 24 ==> r.v == val * pow10((24 - scale) as nat),
            scale >= 24 ==> r.v == val as nat / pow10((scale - 24) as nat),
    {
        if scale < 24 {
            let m = pow10_exec((24 - scale) as u32);
            Price { v: val * m }
        } else {
            let d = pow10_exec((scale - 24) as u32);
            proof {
                lemma_pow10_bound((scale - 24) as nat);
            }
            Price { v: val / d }
        }
    }

    /// The sum, or `CheckedAdd` when it does not fit.
    pub fn checked_add(self, rhs: Price) -> (r: Result<Price, ErrorCause>)
        ensures
            r == (if self.v + rhs.v <= u128::MAX {
                Ok::<Price, ErrorCause>(Price { v: (self.v + rhs.v) as u128 })
            } else {
                Err(ErrorCause::CheckedAdd)
            }),
    {
        match self.v.checked_add(rhs.v) {
            Some(v) => Ok(Price { v }),
            None => Err(ErrorCause::CheckedAdd),
        }
    }

    /// The difference, or `CheckedSub` when `rhs` is larger.
    pub fn checked_sub(self, rhs: Price) -> (r: Result<Price, ErrorCause>)
        ensures
            r == (if rhs.v <= self.v {
                Ok::<Price, ErrorCause>(Price { v: (self.v - rhs.v) as u128 })
            } else {
                Err(ErrorCause::CheckedSub)
            }),
    {
        match self.v.checked_sub(rhs.v) {
            Some(v) => Ok(Price { v }),
            None => Err(ErrorCause::CheckedSub),
        }
    }

    /// `self * liquidity` at scale 24, rounded down, in 256 bits.
    pub fn big_mul_to_value_liquidity(self, rhs: Liquidity) -> (r: U256)
        ensures
            r@ == mul_div(self.v as nat, rhs.v as nat, LIQUIDITY_ONE as nat),
    {
        mul_to_value(self.v, rhs.v, LIQUIDITY_ONE)
    }

    /// `self * liquidity` at scale 24, rounded up, in 256 bits.
    pub fn big_mul_to_value_up_liquidity(self, rhs: Liquidity) -> (r: U256)
        ensures
            r@ == mul_div_up(self.v as nat, rhs.v as nat, LIQUIDITY_ONE as nat),
    {
        mul_to_value_up(self.v, rhs.v, LIQUIDITY_ONE)
    }

    /// `self * price` at scale 24, rounded down, in 256 bits.
    pub fn big_mul_to_value_price(self, rhs: Price) -> (r: U256)
        ensures
            r@ == mul_div(self.v as nat, rhs.v as nat, PRICE_ONE as nat),
    {
        mul_to_value(self.v, rhs.v, PRICE_ONE)
    }

    /// `self * price` at scale 24, rounded up, in 256 bits.
    pub fn big_mul_to_value_up_price(self, rhs: Price) -> (r: U256)
        ensures
            r@ == mul_div_up(self.v as nat, rhs.v as nat, PRICE_ONE as nat),
    {
        mul_to_value_up(self.v, rhs.v, PRICE_ONE)
    }

    /// `self * amount` at scale 24, in 256 bits.
    pub fn big_mul_to_value_token(self, rhs: TokenAmount) -> (r: U256)
        ensures
            r@ == self.v as nat * rhs.0 as nat,
    {
        mul_wide(self.v, rhs.0 as u128)
    }

    /// `self * 10^24 / rhs`, rounded down.
    pub fn big_div(self, rhs: Price) -> (r: Price)
        requires
            rhs.v > 0,
            mul_div(self.v as nat, PRICE_ONE as nat, rhs.v as nat) <= u128::MAX,
        ensures
            r.v == mul_div(self.v as nat, PRICE_ONE as nat, rhs.v as nat),
    {
        let w = mul_wide(self.v, PRICE_ONE);
        let (q, _) = w.div_rem(&U256::from_u128(rhs.v));
        proof {
            lemma_u256_bound(q);
            if q.hi > 0 {
                lemma_mul_inequality(1, q.hi as int, pow128() as int);
            }
        }
        Price { v: q.lo }
    }

    /// `amount` held at scale 24, or `FromScaleOverflow` when it does not fit.
    pub fn checked_from_token(amount: TokenAmount) -> (r: Result<Price, ErrorCause>)
        ensures
            r == (if amount.0 as nat * PRICE_ONE <= u128::MAX {
                Ok::<Price, ErrorCause>(Price { v: (amount.0 as nat * PRICE_ONE) as u128 })
            } else {
                Err(ErrorCause::FromScaleOverflow)
            }),
    {
        match (amount.0 as u128).checked_mul(PRICE_ONE) {
            Some(v) => Ok(Price { v }),
            None => Err(ErrorCause::FromScaleOverflow),
        }
    }

    /// A fixed-point value held at scale 24.
    pub fn from_fixed_point(fp: FixedPoint) -> (r: Price)
        requires
            fp.v * 1_000_000_000_000 <= u128::MAX,
        ensures
            r.v == fp.v * 1_000_000_000_000,
    {
        Price { v: fp.v * 1_000_000_000_000 }
    }

    /// `self * 10^24 / rhs` rounded down, with the errors of the pool math.
    pub fn checked_big_div_by_number(self, rhs: U256) -> (r: Result<Price, ErrorCause>)
        ensures
            r == spec_checked_big_div_by_number(self.v as nat, rhs@),
    {
        if rhs.is_zero() {
            return Err(ErrorCause::DivByNumberDiv);
        }
        let w = mul_wide(self.v, PRICE_ONE);
        let (q, _) = w.div_rem(&rhs);
        if q.hi != 0 {
            proof {
                lemma_mul_inequality(1, q.hi as int, pow128() as int);
            }
            Err(ErrorCause::DivByNumberCast)
        } else {
            Ok(Price { v: q.lo })
        }
    }

    /// `(self * 10^24 + rhs - 1) / rhs`, with the errors of the pool math.
    pub fn checked_big_div_by_number_up(self, rhs: U256) -> (r: Result<Price, ErrorCause>)
        ensures
            r == spec_checked_big_div_by_number_up(self.v as nat, rhs@),
    {
        if rhs.is_zero() {
            return Err(ErrorCause::DivByNumberUpSub);
        }
        let w = mul_wide(self.v, PRICE_ONE);
        let rm1 = rhs.wrapping_sub(&U256::from_u128(1));
        match w.checked_add(&rm1) {
            None => Err(ErrorCause::DivByNumberUpAdd),
            Some(s) => {
                let (q, _) = s.div_rem(&rhs);
                if q.hi != 0 {
                    proof {
                        lemma_mul_inequality(1, q.hi as int, pow128() as int);
                    }
                    Err(ErrorCause::DivByNumberUpCast)
                } else {
                    Ok(Price { v: q.lo })
                }
            },
        }
    }

    /// `floor(floor(n * 10^24 / d) / 10^24)` as a token amount; `None` on overflow,
    /// a zero denominator or a result above `u64::MAX`.
    pub fn big_div_values_to_token(nominator: U256, denominator: U256) -> (r: Option<TokenAmount>)
        ensures
            r == spec_div_values_to_token(nominator@, denominator@),
    {
        let one = U256::from_u128(PRICE_ONE);
        let x = match nominator.checked_mul(&one) {
            Some(x) => x,
            None => return None,
        };
        let y = match x.checked_div(&denominator) {
            Some(y) => y,
            None => return None,
        };
        let (z, _) = y.div_rem(&one);
        if z.hi == 0 && z.lo <= u64::MAX as u128 {
            Some(TokenAmount(z.lo as u64))
        } else {
            proof {
                if z.hi != 0 {
                    lemma_mul_inequality(1, z.hi as int, pow128() as int);
                }
            }
            None
        }
    }

    /// The rounded-up counterpart of `big_div_values_to_token`.
    pub fn big_div_values_to_token_up(nominator: U256, denominator: U256) -> (r: Option<TokenAmount>)
        ensures
            r == spec_div_values_to_token_up(nominator@, denominator@),
    {
        let one = U256::from_u128(PRICE_ONE);
        let x = match nominator.checked_mul(&one) {
            Some(x) => x,
            None => return None,
        };
        let dm1 = match denominator.checked_sub(&U256::from_u128(1)) {
            Some(d) => d,
            None => return None,
        };
        let x2 = match x.checked_add(&dm1) {
            Some(v) => v,
            None => return None,
        };
        let y = match x2.checked_div(&denominator) {
            Some(y) => y,
            None => return None,
        };
        let y2 = match y.checked_add(&U256::from_u128(PRICE_ONE - 1)) {
            Some(v) => v,
            None => return None,
        };
        let (z, _) = y2.div_rem(&one);
        if z.hi == 0 && z.lo <= u64::MAX as u128 {
            Some(TokenAmount(z.lo as u64))
        } else {
            proof {
                if z.hi != 0 {
                    lemma_mul_inequality(1, z.hi as int, pow128() as int);
                }
            }
            None
        }
    }

    /// `(n * 10^24 + d - 1) / d` as a price, with the errors of the pool math.
    pub fn checked_big_div_values_up(nominator: U256, denominator: U256) -> (r: Result<Price, TrackableError>)
        ensures
            agrees(r, spec_checked_big_div_values_up(nominator@, denominator@)),
    {
        let one = U256::from_u128(PRICE_ONE);
        let x = match nominator.checked_mul(&one) {
            Some(x) => x,
            None => return Err(TrackableError::new(ErrorCause::Mul, "checked_big_div_values_up")),
        };
        let dm1 = match denominator.checked_sub(&U256::from_u128(1)) {
            Some(d) => d,
            None => return Err(TrackableError::new(ErrorCause::Sub, "checked_big_div_values_up")),
        };
        let x2 = match x.checked_add(&dm1) {
            Some(v) => v,
            None => return Err(TrackableError::new(ErrorCause::Add, "checked_big_div_values_up")),
        };
        let y = match x2.checked_div(&denominator) {
            Some(y) => y,
            None => return Err(TrackableError::new(ErrorCause::Div, "checked_big_div_values_up")),
        };
        if y.hi == 0 {
            Ok(Price { v: y.lo })
        } else {
            proof {
                lemma_mul_inequality(1, y.hi as int, pow128() as int);
            }
            Err(TrackableError::new(ErrorCause::CastToPrice, "checked_big_div_values_up"))
        }
    }
}

/// `v * 10^24 / rhs` rounded down, or the error the pool math reports.
pub open spec fn spec_checked_big_div_by_number(v: nat, rhs: nat) -> Result<Price, ErrorCause> {
    if rhs == 0 {
        Err(ErrorCause::DivByNumberDiv)
    } else if (v * (PRICE_ONE as nat)) / rhs > u128::MAX {
        Err(ErrorCause::DivByNumberCast)
    } else {
        Ok(Price { v: ((v * (PRICE_ONE as nat)) / rhs) as u128 })
    }
}

/// `(v * 10^24 + rhs - 1) / rhs`, or the error the pool math reports.
pub open spec fn spec_checked_big_div_by_number_up(v: nat, rhs: nat) -> Result<Price, ErrorCause> {
    if rhs == 0 {
        Err(ErrorCause::DivByNumberUpSub)
    } else if v * (PRICE_ONE as nat) + rhs - 1 >= pow256() {
        Err(ErrorCause::DivByNumberUpAdd)
    } else if (v * (PRICE_ONE as nat) + rhs - 1) as nat / rhs > u128::MAX {
        Err(ErrorCause::DivByNumberUpCast)
    } else {
        Ok(Price { v: ((v * (PRICE_ONE as nat) + rhs - 1) as nat / rhs) as u128 })
    }
}

pub open spec fn spec_div_values_to_token(n: nat, d: nat) -> Option<TokenAmount> {
    if n * (PRICE_ONE as nat) >= pow256() || d == 0 {
        None
    } else if (n * (PRICE_ONE as nat)) / d / (PRICE_ONE as nat) > u64::MAX {
        None
    } else {
        Some(TokenAmount(((n * (PRICE_ONE as nat)) / d / (PRICE_ONE as nat)) as u64))
    }
}

pub open spec fn spec_div_values_to_token_up(n: nat, d: nat) -> Option<TokenAmount> {
    let x = n * (PRICE_ONE as nat);
    if x >= pow256() || d == 0 || x + d - 1 >= pow256() {
        None
    } else if ((x + d - 1) as nat / d) + PRICE_ONE - 1 >= pow256() {
        None
    } else {
        let t = (((x + d - 1) as nat / d) + PRICE_ONE - 1) as nat / (PRICE_ONE as nat);
        if t > u64::MAX { None } else { Some(TokenAmount(t as u64)) }
    }
}

pub open spec fn spec_checked_big_div_values_up(n: nat, d: nat) -> Result<Price, ErrSpec> {
    let x = n * (PRICE_ONE as nat);
    if x >= pow256() {
        Err((ErrorCause::Mul, 1))
    } else if d == 0 {
        Err((ErrorCause::Sub, 1))
    } else if x + d - 1 >= pow256() {
        Err((ErrorCause::Add, 1))
    } else if (x + d - 1) as nat / d > u128::MAX {
        Err((ErrorCause::CastToPrice, 1))
    } else {
        Ok(Price { v: ((x + d - 1) as nat / d) as u128 })
    }
}

impl Liquidity {
    pub fn new(v: u128) -> (r: Liquidity)
        ensures
            r.v == v,
    {
        Liquidity { v }
    }

    pub fn get(&self) -> (r: u128)
        ensures
            r == self.v,
    {
        self.v
    }

    pub fn is_zero(&self) -> (r: bool)
        ensures
            r == (self.v == 0),
    {
        self.v == 0
    }

    pub fn max_instance() -> (r: Liquidity)
        ensures
            r.v == u128::MAX,
    {
        Liquidity { v: u128::MAX }
    }

    /// `n` whole units.
    pub fn from_integer(n: u128) -> (r: Liquidity)
        requires
            n * LIQUIDITY_ONE <= u128::MAX,
        ensures
            r.v == n * LIQUIDITY_ONE,
    {
        Liquidity { v: n * LIQUIDITY_ONE }
    }

    /// The sum, or `CheckedAdd` when it does not fit.
    pub fn checked_add(self, rhs: Liquidity) -> (r: Result<Liquidity, ErrorCause>)
        ensures
            r == (if self.v + rhs.v <= u128::MAX {
                Ok::<Liquidity, ErrorCause>(Liquidity { v: (self.v + rhs.v) as u128 })
            } else {
                Err(ErrorCause::CheckedAdd)
            }),
    {
        match self.v.checked_add(rhs.v) {
            Some(v) => Ok(Liquidity { v }),
            None => Err(ErrorCause::CheckedAdd),
        }
    }

    /// The difference, or `CheckedSub` when `rhs` is larger.
    pub fn checked_sub(self, rhs: Liquidity) -> (r: Result<Liquidity, ErrorCause>)
        ensures
            r == (if rhs.v <= self.v {
                Ok::<Liquidity, ErrorCause>(Liquidity { v: (self.v - rhs.v) as u128 })
            } else {
                Err(ErrorCause::CheckedSub)
            }),
    {
        match self.v.checked_sub(rhs.v) {
            Some(v) => Ok(Liquidity { v }),
            None => Err(ErrorCause::CheckedSub),
        }
    }
}

impl FixedPoint {
    pub fn new(v: u128) -> (r: FixedPoint)
        ensures
            r.v == v,
    {
        FixedPoint { v }
    }

    pub fn get(&self) -> (r: u128)
        ensures
            r == self.v,
    {
        self.v
    }

    /// `n` whole units.
    pub fn from_integer(n: u128) -> (r: FixedPoint)
        requires
            n * FIXED_POINT_ONE <= u128::MAX,
        ensures
            r.v == n * FIXED_POINT_ONE,
    {
        FixedPoint { v: n * FIXED_POINT_ONE }
    }

    /// `val / 10^scale` held at scale 12.
    pub fn from_scale(val: u128, scale: u8) -> (r: FixedPoint)
        requires
            scale <= 48,
            scale < 12 ==> val * pow10((12 - scale) as nat) <= u128::MAX,
        ensures
            scale < 12 ==> r.v == val * pow10((12 - scale) as nat),
            scale >= 12 ==> r.v == val as nat / pow10((scale - 12) as nat),
    {
        if scale < 12 {
            let m = pow10_exec((12 - scale) as u32);
            FixedPoint { v: val * m }
        } else {
            let d = pow10_exec((scale - 12) as u32);
            proof {
                lemma_pow10_bound((scale - 12) as nat);
            }
            FixedPoint { v: val / d }
        }
    }

    /// The difference, or `CheckedSub` when `rhs` is larger.
    pub fn checked_sub(self, rhs: FixedPoint) -> (r: Result<FixedPoint, ErrorCause>)
        ensures
            r == (if rhs.v <= self.v {
                Ok::<FixedPoint, ErrorCause>(FixedPoint { v: (self.v - rhs.v) as u128 })
            } else {
                Err(ErrorCause::CheckedSub)
            }),
    {
        match self.v.checked_sub(rhs.v) {
            Some(v) => Ok(FixedPoint { v }),
            None => Err(ErrorCause::CheckedSub),
        }
    }

    /// `self * rhs / 10^12` in 128 bits.
    pub fn mul(self, rhs: FixedPoint) -> (r: FixedPoint)
        requires
            self.v * rhs.v <= u128::MAX,
        ensures
            r.v == (self.v as nat * rhs.v as nat) / (FIXED_POINT_ONE as nat),
    {
        FixedPoint { v: self.v * rhs.v / FIXED_POINT_ONE }
    }

    /// `self * 10^12 / rhs` rounded down, computed in 256 bits.
    pub fn big_div(self, rhs: FixedPoint) -> (r: FixedPoint)
        requires
            rhs.v > 0,
            mul_div(self.v as nat, FIXED_POINT_ONE as nat, rhs.v as nat) <= u128::MAX,
        ensures
            r.v == mul_div(self.v as nat, FIXED_POINT_ONE as nat, rhs.v as nat),
    {
        let w = mul_wide(self.v, FIXED_POINT_ONE);
        let (q, _) = w.div_rem(&U256::from_u128(rhs.v));
        proof {
            if q.hi > 0 {
                lemma_mul_inequality(1, q.hi as int, pow128() as int);
            }
        }
        FixedPoint { v: q.lo }
    }
}

impl FeeGrowth {
    pub fn new(v: u128) -> (r: FeeGrowth)
        ensures
            r.v == v,
    {
        FeeGrowth { v }
    }

    /// `self - rhs` wrapping around 2^128.
    pub fn unchecked_sub(self, rhs: FeeGrowth) -> (r: FeeGrowth)
        ensures
            r.v == if rhs.v <= self.v { self.v - rhs.v } else { pow128() + self.v - rhs.v },
    {
        FeeGrowth { v: self.v.wrapping_sub(rhs.v) }
    }
}

impl TokenAmount {
    pub fn new(v: u64) -> (r: TokenAmount)
        ensures
            r.0 == v,
    {
        TokenAmount(v)
    }

    pub fn get(&self) -> (r: u64)
        ensures
            r == self.0,
    {
        self.0
    }

    pub fn is_zero(&self) -> (r: bool)
        ensures
            r == (self.0 == 0),
    {
        self.0 == 0
    }

    pub fn from_integer(n: u64) -> (r: TokenAmount)
        ensures
            r.0 == n,
    {
        TokenAmount(n)
    }

    pub fn max_instance() -> (r: TokenAmount)
        ensures
            r.0 == u64::MAX,
    {
        TokenAmount(u64::MAX)
    }

    pub fn max_value() -> (r: u64)
        ensures
            r == u64::MAX,
    {
        u64::MAX
    }

    /// A liquidity value in whole tokens, rounded down.
    pub fn from_liquidity(l: Liquidity) -> (r: TokenAmount)
        requires
            l.v / LIQUIDITY_ONE <= u64::MAX,
        ensures
            r.0 == l.v / LIQUIDITY_ONE,
    {
        TokenAmount((l.v / LIQUIDITY_ONE) as u64)
    }

    /// The sum, or `CheckedAdd` when it does not fit.
    pub fn checked_add(self, rhs: TokenAmount) -> (r: Result<TokenAmount, ErrorCause>)
        ensures
            r == (if self.0 + rhs.0 <= u64::MAX {
                Ok::<TokenAmount, ErrorCause>(TokenAmount((self.0 + rhs.0) as u64))
            } else {
                Err(ErrorCause::CheckedAdd)
            }),
    {
        match self.0.checked_add(rhs.0) {
            Some(v) => Ok(TokenAmount(v)),
            None => Err(ErrorCause::CheckedAdd),
        }
    }

    /// The difference, or `CheckedSub` when `rhs` is larger.
    pub fn checked_sub(self, rhs: TokenAmount) -> (r: Result<TokenAmount, ErrorCause>)
        ensures
            r == (if rhs.0 <= self.0 {
                Ok::<TokenAmount, ErrorCause>(TokenAmount((self.0 - rhs.0) as u64))
            } else {
                Err(ErrorCause::CheckedSub)
            }),
    {
        match self.0.checked_sub(rhs.0) {
            Some(v) => Ok(TokenAmount(v)),
            None => Err(ErrorCause::CheckedSub),
        }
    }

    /// `self * fraction`, rounded down.
    pub fn big_mul_fixed(self, rhs: FixedPoint) -> (r: TokenAmount)
        requires
            mul_div(self.0 as nat, rhs.v as nat, FIXED_POINT_ONE as nat) <= u64::MAX,
        ensures
            r.0 == mul_div(self.0 as nat, rhs.v as nat, FIXED_POINT_ONE as nat),
    {
        let q = mul_to_value(self.0 as u128, rhs.v, FIXED_POINT_ONE);
        proof {
            if q.hi > 0 {
                lemma_mul_inequality(1, q.hi as int, pow128() as int);
            }
        }
        TokenAmount(q.lo as u64)
    }

    /// `self * fraction`, rounded up.
    /// `self * rhs`, rounded up, or none when it does not fit in a token amount.
    pub fn checked_big_mul_up_fixed(self, rhs: FixedPoint) -> (r: Option<TokenAmount>)
        ensures
            mul_div_up(self.0 as nat, rhs.v as nat, FIXED_POINT_ONE as nat) <= u64::MAX ==> r == Some(
                TokenAmount(mul_div_up(self.0 as nat, rhs.v as nat, FIXED_POINT_ONE as nat) as u64),
            ),
            mul_div_up(self.0 as nat, rhs.v as nat, FIXED_POINT_ONE as nat) > u64::MAX ==> r is None,
    {
        let q = mul_to_value_up(self.0 as u128, rhs.v, FIXED_POINT_ONE);
        if q.hi == 0 && q.lo <= u64::MAX as u128 {
            Some(TokenAmount(q.lo as u64))
        } else {
            proof {
                if q.hi > 0 {
                    lemma_mul_inequality(1, q.hi as int, pow128() as int);
                }
            }
            None
        }
    }

    pub fn big_mul_up_fixed(self, rhs: FixedPoint) -> (r: TokenAmount)
        requires
            mul_div_up(self.0 as nat, rhs.v as nat, FIXED_POINT_ONE as nat) <= u64::MAX,
        ensures
            r.0 == mul_div_up(self.0 as nat, rhs.v as nat, FIXED_POINT_ONE as nat),
    {
        let q = mul_to_value_up(self.0 as u128, rhs.v, FIXED_POINT_ONE);
        proof {
            if q.hi > 0 {
                lemma_mul_inequality(1, q.hi as int, pow128() as int);
            }
        }
        TokenAmount(q.lo as u64)
    }
}

} // verus!
