//! Swap-step math of the concentrated-liquidity pool: prices at ticks, token
//! deltas between prices, the next price after an amount, and one swap step.
use vstd::prelude::*;
use vstd::arithmetic::div_mod::*;
use vstd::arithmetic::mul::*;
use vstd::arithmetic::power2::*;
use crate::u256::{U256, pow256, lemma_u256_bound};
use crate::errors::{ErrorCause, ErrSpec, TrackableError, agrees, mark_spec};
use crate::decimals::{
    Price, Liquidity, FixedPoint, FeeGrowth, TokenAmount, PRICE_ONE, LIQUIDITY_ONE,
    FIXED_POINT_ONE, PRICE_LIQUIDITY_DENOMINATOR, mul_div, mul_div_up, spec_div_values_to_token,
    spec_div_values_to_token_up, spec_checked_big_div_values_up, spec_checked_big_div_by_number,
    spec_checked_big_div_by_number_up,
};
use crate::tickmap::{
    Tickmap, get_search_limit, spec_search_limit, up_search_ok, down_search_ok, spec_next_initialized,
    spec_prev_initialized, up_range, down_range, position, tick_at_position,
};
use crate::int_ops::lemma_trunc_div_bounds;

verus! {

/// Tick index whose price is about sqrt(2^64).
pub const MAX_TICK: i32 = 221_818;
/// Ticks a tickmap can hold on each side of zero, in units of the spacing.
pub const TICK_LIMIT: i32 = 44_364;
/// The square root price at `MAX_TICK`.
pub const MAX_SQRT_PRICE: u128 = 65535383934512647000000000000;
/// The square root price at `-MAX_TICK`.
pub const MIN_SQRT_PRICE: u128 = 15258932000000000000;

/// Result of one swap step.
#[derive(Clone, Copy, Debug, PartialEq, Eq)]
pub struct SwapResult {
    pub next_price_sqrt: Price,
    pub amount_in: TokenAmount,
    pub amount_out: TokenAmount,
    pub fee_amount: TokenAmount,
}

/// The pool fields the swap math reads and writes.
#[derive(Clone, Copy, Debug, PartialEq, Eq, Default)]
pub struct Pool {
    pub liquidity: Liquidity,
    pub sqrt_price: Price,
    pub current_tick_index: i32,
    pub fee_growth_global_x: FeeGrowth,
    pub fee_growth_global_y: FeeGrowth,
    pub fee: FixedPoint,
    pub tick_spacing: u16,
}

/// An initialized tick of the pool.
#[derive(Clone, Copy, Debug, PartialEq, Eq, Default)]
pub struct Tick {
    pub index: i32,
    /// true means positive
    pub sign: bool,
    pub liquidity_change: Liquidity,
    pub liquidity_gross: Liquidity,
    pub sqrt_price: Price,
    pub fee_growth_outside_x: FeeGrowth,
    pub fee_growth_outside_y: FeeGrowth,
    pub seconds_per_liquidity_outside: FixedPoint,
    pub seconds_outside: u64,
    pub bump: u8,
}

// ---------------------------------------------------------------------------
// Price at a tick

/// sqrt(1.0001)^(2^i) at scale 12, the factor for bit `i` of a tick.
pub open spec fn sqrt_factor(i: nat) -> nat {
    if i == 0 { 1000049998750 }
    else if i == 1 { 1000100000000 }
    else if i == 2 { 1000200010000 }
    else if i == 3 { 1000400060004 }
    else if i == 4 { 1000800280056 }
    else if i == 5 { 1001601200560 }
    else if i == 6 { 1003204964963 }
    else if i == 7 { 1006420201726 }
    else if i == 8 { 1012881622442 }
    else if i == 9 { 1025929181080 }
    else if i == 10 { 1052530684591 }
    else if i == 11 { 1107820842005 }
    else if i == 12 { 1227267017980 }
    else if i == 13 { 1506184333421 }
    else if i == 14 { 2268591246242 }
    else if i == 15 { 5146506242525 }
    else if i == 16 { 26486526504348 }
    else { 701536086265529 }
}

fn sqrt_factor_exec(i: u32) -> (r: u128)
    requires
        i < 18,
    ensures
        r == sqrt_factor(i as nat),
{
    if i == 0 { 1000049998750 }
    else if i == 1 { 1000100000000 }
    else if i == 2 { 1000200010000 }
    else if i == 3 { 1000400060004 }
    else if i == 4 { 1000800280056 }
    else if i == 5 { 1001601200560 }
    else if i == 6 { 1003204964963 }
    else if i == 7 { 1006420201726 }
    else if i == 8 { 1012881622442 }
    else if i == 9 { 1025929181080 }
    else if i == 10 { 1052530684591 }
    else if i == 11 { 1107820842005 }
    else if i == 12 { 1227267017980 }
    else if i == 13 { 1506184333421 }
    else if i == 14 { 2268591246242 }
    else if i == 15 { 5146506242525 }
    else if i == 16 { 26486526504348 }
    else { 701536086265529 }
}

/// The running product when every bit below `i` is set: an upper bound.
pub open spec fn factor_bound(i: nat) -> nat {
    if i == 0 { 1000000000000 }
    else if i == 1 { 1000049998750 }
    else if i == 2 { 1000150003749 }
    else if i == 3 { 1000350043751 }
    else if i == 4 { 1000750243793 }
    else if i == 5 { 1001551124254 }
    else if i == 6 { 1003154808475 }
    else if i == 7 { 1006369884488 }
    else if i == 8 { 1012830982157 }
    else if i == 9 { 1025877888466 }
    else if i == 10 { 1052478062002 }
    else if i == 11 { 1107765455115 }
    else if i == 12 { 1227205659229 }
    else if i == 13 { 1506109029850 }
    else if i == 14 { 2268477825183 }
    else if i == 15 { 5146248936504 }
    else if i == 16 { 26485202277305 }
    else if i == 17 { 701501012090856 }
    else { 492128274533526656 }
}

proof fn lemma_factor_bound_step(i: nat)
    requires
        i < 18,
    ensures
        factor_bound(i) * sqrt_factor(i) / 1_000_000_000_000 == factor_bound(i + 1),
        factor_bound(i) * sqrt_factor(i) <= 400_000_000_000_000_000_000_000_000_000_000,
        sqrt_factor(i) >= 1_000_000_000_000,
        factor_bound(i) <= factor_bound(i + 1),
{
}

/// The product, at scale 12, of the factors of the set bits of `t` below bit `i`,
/// truncated after each multiplication.
pub open spec fn price_fp_product(t: nat, i: nat) -> nat
    decreases i,
{
    if i == 0 {
        1_000_000_000_000
    } else {
        let p = price_fp_product(t, (i - 1) as nat);
        if (t / pow2((i - 1) as nat)) % 2 == 1 {
            p * sqrt_factor((i - 1) as nat) / 1_000_000_000_000
        } else {
            p
        }
    }
}

pub open spec fn abs_tick(t: int) -> nat {
    if t >= 0 { t as nat } else { (-t) as nat }
}

/// The square root price at `tick` as the pool computes it (scale 24).
pub open spec fn spec_price_sqrt(tick: int) -> nat {
    let p = price_fp_product(abs_tick(tick), 18);
    if tick >= 0 {
        p * 1_000_000_000_000
    } else {
        (1_000_000_000_000_000_000_000_000nat / p) * 1_000_000_000_000
    }
}

/// The factors of the set bits of `u` applied to `p` from bit 0 upward, the
/// factor of bit 0 being `sqrt_factor(j)`, over `m` bits, truncated after each
/// multiplication.
pub open spec fn factor_walk(p: nat, u: nat, j: nat, m: nat) -> nat
    decreases m,
{
    if m == 0 {
        p
    } else {
        factor_walk(
            if u % 2 == 1 { p * sqrt_factor(j) / 1_000_000_000_000 } else { p },
            u / 2,
            j + 1,
            (m - 1) as nat,
        )
    }
}

/// A walk over no bits leaves its start.
proof fn lemma_factor_walk_empty(p: nat, u: nat, j: nat)
    ensures
        factor_walk(p, u, j, 0) == p,
{
}

/// The rest of the product of a tick's factors, from bit `i` on.
proof fn lemma_factor_walk_is_product(t: nat, i: nat, m: nat)
    ensures
        factor_walk(price_fp_product(t, i), t / pow2(i), i, m) == price_fp_product(t, i + m),
    decreases m,
{
    if m > 0 {
        lemma_pow2_pos(i);
        lemma_pow2_unfold(i + 1);
        lemma_div_denominator(t as int, pow2(i) as int, 2);
        lemma_mul_is_commutative(pow2(i) as int, 2);
        assert(t / pow2(i + 1) == (t / pow2(i)) / 2);
        assert(price_fp_product(t, i + 1) == if (t / pow2(i)) % 2 == 1 {
            price_fp_product(t, i) * sqrt_factor(i) / 1_000_000_000_000
        } else {
            price_fp_product(t, i)
        });
        assert(factor_walk(price_fp_product(t, i), t / pow2(i), i, m) == factor_walk(
            price_fp_product(t, i + 1),
            (t / pow2(i)) / 2,
            i + 1,
            (m - 1) as nat,
        ));
        lemma_factor_walk_is_product(t, i + 1, (m - 1) as nat);
        assert(((i + 1) + (m - 1) as nat) as nat == i + m);
    } else {
        lemma_factor_walk_empty(price_fp_product(t, i), t / pow2(i), i);
    }
}

/// The product of a tick's factors as a walk over its bits.
proof fn lemma_product_is_walk(t: nat)
    ensures
        price_fp_product(t, 18) == factor_walk(1_000_000_000_000, t, 0, 18),
{
    lemma_factor_walk_is_product(t, 0, 18);
    lemma2_to64();
}

/// A walk from the bounds of the table stays within the table.
proof fn lemma_factor_walk_bounds(p: nat, u: nat, j: nat, m: nat)
    requires
        j + m <= 18,
        1_000_000_000_000 <= p <= factor_bound(j),
    ensures
        1_000_000_000_000 <= factor_walk(p, u, j, m) <= factor_bound(j + m),
    decreases m,
{
    if m > 0 {
        lemma_factor_bound_step(j);
        let f = sqrt_factor(j);
        let q = if u % 2 == 1 { p * f / 1_000_000_000_000 } else { p };
        if u % 2 == 1 {
            lemma_mul_inequality(p as int, factor_bound(j) as int, f as int);
            lemma_div_is_ordered((p * f) as int, (factor_bound(j) * f) as int, 1_000_000_000_000);
            lemma_mul_inequality(1_000_000_000_000, p as int, f as int);
            lemma_mul_inequality(1_000_000_000_000, 1_000_000_000_000, f as int);
            lemma_div_is_ordered(1_000_000_000_000_000_000_000_000int, (p * f) as int, 1_000_000_000_000);
        }
        lemma_factor_walk_bounds(q, u / 2, j + 1, (m - 1) as nat);
        assert(j + 1 + (m - 1) == j + m);
    }
}

/// Two walks over the same bits keep a ratio of at least 1 + 10^-6 between their
/// values, losing at most 10^6 of the margin per bit.
proof fn lemma_factor_walk_keeps_ratio(p: nat, q: nat, u: nat, j: nat, m: nat, margin: nat)
    requires
        j + m <= 18,
        margin >= 1_000_000 * m,
        p * 1_000_001 + margin <= q * 1_000_000,
    ensures
        factor_walk(p, u, j, m) * 1_000_001 + (margin - 1_000_000 * m) <= factor_walk(q, u, j, m) * 1_000_000,
    decreases m,
{
    if m > 0 {
        lemma_factor_bound_step(j);
        let f = sqrt_factor(j);
        let one: nat = 1_000_000_000_000;
        if u % 2 == 1 {
            let p2 = p * f / one;
            let q2 = q * f / one;
            lemma_fundamental_div_mod((p * f) as int, one as int);
            lemma_mod_bound((p * f) as int, one as int);
            lemma_fundamental_div_mod((q * f) as int, one as int);
            lemma_mod_bound((q * f) as int, one as int);
            assert(p2 * 1_000_001 + (margin - 1_000_000) <= q2 * 1_000_000) by (nonlinear_arith)
                requires
                    p * f == one * p2 + (p * f) % one,
                    (p * f) % one >= 0,
                    q * f == one * q2 + (q * f) % one,
                    (q * f) % one < one,
                    p * 1_000_001 + margin <= q * 1_000_000,
                    f >= one,
                    one == 1_000_000_000_000,
                    margin >= 1_000_000,
            ;
            lemma_factor_walk_keeps_ratio(p2, q2, u / 2, j + 1, (m - 1) as nat, (margin - 1_000_000) as nat);
        } else {
            lemma_factor_walk_keeps_ratio(p, q, u / 2, j + 1, (m - 1) as nat, (margin - 1_000_000) as nat);
        }
    }
}

/// Each factor is at least 1 + 4.8 * 10^-5 times the product of the factors
/// below it, with room for the truncations of the rest of a walk.
proof fn lemma_factor_exceeds_product_below(j: nat)
    requires
        j < 18,
    ensures
        factor_bound(j) * 1_000_001 + 18_000_000 <= sqrt_factor(j) * 1_000_000,
{
}

/// The walk of `u + 1` ends at least 1 + 10^-6 times higher than the walk of `u`,
/// when the walk of `u` starts from the product of the factors below bit `j`.
proof fn lemma_factor_walk_next(u: nat, j: nat)
    requires
        j < 18,
        u + 1 < pow2((18 - j) as nat),
    ensures
        factor_walk(factor_bound(j), u, j, (18 - j) as nat) * 1_000_001 <= factor_walk(
            1_000_000_000_000,
            u + 1,
            j,
            (18 - j) as nat,
        ) * 1_000_000,
    decreases 18 - j,
{
    let m = (18 - j) as nat;
    lemma_factor_bound_step(j);
    lemma_pow2_unfold(m);
    lemma_pow2_pos((m - 1) as nat);
    let f = sqrt_factor(j);
    if u % 2 == 1 {
        assert((u + 1) % 2 == 0);
        assert((u + 1) / 2 == u / 2 + 1);
        if j == 17 {
            assert(pow2(1) == 2) by {
                lemma2_to64();
            }
            assert(false);
        }
        assert(u / 2 + 1 < pow2((18 - (j + 1)) as nat));
        lemma_factor_walk_next(u / 2, j + 1);
        assert(factor_bound(j) * f / 1_000_000_000_000 == factor_bound(j + 1));
    } else {
        assert((u + 1) % 2 == 1);
        assert((u + 1) / 2 == u / 2);
        assert(1_000_000_000_000 * f / 1_000_000_000_000 == f) by {
            lemma_div_multiples_vanish(f as int, 1_000_000_000_000);
            lemma_mul_is_commutative(f as int, 1_000_000_000_000);
        }
        lemma_factor_exceeds_product_below(j);
        lemma_factor_walk_keeps_ratio(
            factor_bound(j),
            f,
            u / 2,
            j + 1,
            (m - 1) as nat,
            (1_000_000 * (m - 1)) as nat,
        );
    }
}

/// Consecutive non-negative ticks: the product of the factors grows by at least
/// a factor 1 + 10^-6 from one tick to the next.
proof fn lemma_product_grows(n: nat)
    requires
        n < MAX_TICK,
    ensures
        price_fp_product(n, 18) * 1_000_001 <= price_fp_product(n + 1, 18) * 1_000_000,
        1_000_000_000_000 <= price_fp_product(n, 18) <= 492128274533526656,
        1_000_000_000_000 <= price_fp_product(n + 1, 18) <= 492128274533526656,
{
    lemma_product_is_walk(n);
    lemma_product_is_walk(n + 1);
    assert(pow2(18) == 262144) by {
        lemma2_to64();
    }
    lemma_factor_walk_next(n, 0);
    lemma_factor_walk_bounds(1_000_000_000_000, n, 0, 18);
    lemma_factor_walk_bounds(1_000_000_000_000, n + 1, 0, 18);
}

/// The price rises from each tick of the domain to the next, by at least
/// 10^-12 (prices are multiples of it).
pub proof fn lemma_price_sqrt_step(n: int)
    requires
        -MAX_TICK <= n < MAX_TICK,
    ensures
        spec_price_sqrt(n) + 1_000_000_000_000 <= spec_price_sqrt(n + 1),
{
    let x: nat = 1_000_000_000_000_000_000_000_000;
    if n >= 0 {
        lemma_product_grows(n as nat);
    } else {
        let k = (-(n + 1)) as nat;
        lemma_product_grows(k);
        let a = price_fp_product(k + 1, 18);
        let b = price_fp_product(k, 18);
        assert(abs_tick(n) == k + 1);
        assert(abs_tick(n + 1) == k);
        lemma_fundamental_div_mod(x as int, a as int);
        lemma_mod_bound(x as int, a as int);
        lemma_fundamental_div_mod(x as int, b as int);
        lemma_mod_bound(x as int, b as int);
        let qa = x / a;
        let qb = x / b;
        assert(qa + 1 <= qb) by (nonlinear_arith)
            requires
                b * 1_000_001 <= a * 1_000_000,
                b >= 1_000_000_000_000,
                a <= 492128274533526656,
                x == 1_000_000_000_000_000_000_000_000,
                x == a * qa + x % a,
                x % a >= 0,
                x == b * qb + x % b,
                x % b < b,
        ;
        if n + 1 == 0 {
            assert(b == 1_000_000_000_000) by {
                lemma_product_is_walk(0);
                reveal_with_fuel(factor_walk, 19);
            }
            assert(x / 1_000_000_000_000nat == 1_000_000_000_000nat);
            assert(qb == 1_000_000_000_000);
        }
    }
}

/// The price rises with the tick over the whole domain.
pub proof fn lemma_price_sqrt_increasing(a: int, b: int)
    requires
        -MAX_TICK <= a < b <= MAX_TICK,
    ensures
        spec_price_sqrt(a) < spec_price_sqrt(b),
    decreases b - a,
{
    lemma_price_sqrt_step(b - 1);
    if a < b - 1 {
        lemma_price_sqrt_increasing(a, b - 1);
    }
}

/// Square root of 1.0001^tick at scale 24, built from the bits of the tick.
pub fn calculate_price_sqrt(tick_index: i32) -> (r: Price)
    requires
        -MAX_TICK <= tick_index <= MAX_TICK,
    ensures
        r.v == spec_price_sqrt(tick_index as int),
{
    let tick: u32 = if tick_index >= 0 { tick_index as u32 } else { (-tick_index) as u32 };
    let mut bits: u32 = tick;
    let mut price = FixedPoint::from_integer(1);
    let mut i: u32 = 0;
    proof {
        lemma2_to64();
    }
    while i < 18
        invariant
            i <= 18,
            tick == abs_tick(tick_index as int),
            bits == tick as nat / pow2(i as nat),
            price.v == price_fp_product(tick as nat, i as nat),
            1_000_000_000_000 <= price.v <= factor_bound(i as nat),
        decreases 18 - i,
    {
        let c = sqrt_factor_exec(i);
        proof {
            lemma_factor_bound_step(i as nat);
            lemma_mul_inequality(price.v as int, factor_bound(i as nat) as int, c as int);
        }
        if bits % 2 == 1 {
            let old_v = price.v;
            price = price.mul(FixedPoint::new(c));
            proof {
                lemma_div_is_ordered((old_v * c) as int, (factor_bound(i as nat) * c) as int, 1_000_000_000_000);
                lemma_mul_inequality(1_000_000_000_000, old_v as int, c as int);
                lemma_mul_inequality(1_000_000_000_000, c as int, 1_000_000_000_000);
                lemma_div_is_ordered(1_000_000_000_000_000_000_000_000int, (old_v * c) as int, 1_000_000_000_000);
            }
        }
        proof {
            lemma_pow2_pos(i as nat);
            lemma_pow2_unfold((i + 1) as nat);
            lemma_div_denominator(tick as int, pow2(i as nat) as int, 2);
            lemma_mul_is_commutative(pow2(i as nat) as int, 2);
        }
        bits = bits / 2;
        i = i + 1;
    }
    if tick_index >= 0 {
        Price::from_fixed_point(price)
    } else {
        let one = FixedPoint::from_integer(1);
        proof {
            lemma_div_is_ordered_by_denominator(
                1_000_000_000_000_000_000_000_000int,
                1_000_000_000_000,
                price.v as int,
            );
        }
        let inv = one.big_div(price);
        Price::from_fixed_point(inv)
    }
}

// ---------------------------------------------------------------------------
// Token deltas between two prices

pub open spec fn price_delta(a: nat, b: nat) -> nat {
    if a > b { (a - b) as nat } else { (b - a) as nat }
}

/// Tokens x between two prices: `L * |a - b| / (a * b)`; `None` when it does not fit.
pub open spec fn spec_delta_x(a: nat, b: nat, l: nat, up: bool) -> Option<TokenAmount> {
    let nominator = mul_div(price_delta(a, b), l, LIQUIDITY_ONE as nat);
    if up {
        spec_div_values_to_token_up(nominator, mul_div(a, b, PRICE_ONE as nat))
    } else {
        spec_div_values_to_token(nominator, mul_div_up(a, b, PRICE_ONE as nat))
    }
}

/// Tokens y between two prices: `L * |a - b|`; `None` when it does not fit.
pub open spec fn spec_delta_y(a: nat, b: nat, l: nat, up: bool) -> Option<TokenAmount> {
    let t = if up {
        (mul_div_up(price_delta(a, b), l, LIQUIDITY_ONE as nat) + PRICE_ONE - 1) as nat / (PRICE_ONE as nat)
    } else {
        mul_div(price_delta(a, b), l, LIQUIDITY_ONE as nat) / (PRICE_ONE as nat)
    };
    if t <= u64::MAX { Some(TokenAmount(t as u64)) } else { None }
}

proof fn lemma_mul_div_bound(a: nat, b: nat, d: nat)
    requires
        a <= u128::MAX,
        b <= u128::MAX,
        d >= 1,
    ensures
        mul_div(a, b, d) <= a * b,
        mul_div_up(a, b, d) <= a * b + d,
        a * b <= u128::MAX as nat * u128::MAX as nat,
{
    lemma_mul_upper_bound(a as int, u128::MAX as int, b as int, u128::MAX as int);
    lemma_div_is_ordered((a * b) as int, (a * b) as int, d as int);
    lemma_div_by_multiple((a * b) as int, 1);
    lemma_div_is_ordered_by_denominator((a * b) as int, 1, d as int);
    lemma_div_is_ordered_by_denominator((a * b + d - 1) as int, 1, d as int);
}

/// delta x = (L * delta_sqrt_price) / (lower_sqrt_price * higher_sqrt_price)
pub fn get_delta_x(sqrt_price_a: Price, sqrt_price_b: Price, liquidity: Liquidity, up: bool) -> (r: Option<TokenAmount>)
    ensures
        r == spec_delta_x(sqrt_price_a.v as nat, sqrt_price_b.v as nat, liquidity.v as nat, up),
{
    let delta_price = if sqrt_price_a.v > sqrt_price_b.v {
        Price::new(sqrt_price_a.v - sqrt_price_b.v)
    } else {
        Price::new(sqrt_price_b.v - sqrt_price_a.v)
    };
    let nominator = delta_price.big_mul_to_value_liquidity(liquidity);
    if up {
        Price::big_div_values_to_token_up(nominator, sqrt_price_a.big_mul_to_value_price(sqrt_price_b))
    } else {
        Price::big_div_values_to_token(nominator, sqrt_price_a.big_mul_to_value_up_price(sqrt_price_b))
    }
}

/// delta y = L * delta_sqrt_price
pub fn get_delta_y(sqrt_price_a: Price, sqrt_price_b: Price, liquidity: Liquidity, up: bool) -> (r: Option<TokenAmount>)
    ensures
        r == spec_delta_y(sqrt_price_a.v as nat, sqrt_price_b.v as nat, liquidity.v as nat, up),
{
    let delta_price = if sqrt_price_a.v > sqrt_price_b.v {
        Price::new(sqrt_price_a.v - sqrt_price_b.v)
    } else {
        Price::new(sqrt_price_b.v - sqrt_price_a.v)
    };
    let one = U256::from_u128(PRICE_ONE);
    let value = if up {
        let v = delta_price.big_mul_to_value_up_liquidity(liquidity);
        proof {
            lemma_mul_div_bound(delta_price.v as nat, liquidity.v as nat, LIQUIDITY_ONE as nat);
            assert(u128::MAX as nat * u128::MAX as nat + 1_000_000 + PRICE_ONE < pow256()) by (nonlinear_arith);
        }
        let s = v.checked_add(&U256::from_u128(PRICE_ONE - 1)).unwrap();
        s.div_rem(&one).0
    } else {
        let v = delta_price.big_mul_to_value_liquidity(liquidity);
        v.div_rem(&one).0
    };
    if value.hi == 0 && value.lo <= u64::MAX as u128 {
        Some(TokenAmount(value.lo as u64))
    } else {
        proof {
            if value.hi != 0 {
                lemma_mul_inequality(1, value.hi as int, crate::u256::pow128() as int);
            }
        }
        None
    }
}

// ---------------------------------------------------------------------------
// Next price after an amount

/// L * price / (L +- amount * price), rounded up.
pub open spec fn spec_next_sqrt_price_x_up(p: nat, l: nat, amount: nat, add: bool) -> Result<Price, ErrSpec> {
    if amount == 0 {
        Ok(Price { v: p as u128 })
    } else {
        let big_liquidity = l * (PRICE_LIQUIDITY_DENOMINATOR as nat);
        let moved = p * amount;
        if !add && moved > big_liquidity {
            Err((ErrorCause::LiquidityAmountBound, 1))
        } else {
            let denominator = if add { big_liquidity + moved } else { (big_liquidity - moved) as nat };
            mark_spec(spec_checked_big_div_values_up(mul_div_up(p, l, LIQUIDITY_ONE as nat), denominator))
        }
    }
}

/// price +- amount / L, rounded down.
pub open spec fn spec_next_sqrt_price_y_down(p: nat, l: nat, amount: nat, add: bool) -> Result<Price, ErrSpec> {
    if amount * (PRICE_ONE as nat) > u128::MAX {
        Err((ErrorCause::FromScaleOverflow, 1))
    } else {
        let q = amount * (PRICE_ONE as nat);
        let d = l * (PRICE_LIQUIDITY_DENOMINATOR as nat);
        if add {
            match spec_checked_big_div_by_number(q, d) {
                Err(c) => Err((c, 1)),
                Ok(quotient) => if p + quotient.v <= u128::MAX {
                    Ok(Price { v: (p + quotient.v) as u128 })
                } else {
                    Err((ErrorCause::CheckedAdd, 1))
                },
            }
        } else {
            match spec_checked_big_div_by_number_up(q, d) {
                Err(c) => Err((c, 1)),
                Ok(quotient) => if quotient.v <= p {
                    Ok(Price { v: (p - quotient.v) as u128 })
                } else {
                    Err((ErrorCause::CheckedSub, 1))
                },
            }
        }
    }
}

pub open spec fn spec_next_sqrt_price_from_input(p: nat, l: nat, amount: nat, x_to_y: bool) -> Result<Price, ErrSpec> {
    if l == 0 {
        Err((ErrorCause::InputZeroLiquidity, 1))
    } else if p == 0 {
        Err((ErrorCause::InputZeroPrice, 1))
    } else if x_to_y {
        mark_spec(spec_next_sqrt_price_x_up(p, l, amount, true))
    } else {
        mark_spec(spec_next_sqrt_price_y_down(p, l, amount, true))
    }
}

pub open spec fn spec_next_sqrt_price_from_output(p: nat, l: nat, amount: nat, x_to_y: bool) -> Result<Price, ErrSpec> {
    if l == 0 {
        Err((ErrorCause::OutputZeroLiquidity, 1))
    } else if p == 0 {
        Err((ErrorCause::OutputZeroPrice, 1))
    } else if x_to_y {
        mark_spec(spec_next_sqrt_price_y_down(p, l, amount, false))
    } else {
        mark_spec(spec_next_sqrt_price_x_up(p, l, amount, false))
    }
}

fn mark<T>(r: Result<T, TrackableError>, location: &'static str) -> (out: Result<T, TrackableError>)
    ensures
        match r {
            Ok(v) => out == Ok::<T, TrackableError>(v),
            Err(e) => out matches Err(e2) && e2.spec() == (e.cause, e.stack@.len() + 1),
        },
{
    match r {
        Ok(v) => Ok(v),
        Err(e) => Err(e.mark(location)),
    }
}

/// L * price / (L +- amount * price)
pub fn get_next_sqrt_price_x_up(price_sqrt: Price, liquidity: Liquidity, amount: TokenAmount, add: bool) -> (r: Result<Price, TrackableError>)
    ensures
        agrees(r, spec_next_sqrt_price_x_up(price_sqrt.v as nat, liquidity.v as nat, amount.0 as nat, add)),
{
    if amount.is_zero() {
        return Ok(price_sqrt);
    }
    let big_liquidity = crate::u256::mul_wide(liquidity.v, PRICE_LIQUIDITY_DENOMINATOR);
    let moved = price_sqrt.big_mul_to_value_token(amount);
    proof {
        lemma_mul_upper_bound(liquidity.v as int, u128::MAX as int, PRICE_LIQUIDITY_DENOMINATOR as int, PRICE_LIQUIDITY_DENOMINATOR as int);
        lemma_mul_upper_bound(price_sqrt.v as int, u128::MAX as int, amount.0 as int, u64::MAX as int);
        assert(u128::MAX as int * PRICE_LIQUIDITY_DENOMINATOR as int + u128::MAX as int * (u64::MAX as int) < pow256()) by (nonlinear_arith);
    }
    let denominator = if add {
        big_liquidity.checked_add(&moved).unwrap()
    } else {
        match big_liquidity.checked_sub(&moved) {
            Some(d) => d,
            None => return Err(TrackableError::new(ErrorCause::LiquidityAmountBound, "get_next_sqrt_price_x_up")),
        }
    };
    let nominator = price_sqrt.big_mul_to_value_up_liquidity(liquidity);
    let r = Price::checked_big_div_values_up(nominator, denominator);
    mark(r, "get_next_sqrt_price_x_up")
}

/// price +- (amount / L)
pub fn get_next_sqrt_price_y_down(price_sqrt: Price, liquidity: Liquidity, amount: TokenAmount, add: bool) -> (r: Result<Price, TrackableError>)
    ensures
        agrees(r, spec_next_sqrt_price_y_down(price_sqrt.v as nat, liquidity.v as nat, amount.0 as nat, add)),
{
    let q = match Price::checked_from_token(amount) {
        Ok(q) => q,
        Err(c) => return Err(TrackableError::new(c, "get_next_sqrt_price_y_down")),
    };
    let d = crate::u256::mul_wide(liquidity.v, PRICE_LIQUIDITY_DENOMINATOR);
    if add {
        let quotient = match q.checked_big_div_by_number(d) {
            Ok(v) => v,
            Err(c) => return Err(TrackableError::new(c, "get_next_sqrt_price_y_down")),
        };
        match price_sqrt.checked_add(quotient) {
            Ok(v) => Ok(v),
            Err(c) => Err(TrackableError::new(c, "get_next_sqrt_price_y_down")),
        }
    } else {
        let quotient = match q.checked_big_div_by_number_up(d) {
            Ok(v) => v,
            Err(c) => return Err(TrackableError::new(c, "get_next_sqrt_price_y_down")),
        };
        match price_sqrt.checked_sub(quotient) {
            Ok(v) => Ok(v),
            Err(c) => Err(TrackableError::new(c, "get_next_sqrt_price_y_down")),
        }
    }
}

pub fn get_next_sqrt_price_from_input(price_sqrt: Price, liquidity: Liquidity, amount: TokenAmount, x_to_y: bool) -> (r: Result<Price, TrackableError>)
    ensures
        agrees(r, spec_next_sqrt_price_from_input(price_sqrt.v as nat, liquidity.v as nat, amount.0 as nat, x_to_y)),
{
    if liquidity.is_zero() {
        return Err(TrackableError::new(ErrorCause::InputZeroLiquidity, "get_next_sqrt_price_from_input"));
    }
    if price_sqrt.is_zero() {
        return Err(TrackableError::new(ErrorCause::InputZeroPrice, "get_next_sqrt_price_from_input"));
    }
    let result = if x_to_y {
        get_next_sqrt_price_x_up(price_sqrt, liquidity, amount, true)
    } else {
        get_next_sqrt_price_y_down(price_sqrt, liquidity, amount, true)
    };
    mark(result, "get_next_sqrt_price_from_input")
}

pub fn get_next_sqrt_price_from_output(price_sqrt: Price, liquidity: Liquidity, amount: TokenAmount, x_to_y: bool) -> (r: Result<Price, TrackableError>)
    ensures
        agrees(r, spec_next_sqrt_price_from_output(price_sqrt.v as nat, liquidity.v as nat, amount.0 as nat, x_to_y)),
{
    if liquidity.is_zero() {
        return Err(TrackableError::new(ErrorCause::OutputZeroLiquidity, "get_next_sqrt_price_from_output"));
    }
    if price_sqrt.is_zero() {
        return Err(TrackableError::new(ErrorCause::OutputZeroPrice, "get_next_sqrt_price_from_output"));
    }
    let result = if x_to_y {
        get_next_sqrt_price_y_down(price_sqrt, liquidity, amount, false)
    } else {
        get_next_sqrt_price_x_up(price_sqrt, liquidity, amount, false)
    };
    mark(result, "get_next_sqrt_price_from_output")
}

// ---------------------------------------------------------------------------
// One swap step

pub open spec fn unwrap_amount(r: Option<TokenAmount>) -> nat {
    match r {
        Some(t) => t.0 as nat,
        None => u64::MAX as nat,
    }
}

/// The price the step stops at, with the amounts found on the way.
pub open spec fn spec_swap_step_next(
    cur: nat,
    target: nat,
    l: nat,
    amount: nat,
    by_amount_in: bool,
    fee: nat,
) -> Result<(nat, nat, nat), ErrSpec> {
    let x_to_y = cur >= target;
    if by_amount_in {
        if fee > FIXED_POINT_ONE {
            Err((ErrorCause::SubUnderflow, 1))
        } else {
            let amount_after_fee = mul_div(amount, (FIXED_POINT_ONE - fee) as nat, FIXED_POINT_ONE as nat);
            let amount_in = unwrap_amount(
                if x_to_y { spec_delta_x(target, cur, l, true) } else { spec_delta_y(cur, target, l, true) },
            );
            if amount_after_fee >= amount_in {
                Ok((target, amount_in, 0))
            } else {
                match spec_next_sqrt_price_from_input(cur, l, amount_after_fee, x_to_y) {
                    Ok(p) => Ok((p.v as nat, amount_in, 0)),
                    Err(e) => Err((e.0, e.1 + 1)),
                }
            }
        }
    } else {
        let amount_out = unwrap_amount(
            if x_to_y { spec_delta_y(target, cur, l, false) } else { spec_delta_x(cur, target, l, false) },
        );
        if amount >= amount_out {
            Ok((target, 0, amount_out))
        } else {
            match spec_next_sqrt_price_from_output(cur, l, amount, x_to_y) {
                Ok(p) => Ok((p.v as nat, 0, amount_out)),
                Err(e) => Err((e.0, e.1 + 1)),
            }
        }
    }
}

/// The amounts in and out of a step that ends at `next`.
pub open spec fn spec_swap_step_amounts(
    cur: nat,
    target: nat,
    l: nat,
    by_amount_in: bool,
    next: nat,
    amount_in: nat,
    amount_out: nat,
) -> Result<(nat, nat), ErrSpec> {
    let x_to_y = cur >= target;
    let not_max = target != next;
    let ain = if not_max || !by_amount_in {
        if x_to_y { spec_delta_x(next, cur, l, true) } else { spec_delta_y(cur, next, l, true) }
    } else {
        Some(TokenAmount(amount_in as u64))
    };
    let aout = if not_max || by_amount_in {
        if x_to_y { spec_delta_y(next, cur, l, false) } else { spec_delta_x(cur, next, l, false) }
    } else {
        Some(TokenAmount(amount_out as u64))
    };
    if x_to_y {
        if ain is None {
            Err((ErrorCause::DeltaXOverflow, 1))
        } else if aout is None {
            Err((ErrorCause::DeltaYOverflow, 1))
        } else {
            Ok((ain.unwrap().0 as nat, aout.unwrap().0 as nat))
        }
    } else {
        if ain is None {
            Err((ErrorCause::DeltaYOverflow, 1))
        } else if aout is None {
            Err((ErrorCause::DeltaXOverflow, 1))
        } else {
            Ok((ain.unwrap().0 as nat, aout.unwrap().0 as nat))
        }
    }
}

/// Whether the fee of a step is charged on its input amount (rather than being
/// the rest of `amount`), and so may exceed `u64::MAX`.
pub open spec fn swap_step_fee_fits(
    cur: nat,
    target: nat,
    l: nat,
    amount: nat,
    by_amount_in: bool,
    fee: nat,
) -> bool {
    l == 0 || match spec_swap_step_next(cur, target, l, amount, by_amount_in, fee) {
        Err(_) => true,
        Ok((next, ain0, aout0)) => match spec_swap_step_amounts(cur, target, l, by_amount_in, next, ain0, aout0) {
            Err(_) => true,
            Ok((ain, _)) => (by_amount_in && next != target) || mul_div_up(ain, fee, FIXED_POINT_ONE as nat) <= u64::MAX,
        },
    }
}

/// One swap step from `cur` toward `target`, as the pool computes it.
pub open spec fn spec_compute_swap_step(
    cur: nat,
    target: nat,
    l: nat,
    amount: nat,
    by_amount_in: bool,
    fee: nat,
) -> Result<SwapResult, ErrSpec> {
    if l == 0 {
        Ok(SwapResult {
            next_price_sqrt: Price { v: target as u128 },
            amount_in: TokenAmount(0),
            amount_out: TokenAmount(0),
            fee_amount: TokenAmount(0),
        })
    } else {
        match spec_swap_step_next(cur, target, l, amount, by_amount_in, fee) {
            Err(e) => Err(e),
            Ok((next, ain0, aout0)) => match spec_swap_step_amounts(cur, target, l, by_amount_in, next, ain0, aout0) {
                Err(e) => Err(e),
                Ok((ain, aout0b)) => {
                    let aout = if !by_amount_in && aout0b > amount { amount } else { aout0b };
                    if by_amount_in && next != target {
                        if amount < ain {
                            Err((ErrorCause::SubUnderflow, 1))
                        } else {
                            Ok(SwapResult {
                                next_price_sqrt: Price { v: next as u128 },
                                amount_in: TokenAmount(ain as u64),
                                amount_out: TokenAmount(aout as u64),
                                fee_amount: TokenAmount((amount - ain) as u64),
                            })
                        }
                    } else {
                        Ok(SwapResult {
                            next_price_sqrt: Price { v: next as u128 },
                            amount_in: TokenAmount(ain as u64),
                            amount_out: TokenAmount(aout as u64),
                            fee_amount: TokenAmount(mul_div_up(ain, fee, FIXED_POINT_ONE as nat) as u64),
                        })
                    }
                },
            },
        }
    }
}

/// Adding token x at a price of at least 10^-12 never raises the price.
proof fn lemma_x_in_lowers_price(p: nat, l: nat, a: nat)
    requires
        1_000_000_000_000 <= p <= u128::MAX,
        l > 0,
    ensures
        spec_next_sqrt_price_x_up(p, l, a, true) matches Ok(v) ==> v.v <= p,
{
    if a > 0 {
        let n = mul_div_up(p, l, LIQUIDITY_ONE as nat);
        let d = l * (PRICE_LIQUIDITY_DENOMINATOR as nat) + p * a;
        lemma_fundamental_div_mod((p * l + 999_999) as int, 1_000_000);
        lemma_mod_bound((p * l + 999_999) as int, 1_000_000);
        assert(n * 1_000_000 <= p * l + 999_999);
        assert(p * a >= p * 1) by (nonlinear_arith)
            requires a >= 1;
        assert(p * p >= 1_000_000_000_000_000_000_000_000) by (nonlinear_arith)
            requires p >= 1_000_000_000_000;
        assert(n * (PRICE_ONE as nat) <= p * d) by (nonlinear_arith)
            requires
                n * 1_000_000 <= p * l + 999_999,
                d == l * 1_000_000_000_000_000_000 + p * a,
                a >= 1,
                p * p >= 1_000_000_000_000_000_000_000_000;
        let x = n * (PRICE_ONE as nat);
        if d > 0 {
            lemma_fundamental_div_mod((x + d - 1) as int, d as int);
            lemma_mod_bound((x + d - 1) as int, d as int);
            let q = (x + d - 1) as nat / d;
            assert(q <= p) by (nonlinear_arith)
                requires
                    x <= p * d,
                    (x + d - 1) == d * q + (x + d - 1) % (d as int),
                    (x + d - 1) % (d as int) >= 0,
                    d > 0;
        }
    }
}

/// Taking token x out never lowers the price.
proof fn lemma_x_out_raises_price(p: nat, l: nat, a: nat)
    requires
        p <= u128::MAX,
    ensures
        spec_next_sqrt_price_x_up(p, l, a, false) matches Ok(v) ==> v.v >= p,
{
    if a > 0 {
        let n = mul_div_up(p, l, LIQUIDITY_ONE as nat);
        let big = l * (PRICE_LIQUIDITY_DENOMINATOR as nat);
        if p * a <= big {
            let d = (big - p * a) as nat;
            lemma_fundamental_div_mod((p * l + 999_999) as int, 1_000_000);
            lemma_mod_bound((p * l + 999_999) as int, 1_000_000);
            assert(n * 1_000_000 >= p * l);
            assert(n * (PRICE_ONE as nat) >= p * d) by (nonlinear_arith)
                requires
                    n * 1_000_000 >= p * l,
                    d <= l * 1_000_000_000_000_000_000;
            let x = n * (PRICE_ONE as nat);
            if d > 0 {
                lemma_fundamental_div_mod((x + d - 1) as int, d as int);
                lemma_mod_bound((x + d - 1) as int, d as int);
                let q = (x + d - 1) as nat / d;
                assert(q >= p) by (nonlinear_arith)
                    requires
                        x >= p * d,
                        (x + d - 1) == d * q + (x + d - 1) % (d as int),
                        (x + d - 1) % (d as int) < d,
                        d > 0;
            }
        }
    }
}

/// Adding token y worth less than the step to `t` keeps the price at or below `t`.
proof fn lemma_y_in_stays_within(p: nat, t: nat, l: nat, a: nat)
    requires
        p < t,
        l > 0,
        a < (mul_div_up((t - p) as nat, l, LIQUIDITY_ONE as nat) + PRICE_ONE - 1) as nat / (PRICE_ONE as nat),
    ensures
        spec_next_sqrt_price_y_down(p, l, a, true) matches Ok(v) ==> v.v <= t,
{
    let x = ((t - p) * l) as nat;
    let m = mul_div_up((t - p) as nat, l, LIQUIDITY_ONE as nat);
    lemma_fundamental_div_mod((x + 999_999) as int, 1_000_000);
    lemma_mod_bound((x + 999_999) as int, 1_000_000);
    assert(m * 1_000_000 <= x + 999_999);
    let w = (m + PRICE_ONE - 1) as nat / (PRICE_ONE as nat);
    lemma_fundamental_div_mod((m + PRICE_ONE - 1) as int, PRICE_ONE as int);
    lemma_mod_bound((m + PRICE_ONE - 1) as int, PRICE_ONE as int);
    assert(w * PRICE_ONE <= m + PRICE_ONE - 1);
    assert(a * PRICE_ONE + PRICE_ONE <= w * PRICE_ONE) by (nonlinear_arith)
        requires a + 1 <= w;
    assert(a * 1_000_000_000_000_000_000_000_000_000_000 < x) by (nonlinear_arith)
        requires
            a * 1_000_000_000_000_000_000_000_000 + 1_000_000_000_000_000_000_000_000 <= m + 999_999_999_999_999_999_999_999,
            m * 1_000_000 <= x + 999_999;
    let num = a * (PRICE_ONE as nat) * (PRICE_ONE as nat);
    let d = l * (PRICE_LIQUIDITY_DENOMINATOR as nat);
    let q = num / d;
    lemma_fundamental_div_mod(num as int, d as int);
    lemma_mod_bound(num as int, d as int);
    assert(q <= t - p) by (nonlinear_arith)
        requires
            num == d * q + num % d,
            num == a * 1_000_000_000_000_000_000_000_000 * 1_000_000_000_000_000_000_000_000,
            d == l * 1_000_000_000_000_000_000,
            a * 1_000_000_000_000_000_000_000_000_000_000 < x,
            x == (t - p) * l,
            l > 0;
}

/// Taking out token y worth less than the step to `t` keeps the price at or above `t`.
proof fn lemma_y_out_stays_within(p: nat, t: nat, l: nat, a: nat)
    requires
        t < p <= u128::MAX,
        l > 0,
        a < mul_div((p - t) as nat, l, LIQUIDITY_ONE as nat) / (PRICE_ONE as nat),
    ensures
        spec_next_sqrt_price_y_down(p, l, a, false) matches Ok(v) ==> v.v >= t,
{
    let x = ((p - t) * l) as nat;
    let f = mul_div((p - t) as nat, l, LIQUIDITY_ONE as nat);
    lemma_fundamental_div_mod(x as int, 1_000_000);
    lemma_mod_bound(x as int, 1_000_000);
    assert(f * 1_000_000 <= x);
    let w = f / (PRICE_ONE as nat);
    lemma_fundamental_div_mod(f as int, PRICE_ONE as int);
    lemma_mod_bound(f as int, PRICE_ONE as int);
    assert(w * PRICE_ONE <= f);
    assert(a * 1_000_000_000_000_000_000_000_000_000_000 < x) by (nonlinear_arith)
        requires
            a + 1 <= w,
            w * 1_000_000_000_000_000_000_000_000 <= f,
            f * 1_000_000 <= x;
    let num = a * (PRICE_ONE as nat) * (PRICE_ONE as nat);
    let d = l * (PRICE_LIQUIDITY_DENOMINATOR as nat);
    let q = (num + d - 1) as nat / d;
    lemma_fundamental_div_mod((num + d - 1) as int, d as int);
    lemma_mod_bound((num + d - 1) as int, d as int);
    assert(q <= p - t) by (nonlinear_arith)
        requires
            num + d - 1 == d * q + (num + d - 1) % (d as int),
            (num + d - 1) % (d as int) >= 0,
            num == a * 1_000_000_000_000_000_000_000_000 * 1_000_000_000_000_000_000_000_000,
            d == l * 1_000_000_000_000_000_000,
            a * 1_000_000_000_000_000_000_000_000_000_000 < x,
            x == (p - t) * l,
            l > 0;
}

/// Taking out token x worth less than the step to `t` keeps the price at or
/// below `t`, for prices between 10^-12 and the highest price of the pool.
proof fn lemma_x_out_stays_within(p: nat, t: nat, l: nat, a: nat)
    requires
        1_000_000_000_000 <= p < t <= MAX_SQRT_PRICE,
        l > 0,
        a < u64::MAX,
        a < unwrap_amount(spec_delta_x(p, t, l, false)),
    ensures
        spec_next_sqrt_price_x_up(p, l, a, false) matches Ok(v) ==> v.v <= t,
{
    let nom = mul_div((t - p) as nat, l, LIQUIDITY_ONE as nat);
    let den = mul_div_up(p, t, PRICE_ONE as nat);
    assert(price_delta(p, t) == t - p);
    lemma_fundamental_div_mod((p * t + PRICE_ONE - 1) as int, PRICE_ONE as int);
    lemma_mod_bound((p * t + PRICE_ONE - 1) as int, PRICE_ONE as int);
    assert(den * PRICE_ONE >= p * t);
    assert(den * PRICE_ONE <= p * t + PRICE_ONE - 1);
    assert(p * t <= MAX_SQRT_PRICE * MAX_SQRT_PRICE) by (nonlinear_arith)
        requires p < t <= MAX_SQRT_PRICE;
    assert(p * t >= 1_000_000_000_000_000_000_000_000) by (nonlinear_arith)
        requires 1_000_000_000_000 <= p < t;
    // (a + 1) * den <= nom
    let big = nom * (PRICE_ONE as nat);
    if big >= pow256() {
        assert((a + 1) * den <= nom) by (nonlinear_arith)
            requires
                a + 1 <= 0xffff_ffff_ffff_ffff,
                den * 1_000_000_000_000_000_000_000_000 <= p * t + 999_999_999_999_999_999_999_999,
                p * t <= 65535383934512647000000000000 * 65535383934512647000000000000,
                nom * 1_000_000_000_000_000_000_000_000 >= 0x1_0000_0000_0000_0000_0000_0000_0000_0000 * 0x1_0000_0000_0000_0000_0000_0000_0000_0000;
    } else {
        let r = big / den / (PRICE_ONE as nat);
        lemma_fundamental_div_mod(big as int, den as int);
        lemma_mod_bound(big as int, den as int);
        lemma_fundamental_div_mod((big / den) as int, PRICE_ONE as int);
        lemma_mod_bound((big / den) as int, PRICE_ONE as int);
        assert(a + 1 <= r);
        assert((a + 1) * den <= nom) by (nonlinear_arith)
            requires
                a + 1 <= r,
                r * 1_000_000_000_000_000_000_000_000 <= big / den,
                (big / den) * den <= big,
                big == nom * 1_000_000_000_000_000_000_000_000,
                den > 0;
    }
    // (a + 1) * p * t <= (t - p) * l * 10^18
    let x = ((t - p) * l) as nat;
    lemma_fundamental_div_mod(x as int, 1_000_000);
    lemma_mod_bound(x as int, 1_000_000);
    assert(nom * 1_000_000 <= x);
    assert((a + 1) * (p * t) <= x * 1_000_000_000_000_000_000) by (nonlinear_arith)
        requires
            (a + 1) * den <= nom,
            den * 1_000_000_000_000_000_000_000_000 >= p * t,
            nom * 1_000_000 <= x;
    let n = mul_div_up(p, l, LIQUIDITY_ONE as nat);
    lemma_fundamental_div_mod((p * l + 999_999) as int, 1_000_000);
    lemma_mod_bound((p * l + 999_999) as int, 1_000_000);
    assert(n * 1_000_000 <= p * l + 999_999);
    let bl = l * (PRICE_LIQUIDITY_DENOMINATOR as nat);
    assert(p * a < bl) by (nonlinear_arith)
        requires
            (a + 1) * (p * t) <= x * 1_000_000_000_000_000_000,
            x == (t - p) * l,
            p < t,
            p > 0,
            bl == l * 1_000_000_000_000_000_000;
    let d = (bl - p * a) as nat;
    let xx = n * (PRICE_ONE as nat);
    assert(xx <= t * d) by (nonlinear_arith)
        requires
            n * 1_000_000 <= p * l + 999_999,
            xx == n * 1_000_000_000_000_000_000_000_000,
            d == l * 1_000_000_000_000_000_000 - p * a,
            (a + 1) * (p * t) <= (t - p) * l * 1_000_000_000_000_000_000,
            p * t >= 1_000_000_000_000_000_000_000_000;
    if a > 0 && d > 0 {
        lemma_fundamental_div_mod((xx + d - 1) as int, d as int);
        lemma_mod_bound((xx + d - 1) as int, d as int);
        let q = (xx + d - 1) as nat / d;
        assert(q <= t) by (nonlinear_arith)
            requires
                xx <= t * d,
                (xx + d - 1) == d * q + (xx + d - 1) % (d as int),
                (xx + d - 1) % (d as int) >= 0,
                d > 0;
    }
}

/// A swap step never moves the price against the trade: selling x (the price
/// falling toward the target) never raises it, selling y never lowers it. The
/// price must be at least 10^-12, as every price of the pool's domain is.
proof fn lemma_step_moves_toward_target(cur: nat, target: nat, l: nat, amount: nat, by_amount_in: bool, fee: nat)
    requires
        1_000_000_000_000 <= cur <= u128::MAX,
        target <= u128::MAX,
    ensures
        spec_compute_swap_step(cur, target, l, amount, by_amount_in, fee) matches Ok(r) ==> (cur >= target
            ==> r.next_price_sqrt.v <= cur) && (cur < target ==> r.next_price_sqrt.v >= cur),
{
    if l != 0 {
        let x_to_y = cur >= target;
        if by_amount_in && fee <= FIXED_POINT_ONE {
            let aaf = mul_div(amount, (FIXED_POINT_ONE - fee) as nat, FIXED_POINT_ONE as nat);
            if x_to_y {
                lemma_x_in_lowers_price(cur, l, aaf);
            }
        } else if !by_amount_in && !x_to_y {
            lemma_x_out_raises_price(cur, l, amount);
        }
    }
}

/// A swap step that sells y, or that sells x for a given output, never moves
/// the price past its target, for prices between 10^-12 and the highest price
/// of the pool. (A step selling a given amount of x may stop one unit below its
/// target: the rounding of the new price allows it.)
proof fn lemma_step_stays_within_target(
    cur: nat,
    target: nat,
    l: nat,
    amount: nat,
    by_amount_in: bool,
    fee: nat,
)
    requires
        1_000_000_000_000 <= cur <= MAX_SQRT_PRICE,
        target <= MAX_SQRT_PRICE,
        amount <= u64::MAX,
        !(by_amount_in && cur >= target),
    ensures
        spec_compute_swap_step(cur, target, l, amount, by_amount_in, fee) matches Ok(r) ==> (cur >= target
            ==> r.next_price_sqrt.v >= target) && (cur < target ==> r.next_price_sqrt.v <= target),
{
    if l != 0 {
        if by_amount_in && fee <= FIXED_POINT_ONE {
            let aaf = mul_div(amount, (FIXED_POINT_ONE - fee) as nat, FIXED_POINT_ONE as nat);
            assert(price_delta(cur, target) == target - cur);
            let need = unwrap_amount(spec_delta_y(cur, target, l, true));
            if aaf < need {
                lemma_y_in_stays_within(cur, target, l, aaf);
            }
        } else if !by_amount_in {
            if cur >= target {
                assert(price_delta(target, cur) == cur - target);
                let out = unwrap_amount(spec_delta_y(target, cur, l, false));
                if cur == target {
                    assert(0 * l == 0) by (nonlinear_arith);
                    assert(mul_div(0, l, LIQUIDITY_ONE as nat) == 0);
                    assert(mul_div(0, l, LIQUIDITY_ONE as nat) / (PRICE_ONE as nat) == 0);
                }
                if amount < out && cur > target {
                    lemma_y_out_stays_within(cur, target, l, amount);
                }
            } else {
                let out = unwrap_amount(spec_delta_x(cur, target, l, false));
                if amount < out {
                    lemma_x_out_stays_within(cur, target, l, amount);
                }
            }
        }
    }
}

/// A step by input spends the whole amount, as input and fee, when it stops
/// short of its target; one that reaches its target with an input the amount
/// after the fee covers spends at most the amount.
proof fn lemma_step_input_and_fee_within_amount(
    cur: nat,
    target: nat,
    l: nat,
    amount: nat,
    fee: nat,
)
    requires
        amount <= u64::MAX,
        target <= u128::MAX,
    ensures
        spec_compute_swap_step(cur, target, l, amount, true, fee) matches Ok(s) ==> (s.next_price_sqrt.v != target
            ==> s.amount_in.0 + s.fee_amount.0 == amount) && (s.next_price_sqrt.v == target && fee <= FIXED_POINT_ONE
            && s.amount_in.0 <= mul_div(amount, (FIXED_POINT_ONE - fee) as nat, FIXED_POINT_ONE as nat)
            ==> s.amount_in.0 + s.fee_amount.0 <= amount),
{
    if let Ok(s) = spec_compute_swap_step(cur, target, l, amount, true, fee) {
        if l != 0 && s.next_price_sqrt.v == target && fee <= FIXED_POINT_ONE {
            let one = FIXED_POINT_ONE as nat;
            let ain = s.amount_in.0 as nat;
            let aaf = mul_div(amount, (one - fee) as nat, one);
            if ain <= aaf {
                let e = (amount * (one - fee)) as nat;
                lemma_fundamental_div_mod(e as int, one as int);
                lemma_mod_bound(e as int, one as int);
                assert(ain * one <= amount * (one - fee)) by (nonlinear_arith)
                    requires ain <= aaf, aaf == e / one, e == one * aaf + e % one, e % one >= 0, e == amount * (one - fee);
                assert(ain <= amount) by (nonlinear_arith)
                    requires ain * one <= amount * (one - fee), fee <= one, one > 0;
                assert(ain * fee <= (amount - ain) * one) by (nonlinear_arith)
                    requires ain * one <= amount * (one - fee), fee <= one, ain <= amount;
                let n = (ain * fee + one - 1) as nat;
                lemma_fundamental_div_mod(n as int, one as int);
                lemma_mod_bound(n as int, one as int);
                assert(n / one <= amount - ain) by (nonlinear_arith)
                    requires
                        n == ain * fee + one - 1,
                        ain * fee <= (amount - ain) * one,
                        n == one * (n / one) + n % one,
                        n % one >= 0,
                        one > 0;
            }
        }
    }
}

/// One swap step whose fee does not fit in a token amount: the model of
/// `compute_swap_step`, with that case as an error.
pub open spec fn spec_checked_swap_step(
    cur: nat,
    target: nat,
    l: nat,
    amount: nat,
    by_amount_in: bool,
    fee: nat,
) -> Result<SwapResult, ErrSpec> {
    if swap_step_fee_fits(cur, target, l, amount, by_amount_in, fee) {
        spec_compute_swap_step(cur, target, l, amount, by_amount_in, fee)
    } else {
        Err((ErrorCause::FeeOverflow, 1))
    }
}

/// `compute_swap_step` for any fee: a step whose fee does not fit in a token
/// amount ends with a `FeeOverflow` error.
pub fn checked_swap_step(
    current_price_sqrt: Price,
    target_price_sqrt: Price,
    liquidity: Liquidity,
    amount: TokenAmount,
    by_amount_in: bool,
    fee: FixedPoint,
) -> (r: Result<SwapResult, TrackableError>)
    ensures
        agrees(
            r,
            spec_checked_swap_step(
                current_price_sqrt.v as nat,
                target_price_sqrt.v as nat,
                liquidity.v as nat,
                amount.0 as nat,
                by_amount_in,
                fee.v as nat,
            ),
        ),
{
    if liquidity.is_zero() {
        return Ok(SwapResult {
            next_price_sqrt: target_price_sqrt,
            amount_in: TokenAmount(0),
            amount_out: TokenAmount(0),
            fee_amount: TokenAmount(0),
        });
    }
    let x_to_y = current_price_sqrt.v >= target_price_sqrt.v;
    let next_price_sqrt;
    let mut amount_in = TokenAmount(0);
    let mut amount_out = TokenAmount(0);

    if by_amount_in {
        let one_minus_fee = match FixedPoint::from_integer(1).checked_sub(fee) {
            Ok(v) => v,
            Err(_) => return Err(TrackableError::new(ErrorCause::SubUnderflow, "compute_swap_step")),
        };
        proof {
            lemma_mul_inequality(one_minus_fee.v as int, FIXED_POINT_ONE as int, amount.0 as int);
            lemma_mul_is_commutative(one_minus_fee.v as int, amount.0 as int);
            lemma_div_is_ordered((amount.0 * one_minus_fee.v) as int, (FIXED_POINT_ONE * amount.0) as int, FIXED_POINT_ONE as int);
            lemma_div_by_multiple(amount.0 as int, FIXED_POINT_ONE as int);
            lemma_mul_is_commutative(FIXED_POINT_ONE as int, amount.0 as int);
        }
        let amount_after_fee = amount.big_mul_fixed(one_minus_fee);
        amount_in = match if x_to_y {
            get_delta_x(target_price_sqrt, current_price_sqrt, liquidity, true)
        } else {
            get_delta_y(current_price_sqrt, target_price_sqrt, liquidity, true)
        } {
            Some(a) => a,
            None => TokenAmount(u64::MAX),
        };
        if amount_after_fee.0 >= amount_in.0 {
            next_price_sqrt = target_price_sqrt;
        } else {
            next_price_sqrt = match get_next_sqrt_price_from_input(current_price_sqrt, liquidity, amount_after_fee, x_to_y) {
                Ok(p) => p,
                Err(e) => return Err(e.mark("compute_swap_step")),
            };
        }
    } else {
        amount_out = match if x_to_y {
            get_delta_y(target_price_sqrt, current_price_sqrt, liquidity, false)
        } else {
            get_delta_x(current_price_sqrt, target_price_sqrt, liquidity, false)
        } {
            Some(a) => a,
            None => TokenAmount(u64::MAX),
        };
        if amount.0 >= amount_out.0 {
            next_price_sqrt = target_price_sqrt;
        } else {
            next_price_sqrt = match get_next_sqrt_price_from_output(current_price_sqrt, liquidity, amount, x_to_y) {
                Ok(p) => p,
                Err(e) => return Err(e.mark("compute_swap_step")),
            };
        }
    }

    let not_max = target_price_sqrt.v != next_price_sqrt.v;

    if x_to_y {
        if not_max || !by_amount_in {
            amount_in = match get_delta_x(next_price_sqrt, current_price_sqrt, liquidity, true) {
                Some(a) => a,
                None => return Err(TrackableError::new(ErrorCause::DeltaXOverflow, "compute_swap_step")),
            };
        }
        if not_max || by_amount_in {
            amount_out = match get_delta_y(next_price_sqrt, current_price_sqrt, liquidity, false) {
                Some(a) => a,
                None => return Err(TrackableError::new(ErrorCause::DeltaYOverflow, "compute_swap_step")),
            };
        }
    } else {
        if not_max || !by_amount_in {
            amount_in = match get_delta_y(current_price_sqrt, next_price_sqrt, liquidity, true) {
                Some(a) => a,
                None => return Err(TrackableError::new(ErrorCause::DeltaYOverflow, "compute_swap_step")),
            };
        }
        if not_max || by_amount_in {
            amount_out = match get_delta_x(current_price_sqrt, next_price_sqrt, liquidity, false) {
                Some(a) => a,
                None => return Err(TrackableError::new(ErrorCause::DeltaXOverflow, "compute_swap_step")),
            };
        }
    }

    // Amount out can not exceed amount
    if !by_amount_in && amount_out.0 > amount.0 {
        amount_out = amount;
    }

    let fee_amount = if by_amount_in && next_price_sqrt.v != target_price_sqrt.v {
        match amount.checked_sub(amount_in) {
            Ok(v) => v,
            Err(_) => return Err(TrackableError::new(ErrorCause::SubUnderflow, "compute_swap_step")),
        }
    } else {
        match amount_in.checked_big_mul_up_fixed(fee) {
            Some(f) => f,
            None => return Err(TrackableError::new(ErrorCause::FeeOverflow, "compute_swap_step")),
        }
    };

    Ok(SwapResult { next_price_sqrt, amount_in, amount_out, fee_amount })
}

/// Moves the price from `current_price_sqrt` toward `target_price_sqrt` by
/// `amount` (input or output, per `by_amount_in`), charging `fee`.
pub fn compute_swap_step(
    current_price_sqrt: Price,
    target_price_sqrt: Price,
    liquidity: Liquidity,
    amount: TokenAmount,
    by_amount_in: bool,
    fee: FixedPoint,
) -> (r: Result<SwapResult, TrackableError>)
    requires
        swap_step_fee_fits(
            current_price_sqrt.v as nat,
            target_price_sqrt.v as nat,
            liquidity.v as nat,
            amount.0 as nat,
            by_amount_in,
            fee.v as nat,
        ),
    ensures
        agrees(
            r,
            spec_compute_swap_step(
                current_price_sqrt.v as nat,
                target_price_sqrt.v as nat,
                liquidity.v as nat,
                amount.0 as nat,
                by_amount_in,
                fee.v as nat,
            ),
        ),
        current_price_sqrt.v >= 1_000_000_000_000 ==> (r matches Ok(s) ==> (current_price_sqrt.v
            >= target_price_sqrt.v ==> s.next_price_sqrt.v <= current_price_sqrt.v) && (current_price_sqrt.v
            < target_price_sqrt.v ==> s.next_price_sqrt.v >= current_price_sqrt.v)),
        1_000_000_000_000 <= current_price_sqrt.v <= MAX_SQRT_PRICE && target_price_sqrt.v <= MAX_SQRT_PRICE && !(
        by_amount_in && current_price_sqrt.v >= target_price_sqrt.v) ==> (r matches Ok(s) ==> (current_price_sqrt.v
            >= target_price_sqrt.v ==> s.next_price_sqrt.v >= target_price_sqrt.v) && (current_price_sqrt.v
            < target_price_sqrt.v ==> s.next_price_sqrt.v <= target_price_sqrt.v)),
        by_amount_in ==> (r matches Ok(s) ==> (s.next_price_sqrt != target_price_sqrt ==> s.amount_in.0 + s.fee_amount.0
            == amount.0) && (s.next_price_sqrt == target_price_sqrt && fee.v <= FIXED_POINT_ONE && s.amount_in.0 <= mul_div(
            amount.0 as nat,
            (FIXED_POINT_ONE - fee.v) as nat,
            FIXED_POINT_ONE as nat,
        ) ==> s.amount_in.0 + s.fee_amount.0 <= amount.0)),
{
    proof {
        if by_amount_in {
            lemma_step_input_and_fee_within_amount(
                current_price_sqrt.v as nat,
                target_price_sqrt.v as nat,
                liquidity.v as nat,
                amount.0 as nat,
                fee.v as nat,
            );
        }
        if 1_000_000_000_000 <= current_price_sqrt.v <= MAX_SQRT_PRICE && target_price_sqrt.v <= MAX_SQRT_PRICE && !(
        by_amount_in && current_price_sqrt.v >= target_price_sqrt.v) {
            lemma_step_stays_within_target(
                current_price_sqrt.v as nat,
                target_price_sqrt.v as nat,
                liquidity.v as nat,
                amount.0 as nat,
                by_amount_in,
                fee.v as nat,
            );
        }
        if current_price_sqrt.v >= 1_000_000_000_000 {
            lemma_step_moves_toward_target(
                current_price_sqrt.v as nat,
                target_price_sqrt.v as nat,
                liquidity.v as nat,
                amount.0 as nat,
                by_amount_in,
                fee.v as nat,
            );
        }
    }
    checked_swap_step(current_price_sqrt, target_price_sqrt, liquidity, amount, by_amount_in, fee)
}

/// Whether `amount` moves the price away from `current_price_sqrt` at all.
pub open spec fn spec_is_enough_amount_to_push_price(
    amount: nat,
    cur: nat,
    l: nat,
    fee: nat,
    by_amount_in: bool,
    x_to_y: bool,
) -> Result<bool, ErrSpec> {
    if l == 0 {
        Ok(true)
    } else if by_amount_in && fee > FIXED_POINT_ONE {
        Err((ErrorCause::SubUnderflow, 1))
    } else {
        let next = if by_amount_in {
            spec_next_sqrt_price_from_input(
                cur,
                l,
                mul_div(amount, (FIXED_POINT_ONE - fee) as nat, FIXED_POINT_ONE as nat),
                x_to_y,
            )
        } else {
            spec_next_sqrt_price_from_output(cur, l, amount, x_to_y)
        };
        match next {
            Ok(p) => Ok(cur != p.v),
            Err(e) => Err((e.0, e.1 + 1)),
        }
    }
}

pub fn is_enough_amount_to_push_price(
    amount: TokenAmount,
    current_price_sqrt: Price,
    liquidity: Liquidity,
    fee: FixedPoint,
    by_amount_in: bool,
    x_to_y: bool,
) -> (r: Result<bool, TrackableError>)
    ensures
        agrees(
            r,
            spec_is_enough_amount_to_push_price(
                amount.0 as nat,
                current_price_sqrt.v as nat,
                liquidity.v as nat,
                fee.v as nat,
                by_amount_in,
                x_to_y,
            ),
        ),
{
    if liquidity.is_zero() {
        return Ok(true);
    }
    let next_price_sqrt = if by_amount_in {
        let one_minus_fee = match FixedPoint::from_integer(1).checked_sub(fee) {
            Ok(v) => v,
            Err(_) => return Err(TrackableError::new(ErrorCause::SubUnderflow, "is_enough_amount_to_push_price")),
        };
        proof {
            lemma_mul_inequality(one_minus_fee.v as int, FIXED_POINT_ONE as int, amount.0 as int);
            lemma_mul_is_commutative(one_minus_fee.v as int, amount.0 as int);
            lemma_div_is_ordered((amount.0 * one_minus_fee.v) as int, (FIXED_POINT_ONE * amount.0) as int, FIXED_POINT_ONE as int);
            lemma_div_by_multiple(amount.0 as int, FIXED_POINT_ONE as int);
            lemma_mul_is_commutative(FIXED_POINT_ONE as int, amount.0 as int);
        }
        let amount_after_fee = amount.big_mul_fixed(one_minus_fee);
        get_next_sqrt_price_from_input(current_price_sqrt, liquidity, amount_after_fee, x_to_y)
    } else {
        get_next_sqrt_price_from_output(current_price_sqrt, liquidity, amount, x_to_y)
    };
    match next_price_sqrt {
        Ok(p) => Ok(current_price_sqrt.v != p.v),
        Err(e) => Err(e.mark("is_enough_amount_to_push_price")),
    }
}

// ---------------------------------------------------------------------------
// Crossing ticks and tick limits

/// Whether crossing `tick` from the pool's current index adds its liquidity change.
pub open spec fn crossing_adds_liquidity(pool: Pool, tick: Tick) -> bool {
    (pool.current_tick_index >= tick.index) != tick.sign
}

/// Crosses `tick`: flips its outside fee growth and moves the pool liquidity by
/// its liquidity change; `InvalidPoolLiquidity` when that leaves the range of a `u128`.
pub fn cross_tick(tick: &mut Tick, pool: &mut Pool) -> (r: Result<(), ErrorCause>)
    ensures
        final(tick).fee_growth_outside_x.v == if old(tick).fee_growth_outside_x.v <= old(pool).fee_growth_global_x.v {
            (old(pool).fee_growth_global_x.v - old(tick).fee_growth_outside_x.v) as nat
        } else {
            (crate::u256::pow128() + old(pool).fee_growth_global_x.v - old(tick).fee_growth_outside_x.v) as nat
        },
        final(tick).fee_growth_outside_y.v == if old(tick).fee_growth_outside_y.v <= old(pool).fee_growth_global_y.v {
            (old(pool).fee_growth_global_y.v - old(tick).fee_growth_outside_y.v) as nat
        } else {
            (crate::u256::pow128() + old(pool).fee_growth_global_y.v - old(tick).fee_growth_outside_y.v) as nat
        },
        *final(tick) == (Tick {
            fee_growth_outside_x: final(tick).fee_growth_outside_x,
            fee_growth_outside_y: final(tick).fee_growth_outside_y,
            ..*old(tick)
        }),
        r is Ok <==> (if crossing_adds_liquidity(*old(pool), *old(tick)) {
            old(pool).liquidity.v + old(tick).liquidity_change.v <= u128::MAX
        } else {
            old(tick).liquidity_change.v <= old(pool).liquidity.v
        }),
        r is Ok ==> *final(pool) == (Pool {
            liquidity: Liquidity {
                v: if crossing_adds_liquidity(*old(pool), *old(tick)) {
                    (old(pool).liquidity.v + old(tick).liquidity_change.v) as u128
                } else {
                    (old(pool).liquidity.v - old(tick).liquidity_change.v) as u128
                },
            },
            ..*old(pool)
        }),
        r is Err ==> r == Err::<(), ErrorCause>(ErrorCause::InvalidPoolLiquidity) && *final(pool) == *old(pool),
{
    tick.fee_growth_outside_x = pool.fee_growth_global_x.unchecked_sub(tick.fee_growth_outside_x);
    tick.fee_growth_outside_y = pool.fee_growth_global_y.unchecked_sub(tick.fee_growth_outside_y);

    // When going to higher tick net_liquidity should be added and for going lower subtracted
    let new_liquidity = if (pool.current_tick_index >= tick.index) != tick.sign {
        pool.liquidity.checked_add(tick.liquidity_change)
    } else {
        pool.liquidity.checked_sub(tick.liquidity_change)
    };
    match new_liquidity {
        Ok(l) => {
            pool.liquidity = l;
            Ok(())
        },
        Err(_) => Err(ErrorCause::InvalidPoolLiquidity),
    }
}

/// The highest tick a pool with this spacing can reach.
pub fn get_max_tick(tick_spacing: u16) -> (r: Result<i32, TrackableError>)
    ensures
        (TICK_LIMIT - 1) * tick_spacing <= i32::MAX ==> (r matches Ok(t) && t == if (TICK_LIMIT - 1) * tick_spacing < MAX_TICK {
            (TICK_LIMIT - 1) * tick_spacing
        } else {
            MAX_TICK as int
        }),
        (TICK_LIMIT - 1) * tick_spacing > i32::MAX ==> (r matches Err(e) && e.spec() == (ErrorCause::MulOverflow, 1nat)),
{
    let limit_by_space = match (TICK_LIMIT - 1).checked_mul(tick_spacing as i32) {
        Some(v) => v,
        None => return Err(TrackableError::new(ErrorCause::MulOverflow, "get_max_tick")),
    };
    Ok(if limit_by_space < MAX_TICK { limit_by_space } else { MAX_TICK })
}

/// The lowest tick a pool with this spacing can reach.
pub fn get_min_tick(tick_spacing: u16) -> (r: Result<i32, TrackableError>)
    ensures
        (-TICK_LIMIT + 1) * tick_spacing >= i32::MIN ==> (r matches Ok(t) && t == if (-TICK_LIMIT + 1) * tick_spacing > -MAX_TICK {
            (-TICK_LIMIT + 1) * tick_spacing
        } else {
            -MAX_TICK
        }),
        (-TICK_LIMIT + 1) * tick_spacing < i32::MIN ==> (r matches Err(e) && e.spec() == (ErrorCause::MulOverflow, 1nat)),
{
    let limit_by_space = match (-TICK_LIMIT + 1).checked_mul(tick_spacing as i32) {
        Some(v) => v,
        None => return Err(TrackableError::new(ErrorCause::MulOverflow, "get_min_tick")),
    };
    Ok(if limit_by_space > -MAX_TICK { limit_by_space } else { -MAX_TICK })
}

/// The price at `get_max_tick(tick_spacing)`.
pub fn get_max_sqrt_price(tick_spacing: u16) -> (r: Result<Price, TrackableError>)
    ensures
        (TICK_LIMIT - 1) * tick_spacing <= i32::MAX ==> (r matches Ok(p) && p.v == spec_price_sqrt(
            if (TICK_LIMIT - 1) * tick_spacing < MAX_TICK { (TICK_LIMIT - 1) * tick_spacing } else { MAX_TICK as int },
        )),
        (TICK_LIMIT - 1) * tick_spacing > i32::MAX ==> (r matches Err(e) && e.spec() == (ErrorCause::MulOverflow, 1nat)),
{
    let max_tick = get_max_tick(tick_spacing)?;
    proof {
        assert((TICK_LIMIT - 1) * tick_spacing >= 0) by (nonlinear_arith)
            requires tick_spacing >= 0;
    }
    Ok(calculate_price_sqrt(max_tick))
}

/// The price at `get_min_tick(tick_spacing)`.
pub fn get_min_sqrt_price(tick_spacing: u16) -> (r: Result<Price, TrackableError>)
    ensures
        (-TICK_LIMIT + 1) * tick_spacing >= i32::MIN ==> (r matches Ok(p) && p.v == spec_price_sqrt(
            if (-TICK_LIMIT + 1) * tick_spacing > -MAX_TICK { (-TICK_LIMIT + 1) * tick_spacing } else { -MAX_TICK as int },
        )),
        (-TICK_LIMIT + 1) * tick_spacing < i32::MIN ==> (r matches Err(e) && e.spec() == (ErrorCause::MulOverflow, 1nat)),
{
    let min_tick = get_min_tick(tick_spacing)?;
    proof {
        assert((-TICK_LIMIT + 1) * tick_spacing <= 0) by (nonlinear_arith)
            requires tick_spacing >= 0;
    }
    Ok(calculate_price_sqrt(min_tick))
}


// ---------------------------------------------------------------------------
// The limit of the next swap step

/// Whether the pool can look for the next tick from `tick`: the search stays in
/// the tickmap and the tick it may return has a price.
pub open spec fn closer_limit_ok(tick: int, spacing: int, x_to_y: bool) -> bool {
    if x_to_y {
        down_search_ok(tick, spacing) && tick <= MAX_TICK
    } else {
        up_search_ok(tick, spacing) && tick + spacing >= -MAX_TICK
    }
}

/// The price the next swap step moves toward, with the tick there: `(index, true)`
/// for an initialized tick, `(index, false)` for the end of the search range, none
/// when the price limit of the swap comes first.
pub open spec fn spec_closer_limit(
    bitmap: Seq<u8>,
    sqrt_price_limit: nat,
    x_to_y: bool,
    tick: int,
    spacing: int,
) -> Result<(Price, Option<(i32, bool)>), ErrorCause> {
    let found = if x_to_y {
        spec_prev_initialized(bitmap, 0, tick, spacing)
    } else {
        spec_next_initialized(bitmap, 0, tick, spacing)
    };
    match found {
        Some(index) => {
            let price = spec_price_sqrt(index as int);
            if (x_to_y && price > sqrt_price_limit) || (!x_to_y && price < sqrt_price_limit) {
                Ok((Price { v: price as u128 }, Some((index, true))))
            } else {
                Ok((Price { v: sqrt_price_limit as u128 }, None))
            }
        },
        None => {
            let index = spec_search_limit(tick, spacing, !x_to_y);
            let price = spec_price_sqrt(index);
            if tick == index {
                Err(ErrorCause::LimitReached)
            } else if (x_to_y && price > sqrt_price_limit) || (!x_to_y && price < sqrt_price_limit) {
                Ok((Price { v: price as u128 }, Some((index as i32, false))))
            } else {
                Ok((Price { v: sqrt_price_limit as u128 }, None))
            }
        },
    }
}

/// Finds the initialized tick nearest to `current_tick` in the direction of the
/// trade and compares its price with the price limit of the trade.
pub fn get_closer_limit(
    sqrt_price_limit: Price,
    x_to_y: bool,
    current_tick: i32,
    tick_spacing: u16,
    tickmap: &Tickmap,
) -> (r: Result<(Price, Option<(i32, bool)>), ErrorCause>)
    requires
        closer_limit_ok(current_tick as int, tick_spacing as int, x_to_y),
    ensures
        r == spec_closer_limit(tickmap.bitmap@, sqrt_price_limit.v as nat, x_to_y, current_tick as int, tick_spacing as int),
{
    let closes_tick_index = if x_to_y {
        tickmap.prev_initialized(current_tick, tick_spacing)
    } else {
        tickmap.next_initialized(current_tick, tick_spacing)
    };
    match closes_tick_index {
        Some(index) => {
            proof {
                if x_to_y {
                    crate::tickmap::lemma_search_limit_bounds(current_tick as int, tick_spacing as int, false);
                    crate::tickmap::lemma_down_result_range(tickmap.bitmap@, 0, current_tick as int, tick_spacing as int, index);
                } else {
                    crate::tickmap::lemma_search_limit_bounds(current_tick as int, tick_spacing as int, true);
                    crate::tickmap::lemma_up_result_range(tickmap.bitmap@, 0, current_tick as int, tick_spacing as int, index);
                }
            }
            let price = calculate_price_sqrt(index);
            if (x_to_y && price.v > sqrt_price_limit.v) || (!x_to_y && price.v < sqrt_price_limit.v) {
                Ok((price, Some((index, true))))
            } else {
                Ok((sqrt_price_limit, None))
            }
        },
        None => {
            proof {
                lemma_trunc_div_bounds(current_tick as int, tick_spacing as int);
                if x_to_y {
                    crate::tickmap::lemma_search_limit_bounds(current_tick as int, tick_spacing as int, false);
                } else {
                    crate::tickmap::lemma_search_limit_bounds(current_tick as int, tick_spacing as int, true);
                }
            }
            let index = get_search_limit(current_tick, tick_spacing, !x_to_y);
            let price = calculate_price_sqrt(index);
            if current_tick == index {
                return Err(ErrorCause::LimitReached);
            }
            if (x_to_y && price.v > sqrt_price_limit.v) || (!x_to_y && price.v < sqrt_price_limit.v) {
                Ok((price, Some((index, false))))
            } else {
                Ok((sqrt_price_limit, None))
            }
        },
    }
}

/// Tests `closer_limit_ok`.
pub fn closer_limit_check(tick: i32, tick_spacing: u16, x_to_y: bool) -> (r: bool)
    ensures
        r == closer_limit_ok(tick as int, tick_spacing as int, x_to_y),
{
    if tick_spacing == 0 {
        return false;
    }
    let spacing = tick_spacing as i32;
    let rem = crate::int_ops::rem_i32(tick, spacing);
    let ghost t = tick as int;
    let ghost sp = spacing as int;
    proof {
        lemma_fundamental_div_mod(t, sp);
        lemma_mod_bound(t, sp);
        lemma_trunc_div_bounds(t, sp);
        if t % sp == 0 {
            lemma_mul_is_commutative(sp, t / sp);
            if t < 0 {
                lemma_mul_unary_negation(sp, t / sp);
                lemma_fundamental_div_mod_converse(-t, sp, -(t / sp), 0);
            }
        }
        if crate::int_ops::trunc_rem(t, sp) == 0 {
            lemma_mod_multiples_basic(crate::int_ops::trunc_div(t, sp), sp);
        }
    }
    if rem != 0 {
        return false;
    }
    let index = crate::int_ops::div_i32(tick, spacing);
    if index < -TICK_LIMIT {
        return false;
    }
    if x_to_y {
        index <= TICK_LIMIT - 1 && tick <= MAX_TICK
    } else {
        (tick as i64) + (spacing as i64) <= i32::MAX as i64 && (index as i64) + 1 + (TICK_LIMIT as i64) <= i32::MAX as i64
            && (tick as i64) + (spacing as i64) >= -(MAX_TICK as i64)
    }
}

} // verus!
