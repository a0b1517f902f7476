//! The tick at a square root price: a binary logarithm of the price in 32.32
//! fixed point, divided by the logarithm of sqrt(1.0001), and checked against
//! the exact price of the neighbouring tick.
use vstd::prelude::*;
use vstd::arithmetic::div_mod::*;
use vstd::arithmetic::mul::*;
use vstd::arithmetic::power2::*;
use vstd::bits::{lemma_u64_shr_is_div, lemma_u128_shr_is_div};
use crate::int_ops::{rem_i32, trunc_rem, trunc_div};
use crate::decimals::Price;
use crate::invariant_math::{MAX_TICK, calculate_price_sqrt, spec_price_sqrt, lemma_price_sqrt_increasing, lemma_price_sqrt_step};

verus! {

/// 1.0 in 32.32 fixed point.
pub const LOG2_ONE: u128 = 4294967296;
/// log2(sqrt(1.0001)) in 32.32 fixed point.
pub const LOG2_SQRT_10001: u64 = 309801;
/// Largest error of the logarithm below 1.0, in 32.32 fixed point.
pub const LOG2_NEGATIVE_MAX_LOSE: u64 = 300000;
/// The last fractional bit the logarithm computes: 2^16.
pub const LOG2_ACCURACY: u64 = 65536;
/// 10^24, the scale of a `Price`.
pub const PRICE_DENOMINATOR: u128 = 1_000_000_000_000_000_000_000_000;

/// A price (scale 24) in 32.32 fixed point, rounded down.
pub open spec fn spec_price_to_x32(v: nat) -> nat {
    v * 4294967296 / 1_000_000_000_000_000_000_000_000
}

/// The price in 32.32 fixed point; the price must be below 2^96.
pub fn price_to_x32(decimal: Price) -> (r: u64)
    requires
        decimal.v * LOG2_ONE <= u128::MAX,
    ensures
        r == spec_price_to_x32(decimal.v as nat),
{
    let m = decimal.v * LOG2_ONE;
    proof {
        lemma_div_is_ordered(m as int, u128::MAX as int, PRICE_DENOMINATOR as int);
        assert(u128::MAX as int / PRICE_DENOMINATOR as int <= u64::MAX);
    }
    (m / PRICE_DENOMINATOR) as u64
}

/// The largest multiple of `spacing` at or below `tick`.
pub open spec fn spec_align_tick(tick: int, spacing: int) -> int {
    (tick / spacing) * spacing
}

/// Rounds `accurate_tick` down to a multiple of `tick_spacing`.
pub fn align_tick_to_spacing(accurate_tick: i32, tick_spacing: i32) -> (r: i32)
    requires
        tick_spacing > 0,
        spec_align_tick(accurate_tick as int, tick_spacing as int) >= i32::MIN,
    ensures
        r == spec_align_tick(accurate_tick as int, tick_spacing as int),
        r <= accurate_tick,
        accurate_tick - r < tick_spacing,
        (r as int) % (tick_spacing as int) == 0,
{
    let ghost t = accurate_tick as int;
    let ghost s = tick_spacing as int;
    proof {
        lemma_fundamental_div_mod(t, s);
        lemma_mod_bound(t, s);
        lemma_mul_is_commutative(s, t / s);
        lemma_mod_multiples_basic(t / s, s);
        let m: int = if t >= 0 { t } else { -t };
        lemma_fundamental_div_mod(m, s);
        lemma_mod_bound(m, s);
        lemma_mul_is_commutative(s, m / s);
        if t < 0 {
            lemma_mul_unary_negation(m / s, s);
            // the truncated remainder is either zero or the Euclidean one minus the spacing
            let q = m / s;
            let e = m % s;
            if e == 0 {
                lemma_fundamental_div_mod_converse(t, s, -q, 0);
            } else {
                assert((-q - 1) * s == -(s * q) - s) by (nonlinear_arith);
                lemma_fundamental_div_mod_converse(t, s, -q - 1, s - e);
            }
        } else {
            lemma_fundamental_div_mod_converse(t, s, m / s, m % s);
        }
    }
    let rem = rem_i32(accurate_tick, tick_spacing);
    if accurate_tick > 0 {
        accurate_tick - rem
    } else {
        let euclid = if rem < 0 { rem + tick_spacing } else { rem };
        accurate_tick - euclid
    }
}


/// The position of the highest set bit of `x` (0 for 0 and 1).
pub open spec fn log2_floor(x: nat) -> nat
    decreases x,
{
    if x < 2 { 0 } else { 1 + log2_floor(x / 2) }
}

/// Splitting `k` halvings off the logarithm of a number of at least 2^k.
proof fn lemma_log2_floor_shift(x: nat, k: nat)
    requires
        x >= pow2(k),
    ensures
        log2_floor(x) == k + log2_floor(x / pow2(k)),
    decreases k,
{
    if k == 0 {
        lemma2_to64();
        assert(x / 1 == x);
    } else {
        lemma_pow2_unfold(k);
        lemma_pow2_pos((k - 1) as nat);
        assert(x >= 2);
        assert(x / 2 >= pow2((k - 1) as nat)) by {
            lemma_div_is_ordered(2 * pow2((k - 1) as nat) as int, x as int, 2);
            lemma_div_by_multiple(pow2((k - 1) as nat) as int, 2);
            lemma_mul_is_commutative(2, pow2((k - 1) as nat) as int);
        }
        lemma_log2_floor_shift(x / 2, (k - 1) as nat);
        lemma_div_denominator(x as int, 2, pow2((k - 1) as nat) as int);
        lemma_mul_is_commutative(2, pow2((k - 1) as nat) as int);
        assert(log2_floor(x) == 1 + log2_floor(x / 2));
        assert((x / 2) / pow2((k - 1) as nat) == x / pow2(k));
    }
}

/// A number below 2^k has a logarithm below k.
proof fn lemma_log2_floor_below(x: nat, k: nat)
    requires
        k >= 1,
        x < pow2(k),
    ensures
        log2_floor(x) < k,
    decreases k,
{
    lemma_pow2_unfold(k);
    if x >= 2 {
        assert(k >= 2) by {
            if k == 1 {
                lemma2_to64();
            }
        }
        lemma_multiply_divide_lt(x as int, 2, pow2((k - 1) as nat) as int);
        lemma_log2_floor_below(x / 2, (k - 1) as nat);
    }
}

/// A number has at least 2^log2 and below 2^(log2 + 1).
proof fn lemma_log2_floor_bounds(x: nat)
    requires
        x >= 1,
    ensures
        pow2(log2_floor(x)) <= x < pow2(log2_floor(x) + 1),
    decreases x,
{
    lemma2_to64();
    if x >= 2 {
        lemma_log2_floor_bounds(x / 2);
        lemma_pow2_unfold(log2_floor(x));
        lemma_pow2_unfold(log2_floor(x) + 1);
    }
}

/// One halving step of `log2_floor_x32`: divides by 2^k when the value has at least 2^k.
fn log2_floor_step(x: u64, k: u64) -> (r: (u64, u64))
    requires
        1 <= k < 64,
        x < pow2((2 * k) as nat),
    ensures
        r.1 == if x >= pow2(k as nat) { k } else { 0 },
        r.0 == x as nat / pow2(r.1 as nat),
        log2_floor(x as nat) == r.1 + log2_floor(r.0 as nat),
        r.0 < pow2(k as nat),
{
    proof {
        lemma_pow2_pos(k as nat);
        lemma2_to64();
        lemma_pow2_strictly_increases(k as nat, 64);
        vstd::bits::lemma_u64_shl_is_mul(1, k);
    }
    if x >= (1u64 << k) {
        proof {
            lemma_log2_floor_shift(x as nat, k as nat);
            lemma_u64_shr_is_div(x, k);
            lemma_pow2_adds(k as nat, k as nat);
            lemma_multiply_divide_lt(x as int, pow2(k as nat) as int, pow2(k as nat) as int);
        }
        (x >> k, k)
    } else {
        (x, 0)
    }
}

/// The position of the highest set bit of `sqrt_price_x32` (0 for 0).
pub fn log2_floor_x32(sqrt_price_x32: u64) -> (r: u64)
    ensures
        r == log2_floor(sqrt_price_x32 as nat),
        r < 64,
{
    proof {
        lemma2_to64();
        lemma2_to64_rest();
    }
    let (x, a) = log2_floor_step(sqrt_price_x32, 32);
    let (x, b) = log2_floor_step(x, 16);
    let (x, c) = log2_floor_step(x, 8);
    let (x, d) = log2_floor_step(x, 4);
    let (x, e) = log2_floor_step(x, 2);
    let f: u64 = if x >= 2 { 1 } else { 0 };
    proof {
        if x >= 2 {
            assert(log2_floor(x as nat) == 1 + log2_floor((x / 2) as nat));
        }
    }
    a + b + c + d + e + f
}


/// The fractional bits of a logarithm found by repeated squaring: `y` is the
/// mantissa in 32.32 fixed point (in [1, 2)), `delta` the weight of the next bit.
pub open spec fn log2_fraction(y: nat, delta: nat, acc: nat) -> nat
    decreases delta,
{
    if delta <= 65536 {
        acc
    } else {
        let y2 = y * y / 4294967296;
        if y2 >= 8589934592 {
            log2_fraction(y2 / 2, delta / 2, acc + delta)
        } else {
            log2_fraction(y2, delta / 2, acc)
        }
    }
}

/// The value whose logarithm is taken: the price itself at or above 1.0, else
/// 2^64 / (price + 1), which is 2^64 kept in 64 bits (so 0) when the price is 0.
pub open spec fn log2_argument(x: nat) -> nat {
    if x >= 4294967296 { x } else { (18446744073709551616nat / (x + 1)) % 18446744073709551616nat }
}

/// Sign and magnitude of the binary logarithm of a 32.32 value, in 32.32 fixed
/// point, with 15 fractional bits.
pub open spec fn spec_log2_approx(x: nat) -> (bool, nat) {
    let sign = x >= 4294967296;
    let a = log2_argument(x);
    let f = log2_floor(a / 4294967296);
    let result = f * 4294967296;
    let y = a / pow2(f);
    if y == 4294967296 { (sign, result) } else { (sign, log2_fraction(y, 2147483648, result)) }
}

/// The fraction loop keeps its mantissa below 2.0 and adds distinct bits.
proof fn lemma_log2_fraction_step(y: nat)
    requires
        y < 8589934592,
    ensures
        y * y / 4294967296 < 17179869184,
{
    assert(y * y < 8589934592 * 8589934592) by (nonlinear_arith)
        requires y < 8589934592;
    lemma_multiply_divide_lt((y * y) as int, 4294967296, 17179869184);
}

/// The binary logarithm of `sqrt_price_x32` (32.32): its sign (true for at least 1.0)
/// and its magnitude in 32.32 fixed point.
pub fn log2_iterative_approximation_x32(sqrt_price_x32: u64) -> (r: (bool, u64))
    ensures
        r.0 == spec_log2_approx(sqrt_price_x32 as nat).0,
        r.1 == spec_log2_approx(sqrt_price_x32 as nat).1,
        r.1 < 65 * 4294967296,
{
    let mut x = sqrt_price_x32;
    let mut sign = true;
    if (x as u128) < LOG2_ONE {
        sign = false;
        let q: u128 = 18446744073709551616u128 / (x as u128 + 1);
        proof {
            lemma_div_is_ordered_by_denominator(18446744073709551616int, 1, x as int + 1);
        }
        x = if q == 18446744073709551616u128 { 0 } else { q as u64 };
    }
    proof {
        lemma2_to64();
        lemma2_to64_rest();
        lemma_u64_shr_is_div(x, 32);
    }
    let log2_floor_value = log2_floor_x32(x >> 32);
    proof {
        let f = log2_floor_value as nat;
        let hi = x as nat / pow2(32);
        // the mantissa x / 2^f lies in [2^32, 2^33) unless x is below 2^32
        lemma_pow2_pos(f);
        lemma_pow2_strictly_increases(f, 64);
        lemma_fundamental_div_mod(x as int, pow2(32) as int);
        lemma_mod_bound(x as int, pow2(32) as int);
        if hi >= 1 {
            lemma_log2_floor_bounds(hi);
            lemma_pow2_adds(f + 1, 32);
            lemma_mul_inequality((hi + 1) as int, pow2(f + 1) as int, pow2(32) as int);
            lemma_mul_is_distributive_add_other_way(pow2(32) as int, hi as int, 1);
            lemma_mul_is_commutative(pow2(32) as int, (hi + 1) as int);
            assert(x < pow2(f + 1) * pow2(32));
            lemma_pow2_adds(f, 33);
            assert(f + 1 + 32 == f + 33);
            lemma_multiply_divide_lt(x as int, pow2(f) as int, pow2(33) as int);
        } else {
            assert(f == 0);
            assert(x < pow2(32));
        }
        lemma_u128_shr_is_div(x as u128, log2_floor_value as u128);
        assert(x as nat / pow2(f) < 8589934592);
        vstd::bits::lemma_u64_shl_is_mul(log2_floor_value, 32);
        assert(log2_floor_value * pow2(32) < 64 * 4294967296) by (nonlinear_arith)
            requires log2_floor_value < 64, pow2(32) == 4294967296;
    }
    let mut result: u64 = log2_floor_value << 32;
    let mut y: u128 = (x as u128) >> log2_floor_value;
    if y == LOG2_ONE {
        return (sign, result);
    }
    let mut delta: u64 = 2147483648;
    while delta > LOG2_ACCURACY
        invariant
            y < 8589934592,
            result < 64 * 4294967296 + 4294967296 - 2 * delta,
            delta == 65536 || delta == 131072 || delta == 262144 || delta == 524288 || delta == 1048576
                || delta == 2097152 || delta == 4194304 || delta == 8388608 || delta == 16777216
                || delta == 33554432 || delta == 67108864 || delta == 134217728 || delta == 268435456
                || delta == 536870912 || delta == 1073741824 || delta == 2147483648,
            log2_fraction(y as nat, delta as nat, result as nat) == spec_log2_approx(sqrt_price_x32 as nat).1,
        decreases delta,
    {
        proof {
            lemma_log2_fraction_step(y as nat);
        }
        y = y * y / LOG2_ONE;
        if y >= 8589934592 {
            result = result + delta;
            y = y / 2;
        }
        delta = delta / 2;
    }
    (sign, result)
}


/// The whole ticks below and above the logarithm of a price: its sign, the tick
/// nearer to zero and the one farther from it.
pub open spec fn tick_candidates(v: nat) -> (bool, int, int) {
    let (sign, l) = spec_log2_approx(spec_price_to_x32(v));
    if sign {
        (sign, (l / 309801) as int, (l / 309801) as int + 1)
    } else {
        (sign, -(((l + 300000) / 309801) as int), -(((l + 300000) / 309801) as int) - 1)
    }
}

/// Whether the tick at price `v` can be computed: the price is below 2^96 and the
/// candidate tick whose exact price decides between the two lies in the price domain.
pub open spec fn tick_at_sqrt_price_ok(v: nat, spacing: int) -> bool {
    let (sign, nearer, farther) = tick_candidates(v);
    &&& spacing > 0
    &&& v * 4294967296 <= u128::MAX
    &&& spec_align_tick(farther, spacing) != spec_align_tick(nearer, spacing) ==> if sign {
        -MAX_TICK <= farther <= MAX_TICK
    } else {
        -MAX_TICK <= nearer <= MAX_TICK
    }
}

/// The tick (a multiple of `spacing`) at square root price `v`.
pub open spec fn spec_tick_at_sqrt_price(v: nat, spacing: int) -> int {
    let (sign, nearer, farther) = tick_candidates(v);
    let fws = spec_align_tick(farther, spacing);
    let nws = spec_align_tick(nearer, spacing);
    if fws == nws {
        nws
    } else {
        let accurate = if sign {
            if v >= spec_price_sqrt(farther) { fws } else { nws }
        } else {
            if spec_price_sqrt(nearer) <= v { nws } else { fws }
        };
        if spacing > 1 { spec_align_tick(accurate, spacing) } else { accurate }
    }
}

/// Tick `t` holds price `v`: the price of `t` is at most `v`, and `v` is below
/// the price of the next tick.
pub open spec fn tick_holds_price(t: int, v: nat) -> bool {
    spec_price_sqrt(t) <= v < spec_price_sqrt(t + 1)
}

/// The lower of the two candidate ticks of price `v`.
pub open spec fn lower_candidate(v: nat) -> int {
    let (sign, nearer, farther) = tick_candidates(v);
    if sign { nearer } else { farther }
}

/// The logarithm of `v` places it between its two candidate ticks: the price of
/// the lower candidate is at most `v`, `v` is below the price two ticks above
/// it, and the candidates lie in the tick domain (the lower one may be the tick
/// just below it).
pub open spec fn candidates_around(v: nat) -> bool {
    &&& -MAX_TICK - 1 <= lower_candidate(v) < MAX_TICK
    &&& spec_price_sqrt(lower_candidate(v)) <= v < spec_price_sqrt(lower_candidate(v) + 2)
}

/// The two candidates of a price are adjacent ticks.
pub proof fn lemma_candidates_adjacent(v: nat)
    ensures
        ({
            let (sign, nearer, farther) = tick_candidates(v);
            &&& sign ==> nearer == lower_candidate(v) && farther == lower_candidate(v) + 1
            &&& !sign ==> farther == lower_candidate(v) && nearer == lower_candidate(v) + 1
        }),
{
}

/// Where the logarithm places the price between its two candidate ticks, the
/// tick found (unit spacing) holds the price, and it is the greatest tick of the
/// domain whose price is at most the price.
pub proof fn lemma_tick_at_price_holds_price(v: nat)
    requires
        candidates_around(v),
    ensures
        tick_holds_price(spec_tick_at_sqrt_price(v, 1), v),
        forall|s: int|
            -MAX_TICK <= s <= MAX_TICK && #[trigger] spec_price_sqrt(s) <= v ==> s <= spec_tick_at_sqrt_price(v, 1),
{
    let (sign, nearer, farther) = tick_candidates(v);
    assert(spec_align_tick(nearer, 1) == nearer);
    assert(spec_align_tick(farther, 1) == farther);
    let t = spec_tick_at_sqrt_price(v, 1);
    assert(-MAX_TICK - 1 <= t <= MAX_TICK);
    assert forall|s: int| -MAX_TICK <= s <= MAX_TICK && #[trigger] spec_price_sqrt(s) <= v implies s <= t by {
        if s > t {
            if s > t + 1 {
                lemma_price_sqrt_increasing(t + 1, s);
            }
        }
    }
}

/// Two ticks, each followed by a tick of the domain, that hold the same price
/// are the same tick.
pub proof fn lemma_tick_holding_price_is_unique(t1: int, t2: int, v: nat)
    requires
        -MAX_TICK - 1 <= t1 <= MAX_TICK,
        -MAX_TICK - 1 <= t2 <= MAX_TICK,
        tick_holds_price(t1, v),
        tick_holds_price(t2, v),
    ensures
        t1 == t2,
{
    if t1 < t2 {
        if t1 + 1 < t2 {
            lemma_price_sqrt_increasing(t1 + 1, t2);
        }
    } else if t2 < t1 {
        if t2 + 1 < t1 {
            lemma_price_sqrt_increasing(t2 + 1, t1);
        }
    }
}

/// The tick found at the price of tick `n` is `n`, one unit of price below it
/// is `n - 1`, and one unit above it is `n`, wherever the logarithm places the
/// price between its two candidate ticks.
pub proof fn lemma_tick_at_price_of_tick(n: int)
    requires
        -MAX_TICK < n < MAX_TICK,
    ensures
        candidates_around(spec_price_sqrt(n)) ==> spec_tick_at_sqrt_price(spec_price_sqrt(n), 1) == n,
        candidates_around((spec_price_sqrt(n) - 1) as nat) ==> spec_tick_at_sqrt_price(
            (spec_price_sqrt(n) - 1) as nat,
            1,
        ) == n - 1,
        candidates_around(spec_price_sqrt(n) + 1) ==> spec_tick_at_sqrt_price(spec_price_sqrt(n) + 1, 1) == n,
{
    let p = spec_price_sqrt(n);
    lemma_price_sqrt_step(n);
    lemma_price_sqrt_step(n - 1);
    assert(candidates_around(p) ==> spec_tick_at_sqrt_price(p, 1) == n) by {
        if candidates_around(p) {
            lemma_found_tick_is(p, n);
        }
    }
    assert(candidates_around((p - 1) as nat) ==> spec_tick_at_sqrt_price((p - 1) as nat, 1) == n - 1) by {
        if candidates_around((p - 1) as nat) {
            lemma_found_tick_is((p - 1) as nat, n - 1);
        }
    }
    assert(candidates_around(p + 1) ==> spec_tick_at_sqrt_price(p + 1, 1) == n) by {
        if candidates_around(p + 1) {
            lemma_found_tick_is(p + 1, n);
        }
    }
}

/// Where the logarithm places the price between its candidates, the tick found
/// is any tick of the domain that holds the price.
proof fn lemma_found_tick_is(v: nat, n: int)
    requires
        candidates_around(v),
        -MAX_TICK - 1 <= n <= MAX_TICK,
        tick_holds_price(n, v),
    ensures
        spec_tick_at_sqrt_price(v, 1) == n,
{
    lemma_tick_at_price_holds_price(v);
    let (sign, nearer, farther) = tick_candidates(v);
    assert(spec_align_tick(nearer, 1) == nearer);
    assert(spec_align_tick(farther, 1) == farther);
    lemma_tick_holding_price_is_unique(spec_tick_at_sqrt_price(v, 1), n, v);
}

/// Aligning to a spacing twice is aligning once.
proof fn lemma_align_idempotent(t: int, s: int)
    requires
        s > 0,
    ensures
        spec_align_tick(spec_align_tick(t, s), s) == spec_align_tick(t, s),
{
    lemma_div_multiples_vanish(t / s, s);
    lemma_mul_is_commutative(s, t / s);
}

/// The tick found with a spacing is the tick found with unit spacing, rounded
/// down to a multiple of the spacing.
pub proof fn lemma_spaced_tick_is_aligned_unit_tick(v: nat, spacing: int)
    requires
        spacing > 0,
    ensures
        spec_tick_at_sqrt_price(v, spacing) == spec_align_tick(spec_tick_at_sqrt_price(v, 1), spacing),
{
    let (sign, nearer, farther) = tick_candidates(v);
    assert(spec_align_tick(nearer, 1) == nearer);
    assert(spec_align_tick(farther, 1) == farther);
    assert(farther != nearer);
    lemma_align_idempotent(nearer, spacing);
    lemma_align_idempotent(farther, spacing);
}

/// Aligning a small tick does not leave the range of an `i32`.
proof fn lemma_align_small(t: int, s: int)
    requires
        0 < s <= 65535,
        -1_000_000 <= t <= 1_000_000,
    ensures
        spec_align_tick(t, s) >= i32::MIN,
        spec_align_tick(t, s) <= t,
        spec_align_tick(t, s) % s == 0,
{
    lemma_fundamental_div_mod(t, s);
    lemma_mod_bound(t, s);
    lemma_mul_is_commutative(s, t / s);
    lemma_mod_multiples_basic(t / s, s);
}

/// The sign of the logarithm of the price, its two candidate ticks (nearer to
/// zero, farther from it) and the two rounded down to multiples of `tick_spacing`.
fn candidate_ticks(sqrt_price_decimal: Price, tick_spacing: u16) -> (r: (bool, i32, i32, i32, i32))
    requires
        tick_spacing > 0,
        sqrt_price_decimal.v * LOG2_ONE <= u128::MAX,
    ensures
        (r.0, r.1 as int, r.2 as int) == tick_candidates(sqrt_price_decimal.v as nat),
        -1_000_000 <= r.1 <= 1_000_000,
        -1_000_000 <= r.2 <= 1_000_000,
        r.3 == spec_align_tick(r.2 as int, tick_spacing as int),
        r.4 == spec_align_tick(r.1 as int, tick_spacing as int),
        -1_000_000 <= r.3 <= 1_000_000,
        -1_000_000 <= r.4 <= 1_000_000,
        (r.3 as int) % (tick_spacing as int) == 0,
        (r.4 as int) % (tick_spacing as int) == 0,
{
    let sqrt_price_x32: u64 = price_to_x32(sqrt_price_decimal);
    let (log2_sign, log2_sqrt_price) = log2_iterative_approximation_x32(sqrt_price_x32);
    proof {
        lemma_div_is_ordered((log2_sqrt_price + 300000) as int, 65 * 4294967296int + 300000, 309801);
    }
    let abs_floor_tick: i32 = if log2_sign {
        (log2_sqrt_price / LOG2_SQRT_10001) as i32
    } else {
        ((log2_sqrt_price + LOG2_NEGATIVE_MAX_LOSE) / LOG2_SQRT_10001) as i32
    };
    let nearer_tick = if log2_sign { abs_floor_tick } else { -abs_floor_tick };
    let farther_tick = if log2_sign { abs_floor_tick + 1 } else { -abs_floor_tick - 1 };
    let spacing = tick_spacing as i32;
    proof {
        lemma_align_small(farther_tick as int, spacing as int);
        lemma_align_small(nearer_tick as int, spacing as int);
    }
    let farther_tick_with_spacing = align_tick_to_spacing(farther_tick, spacing);
    let nearer_tick_with_spacing = align_tick_to_spacing(nearer_tick, spacing);
    proof {
        lemma_fundamental_div_mod(farther_tick as int, spacing as int);
        lemma_mod_bound(farther_tick as int, spacing as int);
        lemma_fundamental_div_mod(nearer_tick as int, spacing as int);
        lemma_mod_bound(nearer_tick as int, spacing as int);
        lemma_mul_is_commutative(spacing as int, farther_tick as int / spacing as int);
        lemma_mul_is_commutative(spacing as int, nearer_tick as int / spacing as int);
    }
    (log2_sign, nearer_tick, farther_tick, farther_tick_with_spacing, nearer_tick_with_spacing)
}

/// The tick at square root price `sqrt_price_decimal`, rounded down to a multiple of
/// `tick_spacing`: from the binary logarithm of the price, corrected by the exact
/// price of the neighbouring tick.
pub fn get_tick_at_sqrt_price(sqrt_price_decimal: Price, tick_spacing: u16) -> (r: i32)
    requires
        tick_at_sqrt_price_ok(sqrt_price_decimal.v as nat, tick_spacing as int),
    ensures
        r == spec_tick_at_sqrt_price(sqrt_price_decimal.v as nat, tick_spacing as int),
        (r as int) % (tick_spacing as int) == 0,
{
    let c = candidate_ticks(sqrt_price_decimal, tick_spacing);
    tick_from_candidates(sqrt_price_decimal, tick_spacing, c)
}

/// The tick at a price, from its candidate ticks as `candidate_ticks` gives them.
fn tick_from_candidates(sqrt_price_decimal: Price, tick_spacing: u16, c: (bool, i32, i32, i32, i32)) -> (r: i32)
    requires
        tick_at_sqrt_price_ok(sqrt_price_decimal.v as nat, tick_spacing as int),
        (c.0, c.1 as int, c.2 as int) == tick_candidates(sqrt_price_decimal.v as nat),
        c.3 == spec_align_tick(c.2 as int, tick_spacing as int),
        c.4 == spec_align_tick(c.1 as int, tick_spacing as int),
        -1_000_000 <= c.3 <= 1_000_000,
        -1_000_000 <= c.4 <= 1_000_000,
        (c.3 as int) % (tick_spacing as int) == 0,
        (c.4 as int) % (tick_spacing as int) == 0,
    ensures
        r == spec_tick_at_sqrt_price(sqrt_price_decimal.v as nat, tick_spacing as int),
        (r as int) % (tick_spacing as int) == 0,
{
    let spacing = tick_spacing as i32;
    let (log2_sign, nearer_tick, farther_tick, farther_tick_with_spacing, nearer_tick_with_spacing) = c;
    if farther_tick_with_spacing == nearer_tick_with_spacing {
        return nearer_tick_with_spacing;
    }
    let accurate_tick = if log2_sign {
        let farther_tick_sqrt_price_decimal = calculate_price_sqrt(farther_tick);
        if sqrt_price_decimal.v >= farther_tick_sqrt_price_decimal.v {
            farther_tick_with_spacing
        } else {
            nearer_tick_with_spacing
        }
    } else {
        let nearer_tick_sqrt_price_decimal = calculate_price_sqrt(nearer_tick);
        if nearer_tick_sqrt_price_decimal.v <= sqrt_price_decimal.v {
            nearer_tick_with_spacing
        } else {
            farther_tick_with_spacing
        }
    };
    if tick_spacing > 1 {
        proof {
            lemma_align_small(accurate_tick as int, spacing as int);
        }
        align_tick_to_spacing(accurate_tick, spacing)
    } else {
        accurate_tick
    }
}

/// `get_tick_at_sqrt_price`, or `None` for a price outside the domain where the
/// tick can be computed.
pub fn checked_get_tick_at_sqrt_price(sqrt_price_decimal: Price, tick_spacing: u16) -> (r: Option<i32>)
    ensures
        tick_at_sqrt_price_ok(sqrt_price_decimal.v as nat, tick_spacing as int) ==> r == Some(
            spec_tick_at_sqrt_price(sqrt_price_decimal.v as nat, tick_spacing as int) as i32,
        ),
        !tick_at_sqrt_price_ok(sqrt_price_decimal.v as nat, tick_spacing as int) ==> r is None,
{
    if tick_spacing == 0 || sqrt_price_decimal.v > u128::MAX / LOG2_ONE {
        return None;
    }
    let c = candidate_ticks(sqrt_price_decimal, tick_spacing);
    let (log2_sign, nearer_tick, farther_tick, farther_tick_with_spacing, nearer_tick_with_spacing) = c;
    let decisive = if log2_sign { farther_tick } else { nearer_tick };
    if farther_tick_with_spacing != nearer_tick_with_spacing && (decisive < -MAX_TICK || decisive > MAX_TICK) {
        return None;
    }
    Some(tick_from_candidates(sqrt_price_decimal, tick_spacing, c))
}

} // verus!
