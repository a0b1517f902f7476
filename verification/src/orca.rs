//! Tick arrays of a whirlpool: which arrays of `TICK_ARRAY_SIZE` ticks a swap
//! from the current tick walks through, and where the walk ends.
use vstd::prelude::*;
use vstd::arithmetic::div_mod::*;
use vstd::arithmetic::mul::*;
use crate::int_ops::{rem_i32, trunc_rem, trunc_div, lemma_trunc_div_bounds};

verus! {

/// Ticks in one tick array.
pub const TICK_ARRAY_SIZE: i32 = 88;
/// The highest tick index of a whirlpool.
pub const MAX_TICK_INDEX: i32 = 443636;
/// The lowest tick index of a whirlpool.
pub const MIN_TICK_INDEX: i32 = -443636;

/// The start indexes of the three tick arrays a swap may use.
pub type TickArrayStartIndexes = (i32, Option<i32>, Option<i32>);

/// The largest multiple of `n` at or below `tick`.
pub open spec fn floor_to_multiple(tick: int, n: int) -> int {
    (tick / n) * n
}

/// Ticks spanned by one tick array.
pub open spec fn array_span(tick_spacing: int) -> int {
    TICK_ARRAY_SIZE * tick_spacing
}

/// Given a tick & tick-spacing, derive the start tick of the tick-array that this tick would reside in
pub fn derive_start_tick(curr_tick: i32, tick_spacing: u16) -> (r: i32)
    requires
        tick_spacing > 0,
        floor_to_multiple(curr_tick as int, array_span(tick_spacing as int)) >= i32::MIN,
    ensures
        r == floor_to_multiple(curr_tick as int, array_span(tick_spacing as int)),
        r <= curr_tick < r + array_span(tick_spacing as int),
        (r as int) % array_span(tick_spacing as int) == 0,
{
    let num_of_ticks_in_array = TICK_ARRAY_SIZE * tick_spacing as i32;
    let rem = rem_i32(curr_tick, num_of_ticks_in_array);
    let ghost t = curr_tick as int;
    let ghost n = num_of_ticks_in_array as int;
    proof {
        lemma_fundamental_div_mod(t, n);
        lemma_mod_bound(t, n);
        lemma_mul_is_commutative(n, t / n);
        lemma_mod_multiples_basic(t / n, n);
        let m: int = if t >= 0 { t } else { -t };
        lemma_fundamental_div_mod(m, n);
        lemma_mod_bound(m, n);
        lemma_mul_is_commutative(n, m / n);
        if t < 0 {
            lemma_mul_unary_negation(m / n, n);
            let q = m / n;
            let e = m % n;
            if e == 0 {
                lemma_fundamental_div_mod_converse(t, n, -q, 0);
            } else {
                assert((-q - 1) * n == -(n * q) - n) by (nonlinear_arith);
                lemma_fundamental_div_mod_converse(t, n, -q - 1, n - e);
            }
        } else {
            lemma_fundamental_div_mod_converse(t, n, m / n, m % n);
        }
    }
    if curr_tick < 0 && rem != 0 {
        curr_tick - rem - num_of_ticks_in_array
    } else {
        curr_tick - rem
    }
}

/// The start tick of the array the swap begins in; when searching to the right the
/// search starts one tick spacing above the current tick.
pub fn derive_first_tick_array_start_tick(curr_tick: i32, tick_spacing: u16, shifted: bool) -> (r: i32)
    requires
        tick_spacing > 0,
        shifted ==> curr_tick + tick_spacing <= i32::MAX,
        floor_to_multiple(
            if shifted { curr_tick + tick_spacing } else { curr_tick as int },
            array_span(tick_spacing as int),
        ) >= i32::MIN,
    ensures
        r == floor_to_multiple(
            if shifted { curr_tick + tick_spacing } else { curr_tick as int },
            array_span(tick_spacing as int),
        ),
{
    let tick = if shifted { curr_tick + tick_spacing as i32 } else { curr_tick };
    derive_start_tick(tick, tick_spacing)
}

/// The start of the array after `start_tick` in the direction of the swap, if it
/// lies strictly inside the tick range.
pub open spec fn spec_next_start_tick(start_tick: int, tick_spacing: int, a_to_b: bool) -> Option<i32> {
    let potential = if a_to_b {
        start_tick - array_span(tick_spacing)
    } else {
        start_tick + array_span(tick_spacing)
    };
    if MIN_TICK_INDEX < potential < MAX_TICK_INDEX { Some(potential as i32) } else { None }
}

/// The start of the next tick array in the direction of the swap.
pub fn derive_next_start_tick_in_seq(start_tick: i32, tick_spacing: u16, a_to_b: bool) -> (r: Option<i32>)
    requires
        a_to_b ==> start_tick - array_span(tick_spacing as int) >= i32::MIN,
        !a_to_b ==> start_tick + array_span(tick_spacing as int) <= i32::MAX,
    ensures
        r == spec_next_start_tick(start_tick as int, tick_spacing as int, a_to_b),
{
    let num_of_ticks_in_array = TICK_ARRAY_SIZE * tick_spacing as i32;
    let potential_last = if a_to_b {
        start_tick - num_of_ticks_in_array
    } else {
        start_tick + num_of_ticks_in_array
    };
    if potential_last < MAX_TICK_INDEX && potential_last > MIN_TICK_INDEX {
        Some(potential_last)
    } else {
        None
    }
}

/// The start indexes of the three arrays from the current tick.
pub open spec fn spec_tick_array_start_indexes(curr_tick: int, tick_spacing: int, a_to_b: bool) -> (
    i32,
    Option<i32>,
    Option<i32>,
) {
    let ta0 = floor_to_multiple(if !a_to_b { curr_tick + tick_spacing } else { curr_tick }, array_span(tick_spacing));
    let ta1 = spec_next_start_tick(ta0, tick_spacing, a_to_b);
    let ta2 = match ta1 {
        Some(s) => spec_next_start_tick(s as int, tick_spacing, a_to_b),
        None => None,
    };
    (ta0 as i32, ta1, ta2)
}

/// The start indexes of the tick arrays a swap from `curr_tick` walks through:
/// the array of the first tick it looks at and up to two more after it.
pub fn derive_tick_array_start_indexes(curr_tick: i32, tick_spacing: u16, a_to_b: bool) -> (r: TickArrayStartIndexes)
    requires
        tick_spacing > 0,
        !a_to_b ==> curr_tick + tick_spacing <= i32::MAX,
        floor_to_multiple(
            if !a_to_b { curr_tick + tick_spacing } else { curr_tick as int },
            array_span(tick_spacing as int),
        ) >= i32::MIN,
        a_to_b ==> floor_to_multiple(curr_tick as int, array_span(tick_spacing as int)) - array_span(
            tick_spacing as int,
        ) >= i32::MIN,
        !a_to_b ==> floor_to_multiple(curr_tick + tick_spacing, array_span(tick_spacing as int)) + array_span(
            tick_spacing as int,
        ) <= i32::MAX,
    ensures
        r == spec_tick_array_start_indexes(curr_tick as int, tick_spacing as int, a_to_b),
{
    proof {
        let t: int = if !a_to_b { curr_tick + tick_spacing } else { curr_tick as int };
        let n = array_span(tick_spacing as int);
        lemma_fundamental_div_mod(t, n);
        lemma_mod_bound(t, n);
        lemma_mul_is_commutative(n, t / n);
    }
    let ta0_start_index = derive_first_tick_array_start_tick(curr_tick, tick_spacing, !a_to_b);
    let ta1_start_index_opt = derive_next_start_tick_in_seq(ta0_start_index, tick_spacing, a_to_b);
    let ta2_start_index_opt = match ta1_start_index_opt {
        Some(nsi) => derive_next_start_tick_in_seq(nsi, tick_spacing, a_to_b),
        None => None,
    };
    (ta0_start_index, ta1_start_index_opt, ta2_start_index_opt)
}

/// The last tick included in a tick array, kept within the tick range.
pub open spec fn spec_last_tick_in_array(start_tick: int, tick_spacing: int, a_to_b: bool) -> int {
    let potential_last = if a_to_b { start_tick } else { start_tick + array_span(tick_spacing) - 1 };
    let capped = if potential_last < MAX_TICK_INDEX { potential_last } else { MAX_TICK_INDEX as int };
    if capped > MIN_TICK_INDEX { capped } else { MIN_TICK_INDEX as int }
}

/// The last tick included in a tick array, in the direction of the swap.
pub fn derive_last_tick_in_array(start_tick: i32, tick_spacing: u16, a_to_b: bool) -> (r: i32)
    requires
        !a_to_b ==> start_tick + array_span(tick_spacing as int) <= i32::MAX,
        !a_to_b ==> start_tick + array_span(tick_spacing as int) - 1 >= i32::MIN,
    ensures
        r == spec_last_tick_in_array(start_tick as int, tick_spacing as int, a_to_b),
        MIN_TICK_INDEX <= r <= MAX_TICK_INDEX,
{
    let num_of_ticks_in_array = TICK_ARRAY_SIZE * tick_spacing as i32;
    let potential_last = if a_to_b { start_tick } else { start_tick + num_of_ticks_in_array - 1 };
    let capped = if potential_last < MAX_TICK_INDEX { potential_last } else { MAX_TICK_INDEX };
    if capped > MIN_TICK_INDEX { capped } else { MIN_TICK_INDEX }
}

/// The last tick of the last tick array a swap has: the walk ends there.
pub fn derive_last_tick_in_seq(tick_array_starts: &TickArrayStartIndexes, tick_spacing: u16, a_to_b: bool) -> (r: i32)
    requires
        !a_to_b ==> (match tick_array_starts.2 {
            Some(s) => s as int,
            None => match tick_array_starts.1 {
                Some(s) => s as int,
                None => tick_array_starts.0 as int,
            },
        }) + array_span(tick_spacing as int) <= i32::MAX,
        !a_to_b ==> (match tick_array_starts.2 {
            Some(s) => s as int,
            None => match tick_array_starts.1 {
                Some(s) => s as int,
                None => tick_array_starts.0 as int,
            },
        }) + array_span(tick_spacing as int) - 1 >= i32::MIN,
    ensures
        r == spec_last_tick_in_array(
            match tick_array_starts.2 {
                Some(s) => s as int,
                None => match tick_array_starts.1 {
                    Some(s) => s as int,
                    None => tick_array_starts.0 as int,
                },
            },
            tick_spacing as int,
            a_to_b,
        ),
{
    let last_tick_array_start = match tick_array_starts.2 {
        Some(s) => s,
        None => match tick_array_starts.1 {
            Some(s) => s,
            None => tick_array_starts.0,
        },
    };
    derive_last_tick_in_array(last_tick_array_start, tick_spacing, a_to_b)
}

} // verus!

verus! {

/// Tick arrays a pool's subscription covers, centred on the current one.
pub const TICK_ARRAY_SCAN_RANGE: i32 = 500;

/// `x` clamped to the `i32` range, as saturating arithmetic leaves it.
pub open spec fn saturate_i32(x: int) -> int {
    if x < i32::MIN { i32::MIN as int } else if x > i32::MAX { i32::MAX as int } else { x }
}

/// The start of candidate tick array `i` of the scan around `curr_tick`: half the
/// range below the current array, then one array after another, every step
/// saturating.
pub open spec fn spec_scanned_start(curr_tick: int, tick_spacing: int, i: int) -> int {
    let span = array_span(tick_spacing);
    let lowest = saturate_i32(floor_to_multiple(curr_tick, span) - saturate_i32(250 * span));
    saturate_i32(lowest + saturate_i32(i * span))
}

/// The starts of the tick arrays scanned around `curr_tick`, before those that
/// are not valid starts are left out.
pub fn scanned_tick_array_starts(curr_tick: i32, tick_spacing: u16) -> (r: Vec<i32>)
    requires
        tick_spacing > 0,
        floor_to_multiple(curr_tick as int, array_span(tick_spacing as int)) >= i32::MIN,
    ensures
        r@.len() == TICK_ARRAY_SCAN_RANGE,
        forall|i: int| 0 <= i < TICK_ARRAY_SCAN_RANGE ==> r@[i] == spec_scanned_start(
            curr_tick as int,
            tick_spacing as int,
            i,
        ),
{
    let ticks_per_tick_array: i64 = tick_spacing as i64 * TICK_ARRAY_SIZE as i64;
    let current_start = derive_start_tick(curr_tick, tick_spacing);
    let half: i64 = (TICK_ARRAY_SCAN_RANGE / 2) as i64 * ticks_per_tick_array;
    let lowest_wide: i64 = current_start as i64 - clamp_i32(half) as i64;
    let lowest = clamp_i32(lowest_wide);
    let mut r: Vec<i32> = Vec::new();
    let mut i: i64 = 0;
    while i < TICK_ARRAY_SCAN_RANGE as i64
        invariant
            0 <= i <= TICK_ARRAY_SCAN_RANGE,
            ticks_per_tick_array == array_span(tick_spacing as int),
            0 < ticks_per_tick_array <= 88 * 65535,
            lowest == saturate_i32(floor_to_multiple(curr_tick as int, array_span(tick_spacing as int))
                - saturate_i32(250 * array_span(tick_spacing as int))),
            r@.len() == i,
            forall|j: int| 0 <= j < i ==> r@[j] == spec_scanned_start(curr_tick as int, tick_spacing as int, j),
        decreases TICK_ARRAY_SCAN_RANGE - i,
    {
        proof {
            assert(i * ticks_per_tick_array <= 500 * (88 * 65535)) by (nonlinear_arith)
                requires 0 <= i <= 500, 0 < ticks_per_tick_array <= 88 * 65535;
            assert(i * ticks_per_tick_array >= 0) by (nonlinear_arith)
                requires 0 <= i, 0 < ticks_per_tick_array;
        }
        let step = clamp_i32(i * ticks_per_tick_array);
        let start = clamp_i32(lowest as i64 + step as i64);
        r.push(start);
        i = i + 1;
    }
    r
}

/// `x` clamped to the `i32` range.
fn clamp_i32(x: i64) -> (r: i32)
    ensures
        r == saturate_i32(x as int),
{
    if x < i32::MIN as i64 {
        i32::MIN
    } else if x > i32::MAX as i64 {
        i32::MAX
    } else {
        x as i32
    }
}

} // verus!

verus! {

/// The tick arrays a swap walks through: the first is the array that holds the
/// first tick the swap looks at (the current tick selling a for b, the next one
/// up otherwise), and each further one is the adjacent array in the swap's
/// direction (lower starts selling a for b), as long as its start lies strictly
/// inside the tick range; none follows a missing one.
pub proof fn lemma_tick_array_walk(curr_tick: int, tick_spacing: int, a_to_b: bool)
    requires
        tick_spacing > 0,
        i32::MIN <= floor_to_multiple(if !a_to_b { curr_tick + tick_spacing } else { curr_tick }, array_span(tick_spacing))
            <= i32::MAX,
    ensures
        ({
            let r = spec_tick_array_start_indexes(curr_tick, tick_spacing, a_to_b);
            let t = if a_to_b { curr_tick } else { curr_tick + tick_spacing };
            let span = TICK_ARRAY_SIZE * tick_spacing;
            let step = |x: int| if a_to_b { x - span } else { x + span };
            let inside = |x: int| MIN_TICK_INDEX < x < MAX_TICK_INDEX;
            &&& r.0 <= t < r.0 + span
            &&& (r.0 as int) % span == 0
            &&& r.1 == if inside(step(r.0 as int)) { Some(step(r.0 as int) as i32) } else { None::<i32> }
            &&& r.2 == match r.1 {
                Some(a) => if inside(step(a as int)) { Some(step(a as int) as i32) } else { None::<i32> },
                None => None::<i32>,
            }
        }),
{
    let span = TICK_ARRAY_SIZE * tick_spacing;
    let t = if a_to_b { curr_tick } else { curr_tick + tick_spacing };
    lemma_fundamental_div_mod(t, span);
    lemma_mod_bound(t, span);
    lemma_mul_is_commutative(span, t / span);
    lemma_mod_multiples_basic(t / span, span);
}

} // verus!
