//! The tickmap of a concentrated-liquidity pool: one bit per tick index that
//! says whether the tick is initialized, and the search for the nearest one.
use vstd::prelude::*;
use crate::int_ops::{div_i32, trunc_div, lemma_trunc_div_bounds};
use crate::errors::{ErrorCause, TrackableError};
use crate::invariant_math::{MAX_TICK, TICK_LIMIT};

verus! {

/// How far (in tick indexes) one search for an initialized tick goes.
pub const TICK_SEARCH_RANGE: i32 = 256;
/// Initialized ticks a swap instruction may cross.
pub const TICK_CROSSES_PER_IX: usize = 10;
/// Ticks kept behind the current one.
pub const TICKS_BACK_COUNT: usize = 1;
/// Uninitialized (virtual) ticks a swap may cross.
pub const MAX_VIRTUAL_CROSS: u16 = 10;
/// Number of tick positions in a tickmap.
pub const TICKMAP_SIZE: i32 = 2 * TICK_LIMIT - 1;
/// Bytes of a tickmap.
pub const TICKMAP_BYTES: usize = 11091;
/// Tick positions a slice must cover: (crosses + ticks back + virtual crosses) * search range.
pub const TICKMAP_RANGE: usize = 5376;
/// Bytes of a tickmap slice: range / 8 + 2.
pub const TICKMAP_SLICE_SIZE: usize = 674;

/// Index of the bit that stands for `tick` (a multiple of `spacing`).
pub open spec fn position(tick: int, spacing: int) -> int {
    tick / spacing + TICK_LIMIT
}

/// The bit a position is stored at: positions just below zero (from ticks below
/// the tickmap's range) fold onto the bits of byte 0.
pub open spec fn stored_bit(pos: int) -> int {
    if pos >= 0 { pos } else { -pos }
}

/// The tick a bit position stands for.
pub open spec fn tick_at_position(pos: int, spacing: int) -> int {
    (pos - TICK_LIMIT) * spacing
}

/// Whether bit `pos` of a bitmap is set.
pub open spec fn bit_set(bitmap: Seq<u8>, pos: int) -> bool {
    bit_set_in(bitmap, 0, pos)
}

/// Whether bit `pos` is set in a window of a bitmap whose first byte is byte `offset`.
pub open spec fn bit_set_in(data: Seq<u8>, offset: int, pos: int) -> bool {
    (data[pos / 8 - offset] >> ((pos % 8) as u8)) % 2 == 1
}

/// No bit in `[lo, hi)` is set.
pub open spec fn none_set(data: Seq<u8>, offset: int, lo: int, hi: int) -> bool {
    forall|q: int| lo <= q < hi ==> !bit_set_in(data, offset, q)
}

/// A bitmap whose first byte is byte `offset`, with bit `pos` toggled.
pub open spec fn flip_bit_in(data: Seq<u8>, offset: int, pos: int) -> Seq<u8> {
    data.update(pos / 8 - offset, data[pos / 8 - offset] ^ (1u8 << ((pos % 8) as u8)))
}

/// Whether bit `i` of `b` is set.
fn bit_of(b: u8, i: u8) -> (r: bool)
    requires
        i < 8,
    ensures
        r == ((b >> i) % 2 == 1),
{
    (b >> i) % 2 == 1
}

proof fn lemma_shr_zero(x: u8, b: u8, j: u8)
    by (bit_vector)
    requires
        b <= j,
        j < 8,
        (x >> b) == 0,
    ensures
        !((x >> j) % 2 == 1),
{
}

proof fn lemma_shr_step_bv(x: u8, b: u8, b1: u8)
    by (bit_vector)
    requires
        b < 8,
        b1 == b + 1,
        (x >> b) != 0,
        (x >> b) % 2 != 1,
    ensures
        b1 < 8,
        (x >> b1) != 0,
{
}

proof fn lemma_shr_step(x: u8, b: u8)
    requires
        b < 8,
        (x >> b) != 0,
        !((x >> b) % 2 == 1),
    ensures
        b + 1 < 8,
        (x >> ((b + 1) as u8)) != 0,
{
    lemma_shr_step_bv(x, b, (b + 1) as u8);
}

proof fn lemma_low_zero_bv(v: u16, b: u16, b1: u16, j: u16)
    by (bit_vector)
    requires
        j <= b,
        b < 8,
        v < 256,
        b1 == b + 1,
        v % (1u16 << b1) == 0,
    ensures
        (v >> j) % 2 == 0,
{
}

proof fn lemma_u8_u16_bit(v: u8, j: u8)
    by (bit_vector)
    requires
        j < 8,
    ensures
        ((v >> j) % 2 == 1) == (((v as u16) >> (j as u16)) % 2 == 1),
{
}

proof fn lemma_low_zero(v: u8, b: u8, j: u8)
    requires
        j <= b < 8,
        (v as u16) % (1u16 << ((b + 1) as u16)) == 0,
    ensures
        !((v >> j) % 2 == 1),
{
    lemma_low_zero_bv(v as u16, b as u16, (b + 1) as u16, j as u16);
    lemma_u8_u16_bit(v, j);
}

proof fn lemma_mask_pos(b: u16, b1: u16)
    by (bit_vector)
    requires
        b < 8,
        b1 == b + 1,
    ensures
        (1u16 << b1) > 0,
{
}

proof fn lemma_low_step_bv(v: u16, b: u16, b1: u16)
    by (bit_vector)
    requires
        b < 8,
        v < 256,
        b1 == b + 1,
        v % (1u16 << b1) > 0,
        (v >> b) % 2 != 1,
    ensures
        b > 0,
        v % (1u16 << b) > 0,
{
}

proof fn lemma_low_step(v: u8, b: u8)
    requires
        b < 8,
        (v as u16) % (1u16 << ((b + 1) as u16)) > 0,
        !((v >> b) % 2 == 1),
    ensures
        b > 0,
        (v as u16) % (1u16 << (b as u16)) > 0,
{
    lemma_u8_u16_bit(v, b);
    lemma_low_step_bv(v as u16, b as u16, (b + 1) as u16);
}

/// The first initialized position in `[start, lim]` of a bitmap window, as the pool
/// searches upward: `Some(p)` with every position in `[start, p)` clear, or `None`
/// when the whole range is clear.
fn scan_up(data: &[u8], offset: usize, start: usize, lim: usize) -> (r: Option<usize>)
    requires
        offset * 8 <= start,
        lim / 8 < offset + data@.len(),
        lim < usize::MAX - 8,
    ensures
        r matches Some(p) ==> start <= p <= lim && bit_set_in(data@, offset as int, p as int)
            && none_set(data@, offset as int, start as int, p as int),
        r is None ==> none_set(data@, offset as int, start as int, lim + 1),
{
    let mut byte = start / 8;
    let mut bit: u8 = (start % 8) as u8;
    let lbyte = lim / 8;
    let lbit: u8 = (lim % 8) as u8;
    while byte < lbyte || (byte == lbyte && bit <= lbit)
        invariant
            offset * 8 <= start,
            lim / 8 < offset + data@.len(),
            lbyte == lim / 8,
            lbit == lim % 8,
            bit < 8,
            start <= byte * 8 + bit,
            bit > 0 ==> byte * 8 + bit == start,
            none_set(data@, offset as int, start as int, byte * 8 + bit),
        decreases lim + 8 - (byte * 8 + bit),
    {
        let x = data[byte - offset];
        let shifted = x >> bit;
        if shifted != 0 {
            let ghost pos0 = byte * 8 + bit;
            while !bit_of(x, bit)
                invariant
                    bit < 8,
                    (x >> bit) != 0,
                    byte >= offset,
                    byte - offset < data@.len(),
                    x == data@[byte - offset],
                    byte * 8 <= pos0 <= byte * 8 + bit,
                    offset * 8 <= start,
                    byte >= offset,
                    start <= pos0,
                    none_set(data@, offset as int, start as int, byte * 8 + bit),
                decreases 8 - bit,
            {
                proof {
                    lemma_shr_step(x, bit);
                    assert forall|q: int| start <= q < byte * 8 + bit + 1 implies !bit_set_in(data@, offset as int, q) by {
                        if q == byte * 8 + bit {
                            assert(q / 8 == byte as int);
                            assert(q % 8 == bit as int);
                        }
                    }
                }
                bit = bit + 1;
            }
            let p = byte * 8 + bit as usize;
            proof {
                assert(p / 8 == byte as int);
                assert(p % 8 == bit as int);
            }
            return if byte < lbyte || (byte == lbyte && bit <= lbit) { Some(p) } else {
                proof {
                    assert forall|q: int| start <= q < lim + 1 implies !bit_set_in(data@, offset as int, q) by {
                        assert(q < byte * 8 + bit);
                    }
                }
                None
            };
        }
        proof {
            assert forall|q: int| start <= q < (byte + 1) * 8 implies !bit_set_in(data@, offset as int, q) by {
                if q >= byte * 8 + bit {
                    assert(q / 8 == byte as int);
                    lemma_shr_zero(x, bit, (q % 8) as u8);
                }
            }
        }
        byte = byte + 1;
        bit = 0;
    }
    proof {
        assert forall|q: int| start <= q < lim + 1 implies !bit_set_in(data@, offset as int, q) by {
            assert(q < byte * 8 + bit);
        }
    }
    None
}

/// The last initialized position in `[lim, start]` of a bitmap window, as the pool
/// searches downward.
fn scan_down(data: &[u8], offset: usize, start: usize, lim: usize) -> (r: Option<usize>)
    requires
        offset * 8 <= lim,
        start / 8 < offset + data@.len(),
    ensures
        r matches Some(p) ==> lim <= p <= start && bit_set_in(data@, offset as int, p as int)
            && none_set(data@, offset as int, p + 1, start + 1),
        r is None ==> none_set(data@, offset as int, lim as int, start + 1),
{
    let mut byte = start / 8;
    let mut bit: u8 = (start % 8) as u8;
    let lbyte = lim / 8;
    let lbit: u8 = (lim % 8) as u8;
    while byte > lbyte || (byte == lbyte && bit >= lbit)
        invariant
            offset * 8 <= lim,
            start / 8 < offset + data@.len(),
            lbyte == lim / 8,
            lbit == lim % 8,
            bit < 8,
            byte * 8 + bit <= start,
            bit < 7 ==> byte * 8 + bit == start,
            none_set(data@, offset as int, byte * 8 + bit + 1, start + 1),
        decreases byte * 8 + bit,
    {
        let x = data[byte - offset];
        let value = x as u16;
        proof {
            lemma_mask_pos(bit as u16, (bit + 1) as u16);
        }
        if value % (1u16 << (bit + 1) as u16) > 0 {
            while !bit_of(x, bit)
                invariant
                    bit < 8,
                    (x as u16) % (1u16 << ((bit + 1) as u16)) > 0,
                    byte >= offset,
                    byte - offset < data@.len(),
                    x == data@[byte - offset],
                    byte * 8 + bit <= start,
                    byte >= offset,
                    none_set(data@, offset as int, byte * 8 + bit + 1, start + 1),
                decreases bit,
            {
                proof {
                    lemma_low_step(x, bit);
                    assert forall|q: int| byte * 8 + bit <= q < start + 1 implies !bit_set_in(data@, offset as int, q) by {
                        if q == byte * 8 + bit {
                            assert(q / 8 == byte as int);
                            assert(q % 8 == bit as int);
                        }
                    }
                }
                bit = bit - 1;
            }
            let p = byte * 8 + bit as usize;
            proof {
                assert(p / 8 == byte as int);
                assert(p % 8 == bit as int);
            }
            return if byte > lbyte || (byte == lbyte && bit >= lbit) { Some(p) } else {
                proof {
                    assert forall|q: int| lim <= q < start + 1 implies !bit_set_in(data@, offset as int, q) by {
                        assert(q > p);
                    }
                }
                None
            };
        }
        proof {
            assert forall|q: int| byte * 8 <= q < start + 1 implies !bit_set_in(data@, offset as int, q) by {
                if q <= byte * 8 + bit {
                    assert(q / 8 == byte as int);
                    lemma_low_zero(x, bit, (q % 8) as u8);
                }
            }
        }
        if byte == 0 {
            proof {
                assert forall|q: int| lim <= q < start + 1 implies !bit_set_in(data@, offset as int, q) by {}
            }
            return None;
        }
        byte = byte - 1;
        bit = 7;
    }
    proof {
        assert forall|q: int| lim <= q < start + 1 implies !bit_set_in(data@, offset as int, q) by {
            assert(q > byte * 8 + bit);
        }
    }
    None
}

/// The byte and bit that hold `tick`.
pub fn tick_to_position(tick: i32, tick_spacing: u16) -> (r: (usize, u8))
    requires
        tick_spacing > 0,
        (tick as int) % (tick_spacing as int) == 0,
        position(tick as int, tick_spacing as int) > -8,
        position(tick as int, tick_spacing as int) <= i32::MAX,
    ensures
        position(tick as int, tick_spacing as int) >= 0 ==> r.0 == position(tick as int, tick_spacing as int) / 8
            && r.1 == position(tick as int, tick_spacing as int) % 8,
        position(tick as int, tick_spacing as int) < 0 ==> r.0 == 0 && r.1 == -position(tick as int, tick_spacing as int),
{
    proof {
        assert(trunc_div(tick as int, tick_spacing as int) == (tick as int) / (tick_spacing as int)) by {
            if tick < 0 {
                vstd::arithmetic::div_mod::lemma_fundamental_div_mod(tick as int, tick_spacing as int);
                vstd::arithmetic::mul::lemma_mul_unary_negation(tick_spacing as int, (tick as int) / (tick_spacing as int));
                vstd::arithmetic::div_mod::lemma_fundamental_div_mod_converse(
                    -tick as int,
                    tick_spacing as int,
                    -((tick as int) / (tick_spacing as int)),
                    0,
                );
            }
        }
        assert((tick as int) / (tick_spacing as int) <= i32::MAX) by {
            vstd::arithmetic::div_mod::lemma_div_is_ordered_by_denominator(if tick >= 0 { tick as int } else { -tick as int }, 1, tick_spacing as int);
        }
    }
    let bitmap_index = div_i32(tick, tick_spacing as i32) + TICK_LIMIT;
    if bitmap_index >= 0 {
        ((bitmap_index / 8) as usize, (bitmap_index % 8) as u8)
    } else {
        (0, (-bitmap_index) as u8)
    }
}

pub open spec fn spec_search_limit(tick: int, spacing: int, up: bool) -> int {
    let index = trunc_div(tick, spacing);
    let limit = if up {
        let range_limit = index + TICK_SEARCH_RANGE;
        let price_limit = (MAX_TICK as int) / spacing;
        let a = if TICK_LIMIT - 1 < range_limit { TICK_LIMIT - 1 } else { range_limit };
        if a < price_limit { a } else { price_limit }
    } else {
        let range_limit = index - TICK_SEARCH_RANGE;
        let price_limit = -((MAX_TICK as int) / spacing);
        let a = if -TICK_LIMIT + 1 > range_limit { -TICK_LIMIT + 1 } else { range_limit };
        if a > price_limit { a } else { price_limit }
    };
    limit * spacing
}

/// The farthest tick (scaled by the spacing) one search from `tick` may reach.
pub fn get_search_limit(tick: i32, tick_spacing: u16, up: bool) -> (r: i32)
    requires
        tick_spacing > 0,
        up ==> trunc_div(tick as int, tick_spacing as int) + TICK_SEARCH_RANGE <= i32::MAX,
        !up ==> trunc_div(tick as int, tick_spacing as int) - TICK_SEARCH_RANGE >= i32::MIN,
    ensures
        r == spec_search_limit(tick as int, tick_spacing as int, up),
        (r as int) % (tick_spacing as int) == 0,
        up ==> r <= MAX_TICK,
        !up ==> r >= -MAX_TICK,
{
    let index = div_i32(tick, tick_spacing as i32);
    let spacing = tick_spacing as i32;
    let price_limit = div_i32(MAX_TICK, spacing);
    proof {
        vstd::arithmetic::div_mod::lemma_fundamental_div_mod(MAX_TICK as int, spacing as int);
        vstd::arithmetic::div_mod::lemma_div_pos_is_pos(MAX_TICK as int, spacing as int);
        vstd::arithmetic::div_mod::lemma_mod_bound(MAX_TICK as int, spacing as int);
        vstd::arithmetic::mul::lemma_mul_is_commutative(spacing as int, price_limit as int);
    }
    let limit = if up {
        let array_limit = TICK_LIMIT - 1;
        let range_limit = index + TICK_SEARCH_RANGE;
        let a = if array_limit < range_limit { array_limit } else { range_limit };
        if a < price_limit { a } else { price_limit }
    } else {
        let array_limit = -TICK_LIMIT + 1;
        let range_limit = index - TICK_SEARCH_RANGE;
        let a = if array_limit > range_limit { array_limit } else { range_limit };
        if a > -price_limit { a } else { -price_limit }
    };
    proof {
        assert(-price_limit * spacing >= -MAX_TICK) by (nonlinear_arith)
            requires price_limit * spacing <= MAX_TICK;
        lemma_trunc_div_bounds(tick as int, spacing as int);
        if up {
            assert(limit * spacing <= MAX_TICK && limit * spacing >= i32::MIN) by (nonlinear_arith)
                requires
                    limit <= price_limit,
                    limit >= index + 256 || limit == TICK_LIMIT - 1 || limit == price_limit,
                    price_limit * spacing <= MAX_TICK,
                    price_limit >= 0,
                    index * spacing >= i32::MIN,
                    spacing > 0,
            ;
        } else {
            assert(limit * spacing >= -MAX_TICK && limit * spacing <= i32::MAX) by (nonlinear_arith)
                requires
                    limit >= -price_limit,
                    limit <= index - 256 || limit == -TICK_LIMIT + 1 || limit == -price_limit,
                    price_limit * spacing <= MAX_TICK,
                    price_limit >= 0,
                    index * spacing <= i32::MAX,
                    spacing > 0,
            ;
        }
        vstd::arithmetic::div_mod::lemma_mod_multiples_basic(limit as int, spacing as int);
    }
    limit * spacing
}

/// The tickmap of a pool: bit `i` of the bitmap stands for tick
/// `(i - TICK_LIMIT) * tick_spacing`.
pub struct Tickmap {
    pub bitmap: [u8; 11091],
}

impl Default for Tickmap {
    fn default() -> (r: Tickmap)
        ensures
            forall|i: int| 0 <= i < 11091 ==> r.bitmap@[i] == 0,
    {
        Tickmap::new()
    }
}

impl Tickmap {
    /// A tickmap with no initialized tick.
    pub fn new() -> (r: Tickmap)
        ensures
            forall|i: int| 0 <= i < 11091 ==> r.bitmap@[i] == 0,
    {
        Tickmap { bitmap: [0u8; 11091] }
    }

    /// Whether `tick` is initialized.
    pub fn get(&self, tick: i32, tick_spacing: u16) -> (r: bool)
        requires
            tick_spacing > 0,
            (tick as int) % (tick_spacing as int) == 0,
            -8 < position(tick as int, tick_spacing as int) < 11091 * 8,
        ensures
            r == bit_set(self.bitmap@, stored_bit(position(tick as int, tick_spacing as int))),
    {
        let (byte, bit) = tick_to_position(tick, tick_spacing);
        let value = (self.bitmap[byte] >> bit) % 2;
        value == 1
    }

    /// Marks `tick` initialized (`value`) or not; it must not already be in that state.
    pub fn flip(&mut self, value: bool, tick: i32, tick_spacing: u16)
        requires
            tick_spacing > 0,
            (tick as int) % (tick_spacing as int) == 0,
            -8 < position(tick as int, tick_spacing as int) < 11091 * 8,
            bit_set(old(self).bitmap@, stored_bit(position(tick as int, tick_spacing as int))) != value,
        ensures
            forall|p: int| 0 <= p < 11091 * 8 ==> bit_set(final(self).bitmap@, p) == if p == stored_bit(position(tick as int, tick_spacing as int)) {
                value
            } else {
                bit_set(old(self).bitmap@, p)
            },
            final(self).bitmap@.len() == 11091,
            final(self).bitmap@ == flip_bit_in(old(self).bitmap@, 0, stored_bit(position(tick as int, tick_spacing as int))),
    {
        let (byte, bit) = tick_to_position(tick, tick_spacing);
        let old_byte = self.bitmap[byte];
        let new_byte = old_byte ^ (1u8 << bit);
        self.bitmap[byte] = new_byte;
        proof {
            let pos = stored_bit(position(tick as int, tick_spacing as int));
            assert forall|p: int| 0 <= p < 11091 * 8 implies bit_set(self.bitmap@, p) == if p == pos {
                value
            } else {
                bit_set(old(self).bitmap@, p)
            } by {
                if p / 8 == byte as int {
                    lemma_flip_bit(old_byte, bit, (p % 8) as u8);
                    if p != pos {
                        assert(p % 8 != bit as int);
                    }
                }
            }
        }
    }
}

/// Division of a multiple of `s` by `s` is exact.
proof fn lemma_exact_div(k: int, s: int)
    requires
        s > 0,
    ensures
        (k * s) / s == k,
        (k * s) % s == 0,
{
    vstd::arithmetic::div_mod::lemma_div_multiples_vanish(k, s);
    vstd::arithmetic::mul::lemma_mul_is_commutative(k, s);
    vstd::arithmetic::div_mod::lemma_mod_multiples_basic(k, s);
}

/// For a multiple of the spacing, the truncated and the floored quotient agree.
proof fn lemma_trunc_div_exact(t: int, s: int)
    requires
        s > 0,
        t % s == 0,
    ensures
        trunc_div(t, s) == t / s,
        (t / s) * s == t,
{
    vstd::arithmetic::div_mod::lemma_fundamental_div_mod(t, s);
    vstd::arithmetic::mul::lemma_mul_is_commutative(s, t / s);
    if t < 0 {
        vstd::arithmetic::mul::lemma_mul_unary_negation(s, t / s);
        vstd::arithmetic::div_mod::lemma_fundamental_div_mod_converse(-t, s, -(t / s), 0);
    }
}

/// The tick at a bit position.
fn tick_from_position(p: usize, tick_spacing: u16) -> (r: i32)
    requires
        tick_spacing > 0,
        p <= 2 * TICK_LIMIT,
        (p - TICK_LIMIT) * tick_spacing <= i32::MAX,
        (p - TICK_LIMIT) * tick_spacing >= i32::MIN,
    ensures
        r == tick_at_position(p as int, tick_spacing as int),
        position(r as int, tick_spacing as int) == p,
        (r as int) % (tick_spacing as int) == 0,
{
    proof {
        lemma_exact_div(p - TICK_LIMIT, tick_spacing as int);
    }
    (p as i32 - TICK_LIMIT) * (tick_spacing as i32)
}

/// Preconditions of an upward search from `tick`.
pub open spec fn up_search_ok(tick: int, spacing: int) -> bool {
    &&& spacing > 0
    &&& tick % spacing == 0
    &&& tick / spacing >= -TICK_LIMIT
    &&& tick + spacing <= i32::MAX
    &&& tick / spacing + 1 + TICK_LIMIT <= i32::MAX
}

/// Preconditions of a downward search from `tick`.
pub open spec fn down_search_ok(tick: int, spacing: int) -> bool {
    &&& spacing > 0
    &&& tick % spacing == 0
    &&& tick / spacing >= -TICK_LIMIT
    &&& tick / spacing <= TICK_LIMIT - 1
}

/// First and last bit position an upward search from `tick` looks at.
pub open spec fn up_range(tick: int, spacing: int) -> (int, int) {
    (tick / spacing + 1 + TICK_LIMIT, spec_search_limit(tick, spacing, true) / spacing + TICK_LIMIT)
}

/// First and last bit position a downward search from `tick` looks at.
pub open spec fn down_range(tick: int, spacing: int) -> (int, int) {
    (tick / spacing + TICK_LIMIT, spec_search_limit(tick, spacing, false) / spacing + TICK_LIMIT)
}

/// The result of an upward search over a bitmap window.
pub open spec fn up_search_result(data: Seq<u8>, offset: int, tick: int, spacing: int, r: Option<i32>) -> bool {
    let (start, lim) = up_range(tick, spacing);
    match r {
        Some(t) => {
            let p = position(t as int, spacing);
            &&& start <= p <= lim
            &&& t == tick_at_position(p, spacing)
            &&& bit_set_in(data, offset, p)
            &&& none_set(data, offset, start, p)
        },
        None => none_set(data, offset, start, lim + 1),
    }
}

/// The result of a downward search over a bitmap window.
pub open spec fn down_search_result(data: Seq<u8>, offset: int, tick: int, spacing: int, r: Option<i32>) -> bool {
    let (start, lim) = down_range(tick, spacing);
    match r {
        Some(t) => {
            let p = position(t as int, spacing);
            &&& lim <= p <= start
            &&& t == tick_at_position(p, spacing)
            &&& bit_set_in(data, offset, p)
            &&& none_set(data, offset, p + 1, start + 1)
        },
        None => none_set(data, offset, lim, start + 1),
    }
}

proof fn lemma_up_range(tick: int, spacing: int)
    requires
        up_search_ok(tick, spacing),
    ensures
        trunc_div(tick, spacing) == tick / spacing,
        (tick + spacing) % spacing == 0,
        position(tick + spacing, spacing) == up_range(tick, spacing).0,
        spec_search_limit(tick, spacing, true) % spacing == 0,
        position(spec_search_limit(tick, spacing, true), spacing) == up_range(tick, spacing).1,
        up_range(tick, spacing).0 >= 1,
        0 <= up_range(tick, spacing).1 <= 2 * TICK_LIMIT - 1,
        spec_search_limit(tick, spacing, true) <= MAX_TICK,
{
    lemma_trunc_div_exact(tick, spacing);
    lemma_exact_div(tick / spacing + 1, spacing);
    vstd::arithmetic::mul::lemma_mul_is_distributive_add_other_way(spacing, tick / spacing, 1);
    let index = tick / spacing;
    let range_limit = index + TICK_SEARCH_RANGE;
    let price_limit = (MAX_TICK as int) / spacing;
    vstd::arithmetic::div_mod::lemma_div_pos_is_pos(MAX_TICK as int, spacing);
    vstd::arithmetic::div_mod::lemma_fundamental_div_mod(MAX_TICK as int, spacing);
    vstd::arithmetic::div_mod::lemma_mod_bound(MAX_TICK as int, spacing);
    vstd::arithmetic::div_mod::lemma_div_is_ordered_by_denominator(MAX_TICK as int, 1, spacing);
    let a = if TICK_LIMIT - 1 < range_limit { TICK_LIMIT - 1 } else { range_limit };
    let limit = if a < price_limit { a } else { price_limit };
    lemma_exact_div(limit, spacing);
    assert(limit * spacing <= MAX_TICK) by (nonlinear_arith)
        requires limit <= price_limit, price_limit == (MAX_TICK as int) / spacing, spacing > 0,
            MAX_TICK == spacing * price_limit + (MAX_TICK as int) % spacing, (MAX_TICK as int) % spacing >= 0;
}

proof fn lemma_down_range(tick: int, spacing: int)
    requires
        down_search_ok(tick, spacing),
    ensures
        trunc_div(tick, spacing) == tick / spacing,
        position(tick, spacing) == down_range(tick, spacing).0,
        spec_search_limit(tick, spacing, false) % spacing == 0,
        position(spec_search_limit(tick, spacing, false), spacing) == down_range(tick, spacing).1,
        0 <= down_range(tick, spacing).0 <= 2 * TICK_LIMIT - 1,
        1 <= down_range(tick, spacing).1 <= 2 * TICK_LIMIT - 1,
        spec_search_limit(tick, spacing, false) >= -MAX_TICK,
{
    lemma_trunc_div_exact(tick, spacing);
    let index = tick / spacing;
    let range_limit = index - TICK_SEARCH_RANGE;
    let price_limit = -((MAX_TICK as int) / spacing);
    vstd::arithmetic::div_mod::lemma_div_pos_is_pos(MAX_TICK as int, spacing);
    vstd::arithmetic::div_mod::lemma_fundamental_div_mod(MAX_TICK as int, spacing);
    vstd::arithmetic::div_mod::lemma_mod_bound(MAX_TICK as int, spacing);
    vstd::arithmetic::div_mod::lemma_div_is_ordered_by_denominator(MAX_TICK as int, 1, spacing);
    let a = if -TICK_LIMIT + 1 > range_limit { -TICK_LIMIT + 1 } else { range_limit };
    let limit = if a > price_limit { a } else { price_limit };
    lemma_exact_div(limit, spacing);
    assert(limit * spacing >= -MAX_TICK) by (nonlinear_arith)
        requires limit >= price_limit, price_limit == -((MAX_TICK as int) / spacing), spacing > 0,
            MAX_TICK == spacing * (-price_limit) + (MAX_TICK as int) % spacing, (MAX_TICK as int) % spacing >= 0;
}

/// Whether an upward search from `tick` reads only bytes of a window of `data.len()`
/// bytes whose first byte is byte `offset` of the whole bitmap: the window starts at
/// or before the first position looked at, and either reaches the last one or holds
/// an initialized position on the way.
pub open spec fn up_window_ok(data: Seq<u8>, offset: int, tick: int, spacing: int) -> bool {
    let (start, lim) = up_range(tick, spacing);
    ||| start > lim
    ||| offset * 8 <= start && (lim < (offset + data.len()) * 8 || !none_set(data, offset, start, (offset + data.len()) * 8))
}

/// Whether a downward search from `tick` reads only bytes of the window.
pub open spec fn down_window_ok(data: Seq<u8>, offset: int, tick: int, spacing: int) -> bool {
    let (start, lim) = down_range(tick, spacing);
    ||| start < lim
    ||| start < (offset + data.len()) * 8 && (offset * 8 <= lim || !none_set(data, offset, offset * 8, start + 1))
}

/// The upward search over a window of the bitmap.
fn search_up(data: &[u8], offset: usize, tick: i32, tick_spacing: u16) -> (r: Option<i32>)
    requires
        up_search_ok(tick as int, tick_spacing as int),
        up_window_ok(data@, offset as int, tick as int, tick_spacing as int),
        0 < data@.len() <= 11091,
        offset <= i32::MAX,
    ensures
        up_search_result(data@, offset as int, tick as int, tick_spacing as int, r),
{
    proof {
        lemma_up_range(tick as int, tick_spacing as int);
    }
    let limit = get_search_limit(tick, tick_spacing, true);
    let (byte, bit) = tick_to_position(tick + tick_spacing as i32, tick_spacing);
    let (limiting_byte, limiting_bit) = tick_to_position(limit, tick_spacing);
    let start = byte * 8 + bit as usize;
    let lim = limiting_byte * 8 + limiting_bit as usize;
    if start > lim {
        return None;
    }
    let window_end = (offset + data.len()) * 8 - 1;
    let last = if lim <= window_end { lim } else { window_end };
    match scan_up(data, offset, start, last) {
        Some(p) => {
            proof {
                lemma_trunc_div_exact(limit as int, tick_spacing as int);
                lemma_trunc_div_exact(tick as int, tick_spacing as int);
                assert((p - TICK_LIMIT) * (tick_spacing as int) <= limit) by (nonlinear_arith)
                    requires p <= lim, lim == (limit as int) / (tick_spacing as int) + TICK_LIMIT,
                        limit == ((limit as int) / (tick_spacing as int)) * (tick_spacing as int), tick_spacing > 0;
                assert((p - TICK_LIMIT) * (tick_spacing as int) >= tick) by (nonlinear_arith)
                    requires p >= start, start == (tick as int) / (tick_spacing as int) + 1 + TICK_LIMIT,
                        tick == ((tick as int) / (tick_spacing as int)) * (tick_spacing as int), tick_spacing > 0;
            }
            Some(tick_from_position(p, tick_spacing))
        },
        None => None,
    }
}

/// The downward search over a window of the bitmap.
fn search_down(data: &[u8], offset: usize, tick: i32, tick_spacing: u16) -> (r: Option<i32>)
    requires
        down_search_ok(tick as int, tick_spacing as int),
        down_window_ok(data@, offset as int, tick as int, tick_spacing as int),
        0 < data@.len() <= 11091,
        offset <= i32::MAX,
    ensures
        down_search_result(data@, offset as int, tick as int, tick_spacing as int, r),
{
    proof {
        lemma_down_range(tick as int, tick_spacing as int);
        lemma_trunc_div_bounds(tick as int, tick_spacing as int);
    }
    let limit = get_search_limit(tick, tick_spacing, false);
    let (byte, bit) = tick_to_position(tick, tick_spacing);
    let (limiting_byte, limiting_bit) = tick_to_position(limit, tick_spacing);
    let start = byte * 8 + bit as usize;
    let lim = limiting_byte * 8 + limiting_bit as usize;
    if start < lim {
        return None;
    }
    let window_start = offset * 8;
    let last = if lim >= window_start { lim } else { window_start };
    match scan_down(data, offset, start, last) {
        Some(p) => {
            proof {
                lemma_trunc_div_exact(limit as int, tick_spacing as int);
                lemma_trunc_div_exact(tick as int, tick_spacing as int);
                assert((p - TICK_LIMIT) * (tick_spacing as int) <= tick) by (nonlinear_arith)
                    requires p <= start, start == (tick as int) / (tick_spacing as int) + TICK_LIMIT,
                        tick == ((tick as int) / (tick_spacing as int)) * (tick_spacing as int), tick_spacing > 0;
                assert((p - TICK_LIMIT) * (tick_spacing as int) >= limit) by (nonlinear_arith)
                    requires p >= lim, lim == (limit as int) / (tick_spacing as int) + TICK_LIMIT,
                        limit == ((limit as int) / (tick_spacing as int)) * (tick_spacing as int), tick_spacing > 0;
            }
            Some(tick_from_position(p, tick_spacing))
        },
        None => None,
    }
}

/// The end of a search range lies in the price domain.
pub proof fn lemma_search_limit_bounds(tick: int, spacing: int, up: bool)
    requires
        up ==> up_search_ok(tick, spacing) && tick + spacing >= -MAX_TICK,
        !up ==> down_search_ok(tick, spacing) && tick <= MAX_TICK,
    ensures
        -MAX_TICK <= spec_search_limit(tick, spacing, up) <= MAX_TICK,
        trunc_div(tick, spacing) == tick / spacing,
{
    if up {
        lemma_up_range(tick, spacing);
        lemma_trunc_div_exact(tick, spacing);
        let index = tick / spacing;
        let price_limit = (MAX_TICK as int) / spacing;
        vstd::arithmetic::div_mod::lemma_div_pos_is_pos(MAX_TICK as int, spacing);
        let a = if TICK_LIMIT - 1 < index + TICK_SEARCH_RANGE { TICK_LIMIT - 1 } else { index + TICK_SEARCH_RANGE };
        let limit = if a < price_limit { a } else { price_limit };
        assert(limit * spacing >= -MAX_TICK) by (nonlinear_arith)
            requires
                limit == TICK_LIMIT - 1 || limit == index + 256 || limit == price_limit,
                price_limit >= 0,
                index * spacing == tick,
                tick + spacing >= -MAX_TICK,
                spacing > 0,
        ;
    } else {
        lemma_down_range(tick, spacing);
        lemma_trunc_div_exact(tick, spacing);
        let index = tick / spacing;
        let price_limit = -((MAX_TICK as int) / spacing);
        vstd::arithmetic::div_mod::lemma_div_pos_is_pos(MAX_TICK as int, spacing);
        let a = if -TICK_LIMIT + 1 > index - TICK_SEARCH_RANGE { -TICK_LIMIT + 1 } else { index - TICK_SEARCH_RANGE };
        let limit = if a > price_limit { a } else { price_limit };
        assert(limit * spacing <= MAX_TICK) by (nonlinear_arith)
            requires
                limit == -TICK_LIMIT + 1 || limit == index - 256 || limit == price_limit,
                price_limit <= 0,
                index * spacing == tick,
                tick <= MAX_TICK,
                spacing > 0,
        ;
    }
}

/// The tick an upward search finds lies above the start and within the range.
pub proof fn lemma_up_result_range(data: Seq<u8>, offset: int, tick: int, spacing: int, t: i32)
    requires
        up_search_ok(tick, spacing),
        up_search_result(data, offset, tick, spacing, Some(t)),
    ensures
        tick + spacing <= t <= spec_search_limit(tick, spacing, true),
        (t as int) % spacing == 0,
{
    lemma_up_range(tick, spacing);
    lemma_trunc_div_exact(tick, spacing);
    let limit = spec_search_limit(tick, spacing, true);
    lemma_trunc_div_exact(limit, spacing);
    let p = position(t as int, spacing);
    assert((p - TICK_LIMIT) * spacing <= limit) by (nonlinear_arith)
        requires p <= limit / spacing + TICK_LIMIT, limit == (limit / spacing) * spacing, spacing > 0;
    assert((p - TICK_LIMIT) * spacing >= tick + spacing) by (nonlinear_arith)
        requires p >= tick / spacing + 1 + TICK_LIMIT, tick == (tick / spacing) * spacing, spacing > 0;
    lemma_exact_div(p - TICK_LIMIT, spacing);
}

/// The tick a downward search finds lies at or below the start and within the range.
pub proof fn lemma_down_result_range(data: Seq<u8>, offset: int, tick: int, spacing: int, t: i32)
    requires
        down_search_ok(tick, spacing),
        down_search_result(data, offset, tick, spacing, Some(t)),
    ensures
        spec_search_limit(tick, spacing, false) <= t <= tick,
        (t as int) % spacing == 0,
{
    lemma_down_range(tick, spacing);
    lemma_trunc_div_exact(tick, spacing);
    let limit = spec_search_limit(tick, spacing, false);
    lemma_trunc_div_exact(limit, spacing);
    let p = position(t as int, spacing);
    assert((p - TICK_LIMIT) * spacing >= limit) by (nonlinear_arith)
        requires p >= limit / spacing + TICK_LIMIT, limit == (limit / spacing) * spacing, spacing > 0;
    assert((p - TICK_LIMIT) * spacing <= tick) by (nonlinear_arith)
        requires p <= tick / spacing + TICK_LIMIT, tick == (tick / spacing) * spacing, spacing > 0;
    lemma_exact_div(p - TICK_LIMIT, spacing);
}

/// The first initialized tick of an upward search, as a value.
pub open spec fn spec_next_initialized(data: Seq<u8>, offset: int, tick: int, spacing: int) -> Option<i32> {
    let (start, lim) = up_range(tick, spacing);
    if exists|p: int| start <= p <= lim && bit_set_in(data, offset, p) && none_set(data, offset, start, p) {
        let p = choose|p: int| start <= p <= lim && bit_set_in(data, offset, p) && none_set(data, offset, start, p);
        Some(tick_at_position(p, spacing) as i32)
    } else {
        None
    }
}

/// The last initialized tick of a downward search, as a value.
pub open spec fn spec_prev_initialized(data: Seq<u8>, offset: int, tick: int, spacing: int) -> Option<i32> {
    let (start, lim) = down_range(tick, spacing);
    if exists|p: int| lim <= p <= start && bit_set_in(data, offset, p) && none_set(data, offset, p + 1, start + 1) {
        let p = choose|p: int| lim <= p <= start && bit_set_in(data, offset, p) && none_set(data, offset, p + 1, start + 1);
        Some(tick_at_position(p, spacing) as i32)
    } else {
        None
    }
}

/// An upward search has one outcome.
pub proof fn lemma_up_search_unique(data: Seq<u8>, offset: int, tick: int, spacing: int, r: Option<i32>)
    requires
        spacing > 0,
        up_search_result(data, offset, tick, spacing, r),
    ensures
        r == spec_next_initialized(data, offset, tick, spacing),
{
    let (start, lim) = up_range(tick, spacing);
    match r {
        Some(t) => {
            let p = position(t as int, spacing);
            assert(start <= p <= lim && bit_set_in(data, offset, p) && none_set(data, offset, start, p));
            let q = choose|q: int| start <= q <= lim && bit_set_in(data, offset, q) && none_set(data, offset, start, q);
            if q < p {
                assert(!bit_set_in(data, offset, q));
            }
            if p < q {
                assert(!bit_set_in(data, offset, p));
            }
        },
        None => {
            if exists|p: int| start <= p <= lim && bit_set_in(data, offset, p) && none_set(data, offset, start, p) {
                let q = choose|q: int| start <= q <= lim && bit_set_in(data, offset, q) && none_set(data, offset, start, q);
                assert(!bit_set_in(data, offset, q));
            }
        },
    }
}

/// A downward search has one outcome.
pub proof fn lemma_down_search_unique(data: Seq<u8>, offset: int, tick: int, spacing: int, r: Option<i32>)
    requires
        spacing > 0,
        down_search_result(data, offset, tick, spacing, r),
    ensures
        r == spec_prev_initialized(data, offset, tick, spacing),
{
    let (start, lim) = down_range(tick, spacing);
    match r {
        Some(t) => {
            let p = position(t as int, spacing);
            assert(lim <= p <= start && bit_set_in(data, offset, p) && none_set(data, offset, p + 1, start + 1));
            let q = choose|q: int| lim <= q <= start && bit_set_in(data, offset, q) && none_set(data, offset, q + 1, start + 1);
            if q < p {
                assert(!bit_set_in(data, offset, p));
            }
            if p < q {
                assert(!bit_set_in(data, offset, q));
            }
        },
        None => {
            if exists|p: int| lim <= p <= start && bit_set_in(data, offset, p) && none_set(data, offset, p + 1, start + 1) {
                let q = choose|q: int| lim <= q <= start && bit_set_in(data, offset, q) && none_set(data, offset, q + 1, start + 1);
                assert(!bit_set_in(data, offset, q));
            }
        },
    }
}

impl Tickmap {
    /// The nearest initialized tick above `tick` within one search range.
    pub fn next_initialized(&self, tick: i32, tick_spacing: u16) -> (r: Option<i32>)
        requires
            up_search_ok(tick as int, tick_spacing as int),
        ensures
            up_search_result(self.bitmap@, 0, tick as int, tick_spacing as int, r),
            r == spec_next_initialized(self.bitmap@, 0, tick as int, tick_spacing as int),
    {
        proof {
            lemma_up_range(tick as int, tick_spacing as int);
        }
        let r = search_up(self.bitmap.as_slice(), 0, tick, tick_spacing);
        proof {
            lemma_up_search_unique(self.bitmap@, 0, tick as int, tick_spacing as int, r);
        }
        r
    }

    /// The nearest initialized tick at or below `tick` within one search range.
    pub fn prev_initialized(&self, tick: i32, tick_spacing: u16) -> (r: Option<i32>)
        requires
            down_search_ok(tick as int, tick_spacing as int),
        ensures
            down_search_result(self.bitmap@, 0, tick as int, tick_spacing as int, r),
            r == spec_prev_initialized(self.bitmap@, 0, tick as int, tick_spacing as int),
    {
        proof {
            lemma_down_range(tick as int, tick_spacing as int);
        }
        let r = search_down(self.bitmap.as_slice(), 0, tick, tick_spacing);
        proof {
            lemma_down_search_unique(self.bitmap@, 0, tick as int, tick_spacing as int, r);
        }
        r
    }
}
/// Toggling bit `i` of a byte flips that bit and keeps the others.
proof fn lemma_flip_bit(b: u8, i: u8, j: u8)
    by (bit_vector)
    requires
        i < 8,
        j < 8,
    ensures
        ((b ^ (1u8 << i)) >> j) % 2 == 1 <==> if i == j { !((b >> j) % 2 == 1) } else { (b >> j) % 2 == 1 },
{
}


/// The byte a bit position falls in, as `tick_to_position` computes it.
pub open spec fn byte_of(pos: int) -> int {
    if pos >= 0 { pos / 8 } else { 0 }
}

/// Preconditions of `TickmapSlice::calculate_search_range_offset`.
pub open spec fn search_offset_ok(tick: int, spacing: int, up: bool) -> bool {
    &&& spacing > 0
    &&& up ==> trunc_div(tick, spacing) + TICK_SEARCH_RANGE <= i32::MAX
    &&& !up ==> trunc_div(tick, spacing) - TICK_SEARCH_RANGE >= i32::MIN
    &&& position(spec_search_limit(tick, spacing, up), spacing) > -8
    &&& position(spec_search_limit(tick, spacing, up), spacing) <= i32::MAX
}

/// The first byte of the window `TickmapSlice::from_slice` copies.
pub open spec fn slice_start(tick: int, spacing: int, x_to_y: bool) -> int {
    let shift = if x_to_y { TICK_SEARCH_RANGE - 674 * 8 - 8 } else { -TICK_SEARCH_RANGE + 8 };
    let s = trunc_div(trunc_div(tick, spacing) + TICK_LIMIT + shift, 8);
    let s0 = if s < 0 { 0 } else { s };
    if s0 > (TICKMAP_SIZE + 1) / 8 - 674 { (TICKMAP_SIZE + 1) / 8 - 674 } else { s0 }
}

/// A window of `TICKMAP_SLICE_SIZE` bytes of a tickmap whose first byte is byte
/// `offset` of the whole bitmap.
pub struct TickmapSlice {
    pub data: [u8; 674],
    pub offset: i32,
}

impl Default for TickmapSlice {
    fn default() -> (r: Self)
        ensures
            r.offset == 0,
            forall|i: int| 0 <= i < 674 ==> r.data@[i] == 0,
    {
        TickmapSlice { data: [0u8; 674], offset: 0 }
    }
}

impl TickmapSlice {
    /// The window offset that puts the far end of a search from `init_tick` at the
    /// edge of the window: its last byte when searching up, its first when searching down.
    pub fn calculate_search_range_offset(init_tick: i32, spacing: u16, up: bool) -> (r: i32)
        requires
            search_offset_ok(init_tick as int, spacing as int, up),
        ensures
            r == if up {
                byte_of(position(spec_search_limit(init_tick as int, spacing as int, up), spacing as int)) - 674 + 1
            } else {
                byte_of(position(spec_search_limit(init_tick as int, spacing as int, up), spacing as int))
            },
    {
        let search_limit = get_search_limit(init_tick, spacing, up);
        let (byte, _bit) = tick_to_position(search_limit, spacing);
        let position = byte as i32;
        if up {
            position - TICKMAP_SLICE_SIZE as i32 + 1
        } else {
            position
        }
    }

    /// Copies the window of the bitmap `tickmap_data` that a swap starting at
    /// `current_tick_index` in direction `x_to_y` searches; bytes past the end of
    /// `tickmap_data` stay zero.
    pub fn from_slice(tickmap_data: &[u8], current_tick_index: i32, tick_spacing: u16, x_to_y: bool) -> (r: Result<
        Self,
        TrackableError,
    >)
        requires
            tick_spacing > 0,
            trunc_div(current_tick_index as int, tick_spacing as int) + TICK_LIMIT <= i32::MAX - 248,
            slice_start(current_tick_index as int, tick_spacing as int, x_to_y) <= tickmap_data@.len() <= i32::MAX,
        ensures
            r matches Ok(v) && ({
                let start = slice_start(current_tick_index as int, tick_spacing as int, x_to_y);
                let end = if start + 674 < tickmap_data@.len() { start + 674 } else { tickmap_data@.len() as int };
                &&& v.offset == start
                &&& forall|i: int| 0 <= i < 674 ==> v.data@[i] == if i < end - start { tickmap_data@[start + i] } else { 0 }
            }),
    {
        let shift: i32 = if x_to_y {
            TICK_SEARCH_RANGE - TICKMAP_SLICE_SIZE as i32 * 8 - 8
        } else {
            -TICK_SEARCH_RANGE + 8
        };
        proof {
            lemma_trunc_div_bounds(current_tick_index as int, tick_spacing as int);
        }
        let index = div_i32(current_tick_index, tick_spacing as i32) + TICK_LIMIT + shift;
        let s = index / 8;
        proof {
            assert(s == trunc_div(index as int, 8)) by {
                lemma_trunc_div_bounds(index as int, 8);
            }
        }
        let s0 = if s < 0 { 0 } else { s };
        let cap = (TICKMAP_SIZE + 1) / 8 - TICKMAP_SLICE_SIZE as i32;
        let start_index: usize = if s0 > cap { cap as usize } else { s0 as usize };
        let len = tickmap_data.len() as i32;
        let end_i32 = if start_index as i32 + TICKMAP_SLICE_SIZE as i32 <= len {
            start_index as i32 + TICKMAP_SLICE_SIZE as i32
        } else {
            len
        };
        let end_index = end_i32 as usize;
        let mut data = [0u8; 674];
        let mut i: usize = 0;
        while i < end_index - start_index
            invariant
                start_index <= end_index <= tickmap_data@.len(),
                end_index - start_index <= 674,
                i <= end_index - start_index,
                forall|j: int| 0 <= j < 674 ==> data@[j] == if j < i { tickmap_data@[start_index + j] } else { 0 },
            decreases end_index - start_index - i,
        {
            data[i] = tickmap_data[start_index + i];
            i = i + 1;
        }
        Ok(TickmapSlice { data, offset: start_index as i32 })
    }

    /// The byte at `index` of the whole bitmap, if the window holds it.
    pub fn get(&self, index: usize) -> (r: Option<&u8>)
        ensures
            r == if index >= (self.offset as usize) && index - (self.offset as usize) < 674 {
                Some(&self.data@[index - (self.offset as usize)])
            } else {
                None::<&u8>
            },
    {
        let offset = self.offset as usize;
        if index < offset {
            return None;
        }
        let i = index - offset;
        if i < TICKMAP_SLICE_SIZE {
            Some(&self.data[i])
        } else {
            None
        }
    }
}

/// A tickmap seen through a window: the tickmap a simulated swap reads.
pub struct TickmapView {
    pub bitmap: TickmapSlice,
}

impl Default for TickmapView {
    fn default() -> (r: Self)
        ensures
            r.bitmap.offset == 0,
            forall|i: int| 0 <= i < 674 ==> r.bitmap.data@[i] == 0,
    {
        TickmapView { bitmap: TickmapSlice::default() }
    }
}

/// Whether the window of `view` holds bit position `pos`.
pub open spec fn in_window(view: TickmapView, pos: int) -> bool {
    &&& view.bitmap.offset >= 0
    &&& view.bitmap.offset * 8 <= pos < (view.bitmap.offset + 674) * 8
}

impl TickmapView {
    /// The nearest initialized tick above `tick` within one search range.
    pub fn next_initialized(&self, tick: i32, tick_spacing: u16) -> (r: Option<i32>)
        requires
            up_search_ok(tick as int, tick_spacing as int),
            up_range(tick as int, tick_spacing as int).0 > up_range(tick as int, tick_spacing as int).1 || (
            self.bitmap.offset >= 0 && up_window_ok(self.bitmap.data@, self.bitmap.offset as int, tick as int, tick_spacing as int)),
        ensures
            up_search_result(self.bitmap.data@, self.bitmap.offset as int, tick as int, tick_spacing as int, r),
    {
        let offset: usize = if self.bitmap.offset >= 0 { self.bitmap.offset as usize } else { 0 };
        let r = search_up(self.bitmap.data.as_slice(), offset, tick, tick_spacing);
        proof {
            if self.bitmap.offset < 0 {
                assert(r is None);
            }
        }
        r
    }

    /// The nearest initialized tick at or below `tick` within one search range.
    pub fn prev_initialized(&self, tick: i32, tick_spacing: u16) -> (r: Option<i32>)
        requires
            down_search_ok(tick as int, tick_spacing as int),
            down_range(tick as int, tick_spacing as int).0 < down_range(tick as int, tick_spacing as int).1 || (
            self.bitmap.offset >= 0 && down_window_ok(self.bitmap.data@, self.bitmap.offset as int, tick as int, tick_spacing as int)),
        ensures
            down_search_result(self.bitmap.data@, self.bitmap.offset as int, tick as int, tick_spacing as int, r),
    {
        let offset: usize = if self.bitmap.offset >= 0 { self.bitmap.offset as usize } else { 0 };
        let r = search_down(self.bitmap.data.as_slice(), offset, tick, tick_spacing);
        proof {
            if self.bitmap.offset < 0 {
                assert(r is None);
            }
        }
        r
    }

    /// Whether `tick` is initialized.
    pub fn get(&self, tick: i32, tick_spacing: u16) -> (r: bool)
        requires
            tick_spacing > 0,
            (tick as int) % (tick_spacing as int) == 0,
            -8 < position(tick as int, tick_spacing as int) <= i32::MAX,
            in_window(*self, stored_bit(position(tick as int, tick_spacing as int))),
        ensures
            r == bit_set_in(
                self.bitmap.data@,
                self.bitmap.offset as int,
                stored_bit(position(tick as int, tick_spacing as int)),
            ),
    {
        let (byte, bit) = tick_to_position(tick, tick_spacing);
        let i = byte - self.bitmap.offset as usize;
        let value = (self.bitmap.data[i] >> bit) % 2;
        value == 1
    }

    /// Marks `tick` initialized (`value`) or not; it must not already be in that state.
    pub fn flip(&mut self, value: bool, tick: i32, tick_spacing: u16)
        requires
            tick_spacing > 0,
            (tick as int) % (tick_spacing as int) == 0,
            -8 < position(tick as int, tick_spacing as int) <= i32::MAX,
            in_window(*old(self), stored_bit(position(tick as int, tick_spacing as int))),
            bit_set_in(
                old(self).bitmap.data@,
                old(self).bitmap.offset as int,
                stored_bit(position(tick as int, tick_spacing as int)),
            ) != value,
        ensures
            final(self).bitmap.offset == old(self).bitmap.offset,
            forall|p: int| in_window(*old(self), p) ==> bit_set_in(final(self).bitmap.data@, old(self).bitmap.offset as int, p) == if p == stored_bit(position(tick as int, tick_spacing as int)) {
                value
            } else {
                bit_set_in(old(self).bitmap.data@, old(self).bitmap.offset as int, p)
            },
            final(self).bitmap.data@ == flip_bit_in(
                old(self).bitmap.data@,
                old(self).bitmap.offset as int,
                stored_bit(position(tick as int, tick_spacing as int)),
            ),
    {
        let (byte, bit) = tick_to_position(tick, tick_spacing);
        let i = byte - self.bitmap.offset as usize;
        let old_byte = self.bitmap.data[i];
        self.bitmap.data[i] = old_byte ^ (1u8 << bit);
        proof {
            let pos = stored_bit(position(tick as int, tick_spacing as int));
            let off = old(self).bitmap.offset as int;
            assert forall|p: int| in_window(*old(self), p) implies bit_set_in(self.bitmap.data@, off, p) == if p == pos {
                value
            } else {
                bit_set_in(old(self).bitmap.data@, off, p)
            } by {
                if p / 8 == byte as int {
                    lemma_flip_bit(old_byte, bit, (p % 8) as u8);
                    if p != pos {
                        assert(p % 8 != bit as int);
                    }
                }
            }
        }
    }

    /// The view of the window `TickmapSlice::from_slice` copies.
    pub fn from_slice(tickmap_data: &[u8], current_tick_index: i32, tick_spacing: u16, x_to_y: bool) -> (r: Result<
        Self,
        TrackableError,
    >)
        requires
            tick_spacing > 0,
            trunc_div(current_tick_index as int, tick_spacing as int) + TICK_LIMIT <= i32::MAX - 248,
            slice_start(current_tick_index as int, tick_spacing as int, x_to_y) <= tickmap_data@.len() <= i32::MAX,
        ensures
            r matches Ok(v) && ({
                let start = slice_start(current_tick_index as int, tick_spacing as int, x_to_y);
                let end = if start + 674 < tickmap_data@.len() { start + 674 } else { tickmap_data@.len() as int };
                &&& v.bitmap.offset == start
                &&& forall|i: int| 0 <= i < 674 ==> v.bitmap.data@[i] == if i < end - start { tickmap_data@[start + i] } else { 0 }
            }),
    {
        let bitmap = TickmapSlice::from_slice(tickmap_data, current_tick_index, tick_spacing, x_to_y)?;
        Ok(TickmapView { bitmap })
    }
}

/// Flipping a bit twice gives back the bitmap it started from.
pub proof fn lemma_flip_twice(data: Seq<u8>, offset: int, pos: int)
    requires
        0 <= pos / 8 - offset < data.len(),
    ensures
        flip_bit_in(flip_bit_in(data, offset, pos), offset, pos) =~= data,
{
    let b = data[pos / 8 - offset];
    let i = (pos % 8) as u8;
    assert((b ^ (1u8 << i)) ^ (1u8 << i) == b) by (bit_vector);
}

/// Flipping a bit toggles that bit and leaves every other bit of the window as it was.
pub proof fn lemma_flip_reads_back(data: Seq<u8>, offset: int, pos: int, q: int)
    requires
        0 <= pos / 8 - offset < data.len(),
        0 <= q / 8 - offset < data.len(),
    ensures
        bit_set_in(flip_bit_in(data, offset, pos), offset, q) == if q == pos {
            !bit_set_in(data, offset, pos)
        } else {
            bit_set_in(data, offset, q)
        },
{
    if q / 8 == pos / 8 {
        lemma_flip_bit(data[pos / 8 - offset], (pos % 8) as u8, (q % 8) as u8);
        if q != pos {
            assert(q % 8 != pos % 8);
        }
    }
}

} // verus!
