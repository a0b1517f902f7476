//! Quotes on an order-book market: the market order a quote places for an
//! input amount, and the quote read back from what the order took. The
//! matching itself is done by the order book between the two steps.
use vstd::prelude::*;

verus! {

/// `x` read as a signed 64-bit number.
pub open spec fn as_signed(x: u64) -> int {
    if x <= i64::MAX { x as int } else { x - 0x1_0000_0000_0000_0000 }
}

/// A signed 64-bit number read as an unsigned one.
pub open spec fn as_unsigned(x: int) -> int {
    if x >= 0 { x } else { x + 0x1_0000_0000_0000_0000 }
}

/// `|x|`.
pub open spec fn magnitude(x: int) -> nat {
    if x >= 0 { x as nat } else { (-x) as nat }
}

/// `a / b` rounded toward zero.
pub open spec fn div_toward_zero(a: int, b: int) -> int {
    let q = magnitude(a) / magnitude(b);
    if (a < 0) != (b < 0) { -q } else { q as int }
}

/// The market order of a quote: which side it takes, and the most base lots and
/// quote lots (fees included) it may spend.
#[derive(Clone, Copy, Debug, PartialEq, Eq)]
pub struct MarketOrder {
    pub is_bid: bool,
    pub max_base_lots: i64,
    pub max_quote_lots_including_fees: i64,
}

/// The whole lots of `in_amount` at `lot_size`, and the native amount they make.
pub open spec fn spec_input_lots(in_amount: u64, lot_size: i64) -> (int, int) {
    let lots = div_toward_zero(as_signed(in_amount), lot_size as int);
    (lots, as_unsigned(lots * lot_size))
}

/// Whether `in_amount` can be split into lots of `lot_size` without a division
/// that panics.
pub open spec fn lots_defined(in_amount: u64, lot_size: i64) -> bool {
    lot_size != 0 && !(as_signed(in_amount) == i64::MIN && lot_size == -1)
}

/// The market order for `in_amount` and the native amount it spends: a bid
/// spends whole quote lots, an ask whole base lots; the other side is bounded
/// by the market's own maximum.
pub open spec fn spec_market_order(
    is_bid: bool,
    in_amount: u64,
    base_lot_size: i64,
    quote_lot_size: i64,
    market_max_base_lots: i64,
    market_max_quote_lots: i64,
) -> (MarketOrder, u64) {
    if is_bid {
        let (lots, native) = spec_input_lots(in_amount, quote_lot_size);
        (
            MarketOrder { is_bid, max_base_lots: market_max_base_lots, max_quote_lots_including_fees: lots as i64 },
            native as u64,
        )
    } else {
        let (lots, native) = spec_input_lots(in_amount, base_lot_size);
        (
            MarketOrder { is_bid, max_base_lots: lots as i64, max_quote_lots_including_fees: market_max_quote_lots },
            native as u64,
        )
    }
}

/// The whole lots of `in_amount` at `lot_size`, and the native amount they make.
pub fn input_lots(in_amount: u64, lot_size: i64) -> (r: (i64, u64))
    requires
        lots_defined(in_amount, lot_size),
    ensures
        r.0 == spec_input_lots(in_amount, lot_size).0,
        r.1 == spec_input_lots(in_amount, lot_size).1,
{
    let a: i128 = if in_amount <= 0x7fff_ffff_ffff_ffffu64 {
        in_amount as i128
    } else {
        in_amount as i128 - 0x1_0000_0000_0000_0000i128
    };
    let b: i128 = lot_size as i128;
    let ma: u128 = if a >= 0 { a as u128 } else { (-a) as u128 };
    let mb: u128 = if b >= 0 { b as u128 } else { (-b) as u128 };
    let q: u128 = ma / mb;
    proof {
        vstd::arithmetic::div_mod::lemma_fundamental_div_mod(ma as int, mb as int);
        vstd::arithmetic::div_mod::lemma_mod_bound(ma as int, mb as int);
        vstd::arithmetic::div_mod::lemma_div_pos_is_pos(ma as int, mb as int);
        vstd::arithmetic::div_mod::lemma_div_is_ordered_by_denominator(ma as int, 1, mb as int);
        vstd::arithmetic::mul::lemma_mul_is_commutative(mb as int, q as int);
        assert(q * mb <= ma);
        if q == 0x8000_0000_0000_0000u128 {
            assert(mb == 1) by (nonlinear_arith)
                requires q * mb <= ma, ma <= 0x8000_0000_0000_0000u128, q == 0x8000_0000_0000_0000u128, mb >= 1;
        }
    }
    let lots: i128 = if (a < 0) != (b < 0) { -(q as i128) } else { q as i128 };
    proof {
        assert(q * mb == magnitude(lots as int * b as int)) by (nonlinear_arith)
            requires
                lots == q || lots == -q,
                b == mb || b == -mb,
                q >= 0,
                mb >= 0;
        assert(lots * b <= 0x8000_0000_0000_0000i128 && lots * b >= -0x8000_0000_0000_0000i128) by (nonlinear_arith)
            requires
                q * mb == magnitude(lots as int * b as int),
                q * mb <= ma,
                ma <= 0x8000_0000_0000_0000u128;
        if lots * b == 0x8000_0000_0000_0000i128 {
            assert(a == -0x8000_0000_0000_0000i128);
            assert(lots > 0 && b > 0 || lots < 0 && b < 0) by (nonlinear_arith)
                requires lots * b == 0x8000_0000_0000_0000i128;
            assert(false);
        }
    }
    let native: i128 = lots * b;
    let native_u: u64 = if native >= 0 {
        native as u64
    } else {
        (native + 0x1_0000_0000_0000_0000i128) as u64
    };
    (lots as i64, native_u)
}

/// The market order for a quote of `in_amount`, and the native amount it spends.
pub fn market_order(
    is_bid: bool,
    in_amount: u64,
    base_lot_size: i64,
    quote_lot_size: i64,
    market_max_base_lots: i64,
    market_max_quote_lots: i64,
) -> (r: (MarketOrder, u64))
    requires
        is_bid ==> lots_defined(in_amount, quote_lot_size),
        !is_bid ==> lots_defined(in_amount, base_lot_size),
    ensures
        r == spec_market_order(is_bid, in_amount, base_lot_size, quote_lot_size, market_max_base_lots, market_max_quote_lots),
{
    if is_bid {
        let (lots, native) = input_lots(in_amount, quote_lot_size);
        (MarketOrder { is_bid, max_base_lots: market_max_base_lots, max_quote_lots_including_fees: lots }, native)
    } else {
        let (lots, native) = input_lots(in_amount, base_lot_size);
        (MarketOrder { is_bid, max_base_lots: lots, max_quote_lots_including_fees: market_max_quote_lots }, native)
    }
}

/// The quote read back from a filled order: `(in_amount, out, taker fees)`, the
/// output being the base a bid took or the quote an ask took.
pub fn order_quote(
    is_bid: bool,
    in_amount: u64,
    total_base_taken_native: u64,
    total_quote_taken_native: u64,
    taker_fees: u64,
) -> (r: (u64, u64, u64))
    ensures
        r == (in_amount, if is_bid { total_base_taken_native } else { total_quote_taken_native }, taker_fees),
{
    let out_amount = if is_bid { total_base_taken_native } else { total_quote_taken_native };
    (in_amount, out_amount, taker_fees)
}

/// A quote by output, which a market does not give: `(u64::MAX, 0, 0)` with
/// the default key as fee mint.
pub fn order_quote_exact_out(out_amount: u64) -> (r: (u64, u64, u64, crate::cp_swap::Pubkey))
    ensures
        r.0 == u64::MAX && r.1 == 0 && r.2 == 0,
        r.3@ == Seq::new(32, |i: int| 0u8),
{
    let key = [0u8; 32];
    proof {
        assert(key@ =~= Seq::new(32, |i: int| 0u8));
    }
    (u64::MAX, 0, 0, key)
}

/// What a quote on a market does before the order book matches: quote nothing
/// when the book lacks a side or the input makes no whole lot, else place the
/// market order for the native amount it spends.
#[derive(Clone, Copy, Debug, PartialEq, Eq)]
pub enum QuotePlan {
    /// The quote `(in_amount, out_amount, fee_amount)` without matching.
    Quote(u64, u64, u64),
    /// The order to match and the native input it spends.
    Match(MarketOrder, u64),
}

pub open spec fn spec_plan_quote(
    has_bids: bool,
    has_asks: bool,
    is_bid: bool,
    in_amount: u64,
    base_lot_size: i64,
    quote_lot_size: i64,
    market_max_base_lots: i64,
    market_max_quote_lots: i64,
) -> QuotePlan {
    if !has_bids || !has_asks {
        QuotePlan::Quote(0, 0, 0)
    } else {
        let (order, native) = spec_market_order(
            is_bid,
            in_amount,
            base_lot_size,
            quote_lot_size,
            market_max_base_lots,
            market_max_quote_lots,
        );
        if native == 0 {
            QuotePlan::Quote(0, 0, 0)
        } else {
            QuotePlan::Match(order, native)
        }
    }
}

/// The steps of a quote before the matching: a market without bids or asks,
/// or an input below one lot, quotes `(0, 0, 0)`.
pub fn plan_quote(
    has_bids: bool,
    has_asks: bool,
    is_bid: bool,
    in_amount: u64,
    base_lot_size: i64,
    quote_lot_size: i64,
    market_max_base_lots: i64,
    market_max_quote_lots: i64,
) -> (r: QuotePlan)
    requires
        has_bids && has_asks && is_bid ==> lots_defined(in_amount, quote_lot_size),
        has_bids && has_asks && !is_bid ==> lots_defined(in_amount, base_lot_size),
    ensures
        r == spec_plan_quote(
            has_bids,
            has_asks,
            is_bid,
            in_amount,
            base_lot_size,
            quote_lot_size,
            market_max_base_lots,
            market_max_quote_lots,
        ),
{
    if !has_bids || !has_asks {
        return QuotePlan::Quote(0, 0, 0);
    }
    let (order, native) = market_order(
        is_bid,
        in_amount,
        base_lot_size,
        quote_lot_size,
        market_max_base_lots,
        market_max_quote_lots,
    );
    if native == 0 {
        QuotePlan::Quote(0, 0, 0)
    } else {
        QuotePlan::Match(order, native)
    }
}

} // verus!

verus! {

/// A quote on a market without bids or without asks is `(0, 0, 0)`. On a market
/// with both, with positive lot sizes and an input that fits an `i64`, the
/// input is cut into whole lots of the side it spends (quote lots for a bid,
/// base lots for an ask): no whole lot quotes `(0, 0, 0)`, else the market
/// order takes that side with those lots, bounded on the other side by the
/// market's maximum, and spends the native amount of the lots.
pub proof fn lemma_plan_quote_law(
    has_bids: bool,
    has_asks: bool,
    is_bid: bool,
    in_amount: u64,
    base_lot_size: i64,
    quote_lot_size: i64,
    market_max_base_lots: i64,
    market_max_quote_lots: i64,
)
    ensures
        ({
            let plan = spec_plan_quote(
                has_bids,
                has_asks,
                is_bid,
                in_amount,
                base_lot_size,
                quote_lot_size,
                market_max_base_lots,
                market_max_quote_lots,
            );
            let lot = if is_bid { quote_lot_size as int } else { base_lot_size as int };
            let lots = in_amount as int / lot;
            &&& !has_bids || !has_asks ==> plan == QuotePlan::Quote(0, 0, 0)
            &&& has_bids && has_asks && lot > 0 && in_amount <= i64::MAX ==> plan == if lots == 0 {
                QuotePlan::Quote(0, 0, 0)
            } else {
                QuotePlan::Match(
                    MarketOrder {
                        is_bid,
                        max_base_lots: if is_bid { market_max_base_lots } else { lots as i64 },
                        max_quote_lots_including_fees: if is_bid { lots as i64 } else { market_max_quote_lots },
                    },
                    (lots * lot) as u64,
                )
            }
        }),
{
    let lot = if is_bid { quote_lot_size as int } else { base_lot_size as int };
    if has_bids && has_asks && lot > 0 && in_amount <= i64::MAX {
        let a = in_amount as int;
        let lots = a / lot;
        vstd::arithmetic::div_mod::lemma_fundamental_div_mod(a, lot);
        vstd::arithmetic::div_mod::lemma_mod_bound(a, lot);
        vstd::arithmetic::div_mod::lemma_div_pos_is_pos(a, lot);
        vstd::arithmetic::div_mod::lemma_div_is_ordered_by_denominator(a, 1, lot);
        assert(lots * lot <= a) by (nonlinear_arith)
            requires a == lot * lots + a % lot, a % lot >= 0;
        assert(lots * lot >= 0) by (nonlinear_arith)
            requires lots >= 0, lot > 0;
        assert(lots * lot == 0 <==> lots == 0) by (nonlinear_arith)
            requires lots >= 0, lot > 0;
        assert(as_signed(in_amount) == a);
        assert(magnitude(a) == a);
        assert(magnitude(lot) == lot);
        assert(div_toward_zero(a, lot) == lots);
    }
}

} // verus!
