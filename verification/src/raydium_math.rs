//! Constant-product math of an order-book AMM pool: decimal conversions, the
//! amounts a swap moves in and out, and the rounding-up division it uses.
use vstd::prelude::*;
use vstd::arithmetic::div_mod::*;
use vstd::arithmetic::mul::*;
use crate::decimals::{pow10, pow10_exec, lemma_pow10_bound, lemma_pow10_pos};

verus! {

/// Errors of the pool program itself.
#[derive(Clone, Copy, Debug, PartialEq, Eq)]
pub enum AmmError {
    ConversionFailure,
    InvalidStatus,
}

/// Errors of the swap math.
#[derive(Clone, Copy, Debug, PartialEq, Eq)]
pub enum CalcError {
    Mul,
    Pow,
    Div,
    Sub,
    Add,
    CeilDiv,
    Amm(AmmError),
}

impl CalcError {
    /// The message that goes with the error, as characters.
    pub open spec fn spec_message(self) -> Seq<char> {
        match self {
            CalcError::Mul => "mul error"@,
            CalcError::Pow => "pow error"@,
            CalcError::Div => "div error"@,
            CalcError::Sub => "sub error"@,
            CalcError::Add => "add error"@,
            CalcError::CeilDiv => "ceil div error"@,
            CalcError::Amm(AmmError::ConversionFailure) => "ConversionFailure"@,
            CalcError::Amm(AmmError::InvalidStatus) => "InvalidStatus"@,
        }
    }

    /// The message that goes with the error.
    pub fn message(&self) -> (r: &'static str)
        ensures
            r@ == self.spec_message(),
    {
        match self {
            CalcError::Mul => "mul error",
            CalcError::Pow => "pow error",
            CalcError::Div => "div error",
            CalcError::Sub => "sub error",
            CalcError::Add => "add error",
            CalcError::CeilDiv => "ceil div error",
            CalcError::Amm(AmmError::ConversionFailure) => "ConversionFailure",
            CalcError::Amm(AmmError::InvalidStatus) => "InvalidStatus",
        }
    }
}

/// The side a swap sells.
#[derive(Clone, Copy, Debug, PartialEq, Eq)]
pub enum SwapDirection {
    /// Input token pc, output token coin
    PC2Coin,
    /// Input token coin, output token pc
    Coin2PC,
}

/// The direction to round.  Used for pool token to trading token conversions to
/// avoid losing value on any deposit or withdrawal.
#[derive(Clone, Copy, Debug, PartialEq, Eq)]
pub enum RoundDirection {
    /// Floor the value, ie. 1.9 => 1, 1.1 => 1, 1.5 => 1
    Floor,
    /// Ceiling the value, ie. 1.9 => 2, 1.1 => 2, 1.5 => 2
    Ceiling,
}

/// The pool's conversions and swap formulas.
#[derive(Clone, Debug, PartialEq, Eq)]
pub struct Calculator {}

/// The invariant calculator.
pub struct InvariantToken {
    /// Token coin
    pub token_coin: u64,
    /// Token pc
    pub token_pc: u64,
}

/// The invariant calculator.
pub struct InvariantPool {
    /// Token input
    pub token_input: u64,
    /// Token total
    pub token_total: u64,
}

/// 10^e when it fits in a `u128`.
pub open spec fn spec_checked_pow10(e: nat) -> Option<u128> {
    if pow10(e) <= u128::MAX { Some(pow10(e) as u128) } else { None }
}

/// Powers of ten from 10^39 on do not fit in a `u128`.
proof fn lemma_pow10_large(k: nat)
    requires
        k >= 39,
    ensures
        pow10(k) > u128::MAX,
    decreases k,
{
    if k == 39 {
        lemma_pow10_bound(38);
        reveal_with_fuel(pow10, 40);
        assert(pow10(38) == 100_000_000_000_000_000_000_000_000_000_000_000_000) by {
            reveal_with_fuel(pow10, 39);
        }
    } else {
        lemma_pow10_large((k - 1) as nat);
    }
}

/// `10.checked_pow(e)` in 128 bits.
fn checked_pow10(e: u64) -> (r: Option<u128>)
    ensures
        r == spec_checked_pow10(e as nat),
        r matches Some(p) ==> p >= 1,
{
    if e > 38 {
        proof {
            lemma_pow10_large(e as nat);
        }
        None
    } else {
        proof {
            lemma_pow10_bound(e as nat);
        }
        Some(pow10_exec(e as u32))
    }
}

/// Ceiling division that does not round the divisor away: `(quotient, divisor)`.
/// It fails (`None`) when the divisor is zero or larger than the dividend, rather
/// than give a result like 1 / 1000 = 1.
pub open spec fn spec_checked_ceil_div(a: nat, b: nat) -> Option<(u128, u128)> {
    if b == 0 {
        None
    } else if a / b == 0 {
        None
    } else if a % b > 0 {
        let q = a / b + 1;
        let d = a / q;
        if a % q > 0 { Some((q as u128, (d + 1) as u128)) } else { Some((q as u128, d as u128)) }
    } else {
        Some(((a / b) as u128, b as u128))
    }
}

/// Perform a division that does not truncate value from either side, returning
/// the (quotient, divisor) as a tuple.
pub trait CheckedCeilDiv: Sized {
    /// Perform ceiling division
    fn checked_ceil_div(&self, rhs: Self) -> Option<(Self, Self)>;
}

impl CheckedCeilDiv for u128 {
    fn checked_ceil_div(&self, rhs: Self) -> (r: Option<(Self, Self)>)
        ensures
            r == spec_checked_ceil_div(*self as nat, rhs as nat),
            rhs > 0 && *self >= rhs ==> (r matches Some((q, _)) && q == (*self + rhs - 1) / (rhs as int)),
    {
        let a = *self;
        if rhs == 0 {
            return None;
        }
        let mut quotient = a / rhs;
        proof {
            if a >= rhs {
                lemma_div_non_zero(a as int, rhs as int);
            }
        }
        if quotient == 0 {
            return None;
        }
        let remainder = a % rhs;
        let mut divisor = rhs;
        proof {
            lemma_fundamental_div_mod(a as int, rhs as int);
            lemma_mod_bound(a as int, rhs as int);
        }
        if remainder > 0 {
            proof {
                assert(rhs >= 2);
                lemma_div_is_ordered_by_denominator(a as int, 2, rhs as int);
            }
            quotient = quotient + 1;
            divisor = a / quotient;
            let remainder2 = a % quotient;
            proof {
                lemma_div_is_ordered_by_denominator(a as int, 2, quotient as int);
            }
            if remainder2 > 0 {
                divisor = divisor + 1;
            }
            proof {
                // the quotient is the rounded-up one
                let q0 = a as int / rhs as int;
                let r0 = a as int % rhs as int;
                assert((a + rhs - 1) as int == (q0 + 1) * rhs + (r0 - 1)) by (nonlinear_arith)
                    requires a == rhs * q0 + r0;
                lemma_fundamental_div_mod_converse(
                    (a + rhs - 1) as int,
                    rhs as int,
                    (a / rhs + 1) as int,
                    (a % rhs - 1) as int,
                );
            }
        } else {
            proof {
                let q0 = a as int / rhs as int;
                assert((a + rhs - 1) as int == q0 * rhs + (rhs - 1)) by (nonlinear_arith)
                    requires a == rhs * q0;
                lemma_fundamental_div_mod_converse((a + rhs - 1) as int, rhs as int, (a / rhs) as int, (rhs - 1) as int);
            }
        }
        Some((quotient, divisor))
    }
}

/// The numbers the conversion of a price to the pool's decimals goes through.
pub open spec fn spec_normalize_decimal(val: nat, native_decimal: nat, sys_decimal_value: nat) -> Result<u64, CalcError> {
    if val * sys_decimal_value > u128::MAX {
        Err(CalcError::Mul)
    } else if pow10(native_decimal) > u128::MAX {
        Err(CalcError::Pow)
    } else if val * sys_decimal_value / pow10(native_decimal) > u64::MAX {
        Err(CalcError::Amm(AmmError::ConversionFailure))
    } else {
        Ok((val * sys_decimal_value / pow10(native_decimal)) as u64)
    }
}

/// The inverse conversion, back to the token's own decimals.
pub open spec fn spec_restore_decimal(val: nat, native_decimal: nat, sys_decimal_value: nat) -> Result<u128, CalcError> {
    if pow10(native_decimal) > u128::MAX {
        Err(CalcError::Pow)
    } else if val * pow10(native_decimal) > u128::MAX {
        Err(CalcError::Mul)
    } else if sys_decimal_value == 0 {
        Err(CalcError::Div)
    } else {
        Ok((val * pow10(native_decimal) / sys_decimal_value) as u128)
    }
}

/// Restoring a normalized amount gives back at most the amount: it is the
/// normalized amount scaled back by `10^native_decimal / sys_decimal_value`,
/// rounded down.
pub proof fn lemma_restore_normalized(val: nat, native_decimal: nat, sys_decimal_value: nat)
    requires
        sys_decimal_value > 0,
    ensures
        spec_normalize_decimal(val, native_decimal, sys_decimal_value) matches Ok(r) ==> (spec_restore_decimal(
            r as nat,
            native_decimal,
            sys_decimal_value,
        ) matches Ok(x) && x == r * pow10(native_decimal) / (sys_decimal_value as int) && x <= val),
{
    if let Ok(r) = spec_normalize_decimal(val, native_decimal, sys_decimal_value) {
        let p = pow10(native_decimal);
        lemma_pow10_pos(native_decimal);
        let m = val * sys_decimal_value;
        lemma_fundamental_div_mod(m as int, p as int);
        lemma_mod_bound(m as int, p as int);
        let rn = r as nat;
        assert(rn == m / p);
        assert(rn * p <= m) by (nonlinear_arith)
            requires m == p * rn + m % p, m % p >= 0;
        lemma_div_is_ordered((rn * p) as int, m as int, sys_decimal_value as int);
        lemma_div_multiples_vanish(val as int, sys_decimal_value as int);
        lemma_mul_is_commutative(sys_decimal_value as int, val as int);
    }
}

/// The pool's price lot size from the order book's.
pub open spec fn spec_convert_in_pc_lot_size(
    pc_decimals: nat,
    coin_decimals: nat,
    pc_lot_size: nat,
    coin_lot_size: nat,
    sys_decimal_value: nat,
) -> Result<u64, CalcError> {
    let a = pc_lot_size * sys_decimal_value;
    if a > u128::MAX {
        Err(CalcError::Mul)
    } else if pow10(coin_decimals) > u128::MAX {
        Err(CalcError::Pow)
    } else if a * pow10(coin_decimals) > u128::MAX {
        Err(CalcError::Mul)
    } else if pow10(pc_decimals) > u128::MAX {
        Err(CalcError::Pow)
    } else if coin_lot_size * pow10(pc_decimals) > u128::MAX {
        Err(CalcError::Mul)
    } else if coin_lot_size * pow10(pc_decimals) == 0 {
        Err(CalcError::Div)
    } else if a * pow10(coin_decimals) / (coin_lot_size * pow10(pc_decimals)) > u64::MAX {
        Err(CalcError::Amm(AmmError::ConversionFailure))
    } else {
        Ok((a * pow10(coin_decimals) / (coin_lot_size * pow10(pc_decimals))) as u64)
    }
}

/// Output of a swap of `amount_in` against reserves `reserve_in` and `reserve_out`:
/// `reserve_out * amount_in / (reserve_in + amount_in)`, rounded down.
pub open spec fn spec_swap_base_in(
    amount_in: nat,
    total_pc: nat,
    total_coin: nat,
    swap_direction: SwapDirection,
) -> Result<u128, CalcError> {
    let (reserve_in, reserve_out, add_error) = match swap_direction {
        SwapDirection::Coin2PC => (total_coin, total_pc, CalcError::Add),
        SwapDirection::PC2Coin => (total_pc, total_coin, CalcError::Sub),
    };
    if reserve_in + amount_in > u128::MAX {
        Err(add_error)
    } else if reserve_out * amount_in > u128::MAX {
        Err(CalcError::Mul)
    } else if reserve_in + amount_in == 0 {
        Err(CalcError::Div)
    } else {
        Ok((reserve_out * amount_in / (reserve_in + amount_in)) as u128)
    }
}

/// Input a swap needs for `amount_out`: `reserve_in * amount_out / (reserve_out - amount_out)`,
/// rounded up by `checked_ceil_div`.
pub open spec fn spec_swap_base_out(
    amount_out: nat,
    total_pc: nat,
    total_coin: nat,
    swap_direction: SwapDirection,
) -> Result<u128, CalcError> {
    let (reserve_in, reserve_out) = match swap_direction {
        SwapDirection::Coin2PC => (total_coin, total_pc),
        SwapDirection::PC2Coin => (total_pc, total_coin),
    };
    if amount_out > reserve_out {
        Err(CalcError::Sub)
    } else if reserve_in * amount_out > u128::MAX {
        Err(CalcError::Mul)
    } else {
        match spec_checked_ceil_div(reserve_in * amount_out, (reserve_out - amount_out) as nat) {
            None => Err(CalcError::CeilDiv),
            Some((q, _)) => Ok(q),
        }
    }
}

/// The sequence `fibonacci` builds: 0, 1, 2, then each the sum of the two before.
pub open spec fn spec_fibonacci(i: nat) -> nat
    decreases i,
{
    if i == 0 {
        0
    } else if i == 1 {
        1
    } else if i == 2 {
        2
    } else {
        spec_fibonacci((i - 1) as nat) + spec_fibonacci((i - 2) as nat)
    }
}

proof fn lemma_fibonacci_mono(i: nat, j: nat)
    requires
        i <= j,
    ensures
        spec_fibonacci(i) <= spec_fibonacci(j),
    decreases j,
{
    if i < j {
        lemma_fibonacci_mono(i, (j - 1) as nat);
        if j >= 3 {
            assert(spec_fibonacci(j) == spec_fibonacci((j - 1) as nat) + spec_fibonacci((j - 2) as nat));
        }
    }
}

impl Calculator {
    /// Widens an amount; it cannot fail.
    pub fn to_u128(val: u64) -> (r: Result<u128, AmmError>)
        ensures
            r == Ok::<u128, AmmError>(val as u128),
    {
        Ok(val as u128)
    }

    /// Narrows an amount, or `ConversionFailure` when it does not fit.
    pub fn to_u64(val: u128) -> (r: Result<u64, AmmError>)
        ensures
            val <= u64::MAX ==> r == Ok::<u64, AmmError>(val as u64),
            val > u64::MAX ==> r == Err::<u64, AmmError>(AmmError::ConversionFailure),
    {
        if val <= u64::MAX as u128 {
            Ok(val as u64)
        } else {
            Err(AmmError::ConversionFailure)
        }
    }

    /// The first `order_num` numbers of the sequence 0, 1, 2, 3, 5, 8, 13, 21, 34, 55, ...
    pub fn fibonacci(order_num: u64) -> (r: Vec<u64>)
        requires
            order_num <= 1 || spec_fibonacci((order_num - 1) as nat) <= u64::MAX,
            order_num <= usize::MAX,
        ensures
            r@.len() == order_num,
            forall|i: int| 0 <= i < order_num ==> r@[i] == spec_fibonacci(i as nat),
    {
        let mut fb: Vec<u64> = Vec::new();
        let mut i: u64 = 0;
        while i < order_num
            invariant
                i <= order_num <= usize::MAX,
                order_num <= 1 || spec_fibonacci((order_num - 1) as nat) <= u64::MAX,
                fb@.len() == i,
                forall|k: int| 0 <= k < i ==> fb@[k] == spec_fibonacci(k as nat),
            decreases order_num - i,
        {
            if i == 0 {
                fb.push(0u64);
            } else if i == 1 {
                fb.push(1u64);
            } else if i == 2 {
                fb.push(2u64);
            } else {
                proof {
                    lemma_fibonacci_mono(i as nat, (order_num - 1) as nat);
                    assert(spec_fibonacci(i as nat) == spec_fibonacci((i - 1) as nat) + spec_fibonacci((i - 2) as nat));
                }
                let ret = fb[(i - 1) as usize] + fb[(i - 2) as usize];
                fb.push(ret);
            }
            i = i + 1;
        }
        fb
    }

    /// Converts `val` from `native_decimal` decimals to the pool's `sys_decimal_value`
    /// scale: `val * sys_decimal_value / 10^native_decimal`.
    pub fn normalize_decimal(val: u64, native_decimal: u64, sys_decimal_value: u64) -> (r: Result<u64, CalcError>)
        ensures
            r == spec_normalize_decimal(val as nat, native_decimal as nat, sys_decimal_value as nat),
    {
        let ret_mut = match (val as u128).checked_mul(sys_decimal_value as u128) {
            Some(v) => v,
            None => return Err(CalcError::Mul),
        };
        let p = match checked_pow10(native_decimal) {
            Some(v) => v,
            None => return Err(CalcError::Pow),
        };
        let q = ret_mut / p;
        match Self::to_u64(q) {
            Ok(v) => Ok(v),
            Err(e) => Err(CalcError::Amm(e)),
        }
    }

    /// Converts `val` back from the pool's scale to `native_decimal` decimals:
    /// `val * 10^native_decimal / sys_decimal_value`.
    pub fn restore_decimal(val: u128, native_decimal: u64, sys_decimal_value: u64) -> (r: Result<u128, CalcError>)
        ensures
            r == spec_restore_decimal(val as nat, native_decimal as nat, sys_decimal_value as nat),
    {
        let p = match checked_pow10(native_decimal) {
            Some(v) => v,
            None => return Err(CalcError::Pow),
        };
        let ret_mut = match val.checked_mul(p) {
            Some(v) => v,
            None => return Err(CalcError::Mul),
        };
        match ret_mut.checked_div(sys_decimal_value as u128) {
            Some(v) => Ok(v),
            None => Err(CalcError::Div),
        }
    }

    /// Converts the order book's price lot size to the pool's:
    /// `pc_lot_size * sys_decimal_value * 10^coin_decimals / (coin_lot_size * 10^pc_decimals)`.
    pub fn convert_in_pc_lot_size(
        pc_decimals: u8,
        coin_decimals: u8,
        pc_lot_size: u64,
        coin_lot_size: u64,
        sys_decimal_value: u64,
    ) -> (r: Result<u64, CalcError>)
        ensures
            r == spec_convert_in_pc_lot_size(
                pc_decimals as nat,
                coin_decimals as nat,
                pc_lot_size as nat,
                coin_lot_size as nat,
                sys_decimal_value as nat,
            ),
    {
        let a = match (pc_lot_size as u128).checked_mul(sys_decimal_value as u128) {
            Some(v) => v,
            None => return Err(CalcError::Mul),
        };
        let pc = match checked_pow10(coin_decimals as u64) {
            Some(v) => v,
            None => return Err(CalcError::Pow),
        };
        let b = match a.checked_mul(pc) {
            Some(v) => v,
            None => return Err(CalcError::Mul),
        };
        let pp = match checked_pow10(pc_decimals as u64) {
            Some(v) => v,
            None => return Err(CalcError::Pow),
        };
        let d = match (coin_lot_size as u128).checked_mul(pp) {
            Some(v) => v,
            None => return Err(CalcError::Mul),
        };
        let q = match b.checked_div(d) {
            Some(v) => v,
            None => return Err(CalcError::Div),
        };
        match Self::to_u64(q) {
            Ok(v) => Ok(v),
            Err(e) => Err(CalcError::Amm(e)),
        }
    }

    /// The vault amounts without the profit the pool has yet to take:
    /// `(pc_amount - need_take_pnl_pc, coin_amount - need_take_pnl_coin)`.
    pub fn calc_total_without_take_pnl_no_orderbook(pc_amount: u64, coin_amount: u64, amm: &AmmInfo) -> (r: Result<
        (u64, u64),
        CalcError,
    >)
        ensures
            r == if amm.state_data.need_take_pnl_pc > pc_amount || amm.state_data.need_take_pnl_coin > coin_amount {
                Err::<(u64, u64), CalcError>(CalcError::Sub)
            } else {
                Ok(((pc_amount - amm.state_data.need_take_pnl_pc) as u64, (coin_amount - amm.state_data.need_take_pnl_coin) as u64))
            },
    {
        let total_pc_without_take_pnl = match pc_amount.checked_sub(amm.state_data.need_take_pnl_pc) {
            Some(v) => v,
            None => return Err(CalcError::Sub),
        };
        let total_coin_without_take_pnl = match coin_amount.checked_sub(amm.state_data.need_take_pnl_coin) {
            Some(v) => v,
            None => return Err(CalcError::Sub),
        };
        Ok((total_pc_without_take_pnl, total_coin_without_take_pnl))
    }

    /// The output of selling `amount_in` to a constant-product pool:
    /// `reserve_out * amount_in / (reserve_in + amount_in)`.
    pub fn swap_token_amount_base_in(
        amount_in: u128,
        total_pc_without_take_pnl: u128,
        total_coin_without_take_pnl: u128,
        swap_direction: SwapDirection,
    ) -> (r: Result<u128, CalcError>)
        ensures
            r == spec_swap_base_in(
                amount_in as nat,
                total_pc_without_take_pnl as nat,
                total_coin_without_take_pnl as nat,
                swap_direction,
            ),
    {
        match swap_direction {
            SwapDirection::Coin2PC => {
                let denominator = match total_coin_without_take_pnl.checked_add(amount_in) {
                    Some(v) => v,
                    None => return Err(CalcError::Add),
                };
                let n = match total_pc_without_take_pnl.checked_mul(amount_in) {
                    Some(v) => v,
                    None => return Err(CalcError::Mul),
                };
                match n.checked_div(denominator) {
                    Some(v) => Ok(v),
                    None => Err(CalcError::Div),
                }
            },
            SwapDirection::PC2Coin => {
                let denominator = match total_pc_without_take_pnl.checked_add(amount_in) {
                    Some(v) => v,
                    None => return Err(CalcError::Sub),
                };
                let n = match total_coin_without_take_pnl.checked_mul(amount_in) {
                    Some(v) => v,
                    None => return Err(CalcError::Mul),
                };
                match n.checked_div(denominator) {
                    Some(v) => Ok(v),
                    None => Err(CalcError::Div),
                }
            },
        }
    }

    /// The input needed to buy `amount_out` from a constant-product pool:
    /// `reserve_in * amount_out / (reserve_out - amount_out)`, rounded up.
    pub fn swap_token_amount_base_out(
        amount_out: u128,
        total_pc_without_take_pnl: u128,
        total_coin_without_take_pnl: u128,
        swap_direction: SwapDirection,
    ) -> (r: Result<u128, CalcError>)
        ensures
            r == spec_swap_base_out(
                amount_out as nat,
                total_pc_without_take_pnl as nat,
                total_coin_without_take_pnl as nat,
                swap_direction,
            ),
    {
        match swap_direction {
            SwapDirection::Coin2PC => {
                let denominator = match total_pc_without_take_pnl.checked_sub(amount_out) {
                    Some(v) => v,
                    None => return Err(CalcError::Sub),
                };
                let n = match total_coin_without_take_pnl.checked_mul(amount_out) {
                    Some(v) => v,
                    None => return Err(CalcError::Mul),
                };
                match n.checked_ceil_div(denominator) {
                    Some((q, _)) => Ok(q),
                    None => Err(CalcError::CeilDiv),
                }
            },
            SwapDirection::PC2Coin => {
                let denominator = match total_coin_without_take_pnl.checked_sub(amount_out) {
                    Some(v) => v,
                    None => return Err(CalcError::Sub),
                };
                let n = match total_pc_without_take_pnl.checked_mul(amount_out) {
                    Some(v) => v,
                    None => return Err(CalcError::Mul),
                };
                match n.checked_ceil_div(denominator) {
                    Some((q, _)) => Ok(q),
                    None => Err(CalcError::CeilDiv),
                }
            },
        }
    }
}

/// The state of the pool the swap math reads: the profit it has yet to take.
#[derive(Clone, Copy, Debug, PartialEq, Eq, Default)]
pub struct StateData {
    pub need_take_pnl_coin: u64,
    pub need_take_pnl_pc: u64,
    pub pool_open_time: u64,
}

/// The swap fee of the pool, as a fraction.
#[derive(Clone, Copy, Debug, PartialEq, Eq, Default)]
pub struct Fees {
    pub swap_fee_numerator: u64,
    pub swap_fee_denominator: u64,
}

/// The pool fields the swap math reads.
#[derive(Clone, Copy, Debug, PartialEq, Eq, Default)]
pub struct AmmInfo {
    pub status: u64,
    pub state_data: StateData,
    pub fees: Fees,
}

/// The reserves a swap direction reads: (reserve in, reserve out).
pub open spec fn reserves_of(total_pc: nat, total_coin: nat, swap_direction: SwapDirection) -> (nat, nat) {
    match swap_direction {
        SwapDirection::Coin2PC => (total_coin, total_pc),
        SwapDirection::PC2Coin => (total_pc, total_coin),
    }
}

/// A swap by input never pays out more than the output reserve, and never
/// lowers the product of the reserves.
pub proof fn lemma_swap_base_in_keeps_product(
    amount_in: nat,
    total_pc: nat,
    total_coin: nat,
    swap_direction: SwapDirection,
)
    ensures
        spec_swap_base_in(amount_in, total_pc, total_coin, swap_direction) matches Ok(out) ==> ({
            let (x, y) = reserves_of(total_pc, total_coin, swap_direction);
            &&& out <= y
            &&& (x + amount_in) * (y - out) >= x * y
        }),
{
    let (x, y) = reserves_of(total_pc, total_coin, swap_direction);
    if let Ok(out) = spec_swap_base_in(amount_in, total_pc, total_coin, swap_direction) {
        let d = x + amount_in;
        assert(d > 0);
        let q = y * amount_in / d;
        assert(out == q);
        lemma_fundamental_div_mod((y * amount_in) as int, d as int);
        lemma_mod_bound((y * amount_in) as int, d as int);
        assert(q * d <= y * amount_in) by (nonlinear_arith)
            requires y * amount_in == d * q + (y * amount_in) % d, (y * amount_in) % d >= 0;
        assert(q <= y) by (nonlinear_arith)
            requires q * d <= y * amount_in, d >= amount_in, d > 0, q >= 0;
        assert(d * (y - q) >= x * y) by (nonlinear_arith)
            requires q * d <= y * amount_in, d == x + amount_in, q <= y;
    }
}

/// A swap by output never lowers the product of the reserves: the input is
/// rounded up.
pub proof fn lemma_swap_base_out_keeps_product(
    amount_out: nat,
    total_pc: nat,
    total_coin: nat,
    swap_direction: SwapDirection,
)
    ensures
        spec_swap_base_out(amount_out, total_pc, total_coin, swap_direction) matches Ok(amount_in) ==> ({
            let (x, y) = reserves_of(total_pc, total_coin, swap_direction);
            (x + amount_in) * (y - amount_out) >= x * y
        }),
{
    let (x, y) = reserves_of(total_pc, total_coin, swap_direction);
    if let Ok(amount_in) = spec_swap_base_out(amount_out, total_pc, total_coin, swap_direction) {
        let a = x * amount_out;
        let b = (y - amount_out) as nat;
        if a < b {
            lemma_div_of_smaller(a, b);
        }
        lemma_ceil_div_quotient(a, b);
        let q = (a + b - 1) / (b as int);
        assert(amount_in == q);
        lemma_fundamental_div_mod((a + b - 1) as int, b as int);
        lemma_mod_bound((a + b - 1) as int, b as int);
        assert(q * b >= a) by (nonlinear_arith)
            requires a + b - 1 == b * q + (a + b - 1) % (b as int), (a + b - 1) % (b as int) < b;
        assert((x + q) * b >= x * y) by (nonlinear_arith)
            requires q * b >= x * amount_out, b == y - amount_out;
    }
}

/// The input a swap by output quotes is the rounded-up exact input, and selling
/// it back buys at least the output asked for.
pub proof fn lemma_swap_base_out_buys_output(
    amount_out: nat,
    total_pc: nat,
    total_coin: nat,
    swap_direction: SwapDirection,
)
    ensures
        spec_swap_base_out(amount_out, total_pc, total_coin, swap_direction) matches Ok(amount_in) ==> ({
            let (x, y) = reserves_of(total_pc, total_coin, swap_direction);
            &&& amount_in == (x * amount_out + (y - amount_out) - 1) / ((y - amount_out) as int)
            &&& spec_swap_base_in(amount_in as nat, total_pc, total_coin, swap_direction) matches Ok(o) ==> o
                >= amount_out
        }),
{
    let (x, y) = reserves_of(total_pc, total_coin, swap_direction);
    if let Ok(amount_in) = spec_swap_base_out(amount_out, total_pc, total_coin, swap_direction) {
        let a = x * amount_out;
        let b = (y - amount_out) as nat;
        if a < b {
            lemma_div_of_smaller(a, b);
        }
        lemma_ceil_div_quotient(a, b);
        let q = amount_in as nat;
        lemma_fundamental_div_mod((a + b - 1) as int, b as int);
        lemma_mod_bound((a + b - 1) as int, b as int);
        assert(q * b >= a) by (nonlinear_arith)
            requires a + b - 1 == b * q + (a + b - 1) % (b as int), (a + b - 1) % (b as int) < b;
        if let Ok(o) = spec_swap_base_in(q, total_pc, total_coin, swap_direction) {
            let d = x + q;
            lemma_fundamental_div_mod((y * q) as int, d as int);
            lemma_mod_bound((y * q) as int, d as int);
            assert(y * q >= amount_out * d) by (nonlinear_arith)
                requires q * b >= x * amount_out, b == y - amount_out, d == x + q;
            assert(o >= amount_out) by (nonlinear_arith)
                requires
                    y * q >= amount_out * d,
                    y * q == d * o + (y * q) % d,
                    (y * q) % d < d,
                    d > 0;
        }
    }
}

/// A smaller dividend gives a zero quotient.
proof fn lemma_div_of_smaller(a: nat, b: nat)
    requires
        a < b,
    ensures
        a / b == 0,
{
    lemma_basic_div(a as int, b as int);
}

/// The quotient of `spec_checked_ceil_div` is the rounded-up quotient when the
/// dividend is at least the divisor.
pub proof fn lemma_ceil_div_quotient(a: nat, b: nat)
    requires
        0 < b <= a <= u128::MAX,
    ensures
        spec_checked_ceil_div(a, b) matches Some((q, _)) && q == (a + b - 1) / (b as int),
{
    lemma_div_non_zero(a as int, b as int);
    lemma_fundamental_div_mod(a as int, b as int);
    lemma_mod_bound(a as int, b as int);
    let q0 = a as int / b as int;
    let r0 = a as int % b as int;
    if r0 > 0 {
        assert((a + b - 1) as int == (q0 + 1) * b + (r0 - 1)) by (nonlinear_arith)
            requires a == b * q0 + r0;
        lemma_fundamental_div_mod_converse((a + b - 1) as int, b as int, q0 + 1, r0 - 1);
        lemma_div_is_ordered_by_denominator(a as int, 1, b as int);
        assert(q0 + 1 <= u128::MAX) by {
            assert(b >= 2);
            lemma_div_is_ordered_by_denominator(a as int, 2, b as int);
        }
        lemma_div_is_ordered_by_denominator(a as int, 1, q0 + 1);
    } else {
        assert((a + b - 1) as int == q0 * b + (b - 1)) by (nonlinear_arith)
            requires a == b * q0;
        lemma_fundamental_div_mod_converse((a + b - 1) as int, b as int, q0, b - 1);
        lemma_div_is_ordered_by_denominator(a as int, 1, b as int);
    }
}

} // verus!
