//! A constant-product pool with a dynamic fee: status bits, fee arithmetic and
//! the swap formulas, the fee rate being given.
use vstd::prelude::*;
use vstd::arithmetic::div_mod::*;
use vstd::arithmetic::mul::*;
use crate::raydium_math::{CheckedCeilDiv, spec_checked_ceil_div, lemma_ceil_div_quotient};

verus! {

/// Denominator of the fee rates: a rate of 10_000 is 1%.
pub const FEE_RATE_DENOMINATOR_VALUE: u64 = 1_000_000;
/// Largest dynamic fee rate from volatility: 1%.
pub const MAX_FEE_VOLATILITY: u64 = 10000;
/// Window of observations the volatility looks at: one hour.
pub const VOLATILITY_WINDOW: u64 = 3600;
/// Number of observations a pool keeps.
pub const OBSERVATION_NUM: usize = 100;

/// Errors of the pool program.
#[derive(Clone, Copy, Debug, PartialEq, Eq)]
pub enum GammaError {
    MathOverflow,
    InvalidFee,
}

impl GammaError {
    /// The message that goes with the error, as characters.
    pub open spec fn spec_message(self) -> Seq<char> {
        match self {
            GammaError::MathOverflow => "Math overflow"@,
            GammaError::InvalidFee => "Invalid fee"@,
        }
    }

    /// The message that goes with the error.
    pub fn message(&self) -> (r: &'static str)
        ensures
            r@ == self.spec_message(),
    {
        match self {
            GammaError::MathOverflow => "Math overflow",
            GammaError::InvalidFee => "Invalid fee",
        }
    }
}

/// Whether an operation is enabled.
#[derive(Clone, Copy, Debug, PartialEq, Eq)]
pub enum PoolStatusBitFlag {
    Enable,
    Disable,
}

/// The operations a status bit governs.
#[derive(Clone, Copy, Debug, PartialEq, Eq)]
pub enum PoolStatusBitIndex {
    Deposit,
    Withdraw,
    Swap,
}

/// The bit of the status that governs an operation.
pub open spec fn status_bit(bit: PoolStatusBitIndex) -> u8 {
    match bit {
        PoolStatusBitIndex::Deposit => 0,
        PoolStatusBitIndex::Withdraw => 1,
        PoolStatusBitIndex::Swap => 2,
    }
}

/// The pool fields the swap math reads.
#[derive(Clone, Copy, Debug, PartialEq, Eq, Default)]
pub struct PoolState {
    /// Bit i set disables operation i.
    pub status: u8,
    pub open_time: u64,
}

impl PoolState {
    /// Whether the operation is enabled: its bit of the status is clear.
    pub fn get_status_by_bit(&self, bit: PoolStatusBitIndex) -> (r: bool)
        ensures
            r == ((self.status >> status_bit(bit)) % 2 == 0),
    {
        let index: u8 = match bit {
            PoolStatusBitIndex::Deposit => 0,
            PoolStatusBitIndex::Withdraw => 1,
            PoolStatusBitIndex::Swap => 2,
        };
        let status = 1u8 << index;
        proof {
            lemma_bit_clear(self.status, index);
        }
        self.status & status == 0
    }
}

proof fn lemma_bit_clear(s: u8, i: u8)
    by (bit_vector)
    requires
        i < 8,
    ensures
        (s & (1u8 << i) == 0) == ((s >> i) % 2 == 0),
{
}

/// Whether a pool quotes at `now_ts`: swaps are enabled and it has opened.
pub open spec fn spec_quotes_at(pool: PoolState, now_ts: u64) -> bool {
    (pool.status >> status_bit(PoolStatusBitIndex::Swap)) % 2 == 0 && pool.open_time <= now_ts
}

/// The quote of a pool that does not trade at `now_ts` (`(in, out, fee)`: none of
/// anything by input; by output, an input nobody can pay), or `None` when it trades.
pub fn closed_pool_quote(pool: &PoolState, now_ts: u64, exact_out: bool) -> (r: Option<(u64, u64, u64)>)
    ensures
        spec_quotes_at(*pool, now_ts) ==> r is None,
        !spec_quotes_at(*pool, now_ts) ==> r == Some(if exact_out { (u64::MAX, 0u64, 0u64) } else { (0u64, 0u64, 0u64) }),
{
    if !pool.get_status_by_bit(PoolStatusBitIndex::Swap) || pool.open_time > now_ts {
        if exact_out {
            Some((u64::MAX, 0, 0))
        } else {
            Some((0, 0, 0))
        }
    } else {
        None
    }
}

/// How a pool's fee rate is set.
#[derive(Clone, Copy, Debug, PartialEq, Eq)]
pub enum FeeType {
    /// The rate follows the volatility of the price.
    Volatility,
}

/// The side a trade sells.
#[derive(Clone, Copy, Debug, PartialEq, Eq)]
pub enum TradeDirection {
    ZeroForOne,
    OneForZero,
}

impl TradeDirection {
    /// The other direction.
    pub fn opposite(&self) -> (r: TradeDirection)
        ensures
            r != *self,
    {
        match self {
            TradeDirection::ZeroForOne => TradeDirection::OneForZero,
            TradeDirection::OneForZero => TradeDirection::ZeroForOne,
        }
    }
}

/// `amount * numerator / denominator` rounded up, or none on overflow or a zero denominator.
pub open spec fn spec_ceil_div(amount: nat, numerator: nat, denominator: nat) -> Option<u128> {
    if amount * numerator > u128::MAX || amount * numerator + denominator > u128::MAX || amount * numerator
        + denominator < 1 || denominator == 0 {
        None
    } else {
        Some(((amount * numerator + denominator - 1) / (denominator as int)) as u128)
    }
}

/// `amount * numerator / denominator` rounded down, or none on overflow or a zero denominator.
pub open spec fn spec_floor_div(amount: nat, numerator: nat, denominator: nat) -> Option<u128> {
    if amount * numerator > u128::MAX || denominator == 0 {
        None
    } else {
        Some((amount * numerator / denominator) as u128)
    }
}

/// `token_amount * fee_numerator / fee_denominator`, rounded up.
pub fn ceil_div(token_amount: u128, fee_numerator: u128, fee_denominator: u128) -> (r: Option<u128>)
    ensures
        r == spec_ceil_div(token_amount as nat, fee_numerator as nat, fee_denominator as nat),
{
    let p = token_amount.checked_mul(fee_numerator)?;
    let s = p.checked_add(fee_denominator)?;
    let t = s.checked_sub(1)?;
    t.checked_div(fee_denominator)
}

/// `token_amount * fee_numerator / fee_denominator`, rounded down.
pub fn floor_div(token_amount: u128, fee_numerator: u128, fee_denominator: u128) -> (r: Option<u128>)
    ensures
        r == spec_floor_div(token_amount as nat, fee_numerator as nat, fee_denominator as nat),
{
    let p = token_amount.checked_mul(fee_numerator)?;
    p.checked_div(fee_denominator)
}

/// Fees at fixed rates.
pub struct StaticFee {}

impl StaticFee {
    /// The trading fee on `amount`, rounded up.
    pub fn trading_fee(amount: u128, trade_fee_rate: u64) -> (r: Option<u128>)
        ensures
            r == spec_ceil_div(amount as nat, trade_fee_rate as nat, FEE_RATE_DENOMINATOR_VALUE as nat),
    {
        ceil_div(amount, trade_fee_rate as u128, FEE_RATE_DENOMINATOR_VALUE as u128)
    }

    /// The protocol's share of a fee, rounded down.
    pub fn protocol_fee(amount: u128, protocol_fee_rate: u64) -> (r: Option<u128>)
        ensures
            r == spec_floor_div(amount as nat, protocol_fee_rate as nat, FEE_RATE_DENOMINATOR_VALUE as nat),
    {
        floor_div(amount, protocol_fee_rate as u128, FEE_RATE_DENOMINATOR_VALUE as u128)
    }

    /// The fund's share of a fee, rounded down.
    pub fn fund_fee(amount: u128, fund_fee_rate: u64) -> (r: Option<u128>)
        ensures
            r == spec_floor_div(amount as nat, fund_fee_rate as nat, FEE_RATE_DENOMINATOR_VALUE as nat),
    {
        floor_div(amount, fund_fee_rate as u128, FEE_RATE_DENOMINATOR_VALUE as u128)
    }
}

/// What a swap does to the pool's reserves, with the fees it charges.
#[derive(Clone, Copy, Debug, PartialEq, Eq)]
pub struct SwapResult {
    pub new_swap_source_amount: u128,
    pub new_swap_destination_amount: u128,
    pub source_amount_swapped: u128,
    pub destination_amount_swapped: u128,
    pub dynamic_fee: u128,
    pub protocol_fee: u128,
    pub fund_fee: u128,
}

/// The constant-product curve.
#[derive(Clone, Debug, Default, PartialEq, Eq)]
pub struct ConstantProductCurve;

/// Output of `amount_in` against reserves `source` and `destination`, rounded down.
pub open spec fn spec_cp_base_input(amount_in: nat, source: nat, destination: nat) -> Result<u128, GammaError> {
    if amount_in * destination > u128::MAX || source + amount_in > u128::MAX || source + amount_in == 0 {
        Err(GammaError::MathOverflow)
    } else {
        Ok((amount_in * destination / (source + amount_in)) as u128)
    }
}

/// Input needed for `amount_out` from reserves `source` and `destination`, rounded up.
pub open spec fn spec_cp_base_output(amount_out: nat, source: nat, destination: nat) -> Result<u128, GammaError> {
    if source * amount_out > u128::MAX || amount_out > destination {
        Err(GammaError::MathOverflow)
    } else {
        match spec_checked_ceil_div(source * amount_out, (destination - amount_out) as nat) {
            None => Err(GammaError::MathOverflow),
            Some((q, _)) => Ok(q),
        }
    }
}

impl ConstantProductCurve {
    /// `source_amount_to_be_swapped * swap_destination_amount / (swap_source_amount + source_amount_to_be_swapped)`.
    pub fn swap_base_input_without_fees(
        source_amount_to_be_swapped: u128,
        swap_source_amount: u128,
        swap_destination_amount: u128,
    ) -> (r: Result<u128, GammaError>)
        ensures
            r == spec_cp_base_input(
                source_amount_to_be_swapped as nat,
                swap_source_amount as nat,
                swap_destination_amount as nat,
            ),
    {
        let numerator = match source_amount_to_be_swapped.checked_mul(swap_destination_amount) {
            Some(v) => v,
            None => return Err(GammaError::MathOverflow),
        };
        let denominator = match swap_source_amount.checked_add(source_amount_to_be_swapped) {
            Some(v) => v,
            None => return Err(GammaError::MathOverflow),
        };
        match numerator.checked_div(denominator) {
            Some(v) => Ok(v),
            None => Err(GammaError::MathOverflow),
        }
    }

    /// `swap_source_amount * destination_amount_to_be_swapped / (swap_destination_amount - destination_amount_to_be_swapped)`,
    /// rounded up.
    pub fn swap_base_output_without_fees(
        destination_amount_to_be_swapped: u128,
        swap_source_amount: u128,
        swap_destination_amount: u128,
    ) -> (r: Result<u128, GammaError>)
        ensures
            r == spec_cp_base_output(
                destination_amount_to_be_swapped as nat,
                swap_source_amount as nat,
                swap_destination_amount as nat,
            ),
    {
        let numerator = match swap_source_amount.checked_mul(destination_amount_to_be_swapped) {
            Some(v) => v,
            None => return Err(GammaError::MathOverflow),
        };
        let denominator = match swap_destination_amount.checked_sub(destination_amount_to_be_swapped) {
            Some(v) => v,
            None => return Err(GammaError::MathOverflow),
        };
        match numerator.checked_ceil_div(denominator) {
            Some((source_amount_swapped, _)) => Ok(source_amount_swapped),
            None => Err(GammaError::MathOverflow),
        }
    }
}

/// The fee at the dynamic rate, rounded up.
pub open spec fn spec_dynamic_fee(amount: nat, rate: nat) -> Result<u128, GammaError> {
    match spec_ceil_div(amount, rate, FEE_RATE_DENOMINATOR_VALUE as nat) {
        Some(f) => Ok(f),
        None => Err(GammaError::MathOverflow),
    }
}

/// The amount before a fee at `rate` that leaves `post_fee_amount`:
/// `post_fee_amount * D / (D - rate)`, rounded up.
pub open spec fn spec_pre_fee_amount(post_fee_amount: nat, rate: nat) -> Result<u128, GammaError> {
    let d = FEE_RATE_DENOMINATOR_VALUE as nat;
    if rate == 0 {
        Ok(post_fee_amount as u128)
    } else if post_fee_amount * d > u128::MAX || rate >= d || post_fee_amount * d + (d - rate) > u128::MAX {
        Err(GammaError::MathOverflow)
    } else {
        Ok(((post_fee_amount * d + (d - rate) - 1) / ((d - rate) as int)) as u128)
    }
}

/// The fee of a pool whose rate follows the volatility of its price.
pub struct DynamicFee {}

impl DynamicFee {
    /// The fee on `amount` at `dynamic_fee_rate` (of `FEE_RATE_DENOMINATOR_VALUE`), rounded up.
    pub fn dynamic_fee(amount: u128, dynamic_fee_rate: u64) -> (r: Result<u128, GammaError>)
        ensures
            r == spec_dynamic_fee(amount as nat, dynamic_fee_rate as nat),
    {
        match ceil_div(amount, dynamic_fee_rate as u128, FEE_RATE_DENOMINATOR_VALUE as u128) {
            Some(f) => Ok(f),
            None => Err(GammaError::MathOverflow),
        }
    }

    /// The amount that is `post_fee_amount` after a fee at `dynamic_fee_rate`.
    pub fn calculate_pre_fee_amount(post_fee_amount: u128, dynamic_fee_rate: u64) -> (r: Result<u128, GammaError>)
        ensures
            r == spec_pre_fee_amount(post_fee_amount as nat, dynamic_fee_rate as nat),
    {
        if dynamic_fee_rate == 0 {
            return Ok(post_fee_amount);
        }
        let numerator = match post_fee_amount.checked_mul(FEE_RATE_DENOMINATOR_VALUE as u128) {
            Some(v) => v,
            None => return Err(GammaError::MathOverflow),
        };
        let denominator = match (FEE_RATE_DENOMINATOR_VALUE as u128).checked_sub(dynamic_fee_rate as u128) {
            Some(v) => v,
            None => return Err(GammaError::MathOverflow),
        };
        let s = match numerator.checked_add(denominator) {
            Some(v) => v,
            None => return Err(GammaError::MathOverflow),
        };
        let t = match s.checked_sub(1) {
            Some(v) => v,
            None => return Err(GammaError::MathOverflow),
        };
        match t.checked_div(denominator) {
            Some(v) => Ok(v),
            None => Err(GammaError::MathOverflow),
        }
    }
}

/// A swap by input: the dynamic fee comes off the input, the protocol and fund
/// take their shares of it, and the rest trades on the constant-product curve.
pub open spec fn spec_gamma_swap_base_input(
    source_amount_to_be_swapped: nat,
    swap_source_amount: nat,
    swap_destination_amount: nat,
    dynamic_fee_rate: nat,
    protocol_fee_rate: nat,
    fund_fee_rate: nat,
) -> Result<SwapResult, GammaError> {
    match spec_dynamic_fee(source_amount_to_be_swapped, dynamic_fee_rate) {
        Err(e) => Err(e),
        Ok(dynamic_fee) => match spec_floor_div(dynamic_fee as nat, protocol_fee_rate, FEE_RATE_DENOMINATOR_VALUE as nat) {
            None => Err(GammaError::InvalidFee),
            Some(protocol_fee) => match spec_floor_div(dynamic_fee as nat, fund_fee_rate, FEE_RATE_DENOMINATOR_VALUE as nat) {
                None => Err(GammaError::InvalidFee),
                Some(fund_fee) => if dynamic_fee > source_amount_to_be_swapped {
                    Err(GammaError::MathOverflow)
                } else {
                    match spec_cp_base_input(
                        (source_amount_to_be_swapped - dynamic_fee) as nat,
                        swap_source_amount,
                        swap_destination_amount,
                    ) {
                        Err(e) => Err(e),
                        Ok(out) => if swap_source_amount + source_amount_to_be_swapped > u128::MAX || out
                            > swap_destination_amount {
                            Err(GammaError::MathOverflow)
                        } else {
                            Ok(SwapResult {
                                new_swap_source_amount: (swap_source_amount + source_amount_to_be_swapped) as u128,
                                new_swap_destination_amount: (swap_destination_amount - out) as u128,
                                source_amount_swapped: source_amount_to_be_swapped as u128,
                                destination_amount_swapped: out,
                                dynamic_fee,
                                protocol_fee,
                                fund_fee,
                            })
                        },
                    }
                },
            },
        },
    }
}

/// A swap by output: the curve says what input the output needs, the dynamic fee
/// is added on top, and the protocol and fund take their shares of it.
pub open spec fn spec_gamma_swap_base_output(
    destination_amount_to_be_swapped: nat,
    swap_source_amount: nat,
    swap_destination_amount: nat,
    dynamic_fee_rate: nat,
    protocol_fee_rate: nat,
    fund_fee_rate: nat,
) -> Result<SwapResult, GammaError> {
    match spec_cp_base_output(destination_amount_to_be_swapped, swap_source_amount, swap_destination_amount) {
        Err(e) => Err(e),
        Ok(swapped) => match spec_pre_fee_amount(swapped as nat, dynamic_fee_rate) {
            Err(e) => Err(e),
            Ok(source_amount) => if swapped > source_amount {
                Err(GammaError::MathOverflow)
            } else {
                let dynamic_fee = (source_amount - swapped) as nat;
                match spec_floor_div(dynamic_fee, protocol_fee_rate, FEE_RATE_DENOMINATOR_VALUE as nat) {
                    None => Err(GammaError::MathOverflow),
                    Some(protocol_fee) => match spec_floor_div(dynamic_fee, fund_fee_rate, FEE_RATE_DENOMINATOR_VALUE as nat) {
                        None => Err(GammaError::MathOverflow),
                        Some(fund_fee) => if swap_source_amount + source_amount > u128::MAX
                            || destination_amount_to_be_swapped > swap_destination_amount {
                            Err(GammaError::MathOverflow)
                        } else {
                            Ok(SwapResult {
                                new_swap_source_amount: (swap_source_amount + source_amount) as u128,
                                new_swap_destination_amount: (swap_destination_amount - destination_amount_to_be_swapped) as u128,
                                source_amount_swapped: source_amount,
                                destination_amount_swapped: destination_amount_to_be_swapped as u128,
                                dynamic_fee: dynamic_fee as u128,
                                protocol_fee,
                                fund_fee,
                            })
                        },
                    },
                }
            },
        },
    }
}

/// A swap by input takes the whole input, charges the dynamic fee on it, and
/// splits that fee at the protocol and fund rates; the reserves move by what
/// went in and what came out.
pub proof fn lemma_gamma_swap_base_input_fees(
    amount: nat,
    swap_source_amount: nat,
    swap_destination_amount: nat,
    dynamic_fee_rate: nat,
    protocol_fee_rate: nat,
    fund_fee_rate: nat,
)
    requires
        amount <= u128::MAX,
        swap_source_amount <= u128::MAX,
        swap_destination_amount <= u128::MAX,
    ensures
        spec_gamma_swap_base_input(
            amount,
            swap_source_amount,
            swap_destination_amount,
            dynamic_fee_rate,
            protocol_fee_rate,
            fund_fee_rate,
        ) matches Ok(r) ==> {
            &&& r.source_amount_swapped == amount
            &&& r.dynamic_fee == (amount * dynamic_fee_rate + 999_999) / 1_000_000
            &&& r.protocol_fee == r.dynamic_fee * protocol_fee_rate / 1_000_000
            &&& r.fund_fee == r.dynamic_fee * fund_fee_rate / 1_000_000
            &&& r.new_swap_source_amount == swap_source_amount + amount
            &&& r.new_swap_destination_amount + r.destination_amount_swapped == swap_destination_amount
            &&& r.destination_amount_swapped == (amount - r.dynamic_fee) * swap_destination_amount / (
            swap_source_amount + amount - r.dynamic_fee)
        },
{
    let d: nat = 1_000_000;
    if let Ok(r) = spec_gamma_swap_base_input(
        amount,
        swap_source_amount,
        swap_destination_amount,
        dynamic_fee_rate,
        protocol_fee_rate,
        fund_fee_rate,
    ) {
        let n = (amount * dynamic_fee_rate + d - 1) as nat;
        lemma_div_is_ordered_by_denominator(n as int, 1, d as int);
        assert(n / d <= n);
        let f = r.dynamic_fee as nat;
        assert(f == n / d);
        lemma_div_is_ordered_by_denominator((f * protocol_fee_rate) as int, 1, d as int);
        lemma_div_is_ordered_by_denominator((f * fund_fee_rate) as int, 1, d as int);
    }
}

/// A swap by output pays out exactly the output asked, takes the input the
/// curve needs plus the dynamic fee, and splits that fee at the protocol and
/// fund rates; the reserves move by what went in and what came out.
pub proof fn lemma_gamma_swap_base_output_fees(
    amount_out: nat,
    swap_source_amount: nat,
    swap_destination_amount: nat,
    dynamic_fee_rate: nat,
    protocol_fee_rate: nat,
    fund_fee_rate: nat,
)
    requires
        amount_out <= u128::MAX,
        swap_source_amount <= u128::MAX,
        swap_destination_amount <= u128::MAX,
    ensures
        spec_gamma_swap_base_output(
            amount_out,
            swap_source_amount,
            swap_destination_amount,
            dynamic_fee_rate,
            protocol_fee_rate,
            fund_fee_rate,
        ) matches Ok(r) ==> {
            &&& r.destination_amount_swapped == amount_out
            &&& r.protocol_fee == r.dynamic_fee * protocol_fee_rate / 1_000_000
            &&& r.fund_fee == r.dynamic_fee * fund_fee_rate / 1_000_000
            &&& r.dynamic_fee <= r.source_amount_swapped
            &&& amount_out < swap_destination_amount
            &&& r.source_amount_swapped - r.dynamic_fee == (swap_source_amount * amount_out + (swap_destination_amount
                - amount_out) - 1) / (swap_destination_amount - amount_out)
            &&& r.new_swap_source_amount == swap_source_amount + r.source_amount_swapped
            &&& r.new_swap_destination_amount == swap_destination_amount - amount_out
        },
{
    let d: nat = 1_000_000;
    if let Ok(r) = spec_gamma_swap_base_output(
        amount_out,
        swap_source_amount,
        swap_destination_amount,
        dynamic_fee_rate,
        protocol_fee_rate,
        fund_fee_rate,
    ) {
        let f = r.dynamic_fee as nat;
        lemma_div_is_ordered_by_denominator((f * protocol_fee_rate) as int, 1, d as int);
        lemma_div_is_ordered_by_denominator((f * fund_fee_rate) as int, 1, d as int);
        let a = swap_source_amount * amount_out;
        let b = (swap_destination_amount - amount_out) as nat;
        if b > 0 {
            if a < b {
                lemma_basic_div(a as int, b as int);
            } else {
                lemma_ceil_div_quotient(a, b);
            }
        }
    }
}

/// The swap formulas of the pool.
#[derive(Clone, Debug, Default, PartialEq, Eq)]
pub struct CurveCalculator {}

impl CurveCalculator {
    /// Swaps `source_amount_to_be_swapped` into the pool at the fee rate `dynamic_fee_rate`.
    pub fn swap_base_input(
        source_amount_to_be_swapped: u128,
        swap_source_amount: u128,
        swap_destination_amount: u128,
        dynamic_fee_rate: u64,
        protocol_fee_rate: u64,
        fund_fee_rate: u64,
    ) -> (r: Result<SwapResult, GammaError>)
        ensures
            r == spec_gamma_swap_base_input(
                source_amount_to_be_swapped as nat,
                swap_source_amount as nat,
                swap_destination_amount as nat,
                dynamic_fee_rate as nat,
                protocol_fee_rate as nat,
                fund_fee_rate as nat,
            ),
    {
        let dynamic_fee = DynamicFee::dynamic_fee(source_amount_to_be_swapped, dynamic_fee_rate)?;
        let protocol_fee = match StaticFee::protocol_fee(dynamic_fee, protocol_fee_rate) {
            Some(v) => v,
            None => return Err(GammaError::InvalidFee),
        };
        let fund_fee = match StaticFee::fund_fee(dynamic_fee, fund_fee_rate) {
            Some(v) => v,
            None => return Err(GammaError::InvalidFee),
        };
        let source_amount_after_fees = match source_amount_to_be_swapped.checked_sub(dynamic_fee) {
            Some(v) => v,
            None => return Err(GammaError::MathOverflow),
        };
        let destination_amount_swapped = ConstantProductCurve::swap_base_input_without_fees(
            source_amount_after_fees,
            swap_source_amount,
            swap_destination_amount,
        )?;
        let new_swap_source_amount = match swap_source_amount.checked_add(source_amount_to_be_swapped) {
            Some(v) => v,
            None => return Err(GammaError::MathOverflow),
        };
        let new_swap_destination_amount = match swap_destination_amount.checked_sub(destination_amount_swapped) {
            Some(v) => v,
            None => return Err(GammaError::MathOverflow),
        };
        Ok(SwapResult {
            new_swap_source_amount,
            new_swap_destination_amount,
            source_amount_swapped: source_amount_to_be_swapped,
            destination_amount_swapped,
            dynamic_fee,
            protocol_fee,
            fund_fee,
        })
    }

    /// Works out the input, fee included, that buys `destination_amount_to_be_swapped`
    /// at the fee rate `dynamic_fee_rate`.
    pub fn swap_base_output(
        destination_amount_to_be_swapped: u128,
        swap_source_amount: u128,
        swap_destination_amount: u128,
        dynamic_fee_rate: u64,
        protocol_fee_rate: u64,
        fund_fee_rate: u64,
    ) -> (r: Result<SwapResult, GammaError>)
        ensures
            r == spec_gamma_swap_base_output(
                destination_amount_to_be_swapped as nat,
                swap_source_amount as nat,
                swap_destination_amount as nat,
                dynamic_fee_rate as nat,
                protocol_fee_rate as nat,
                fund_fee_rate as nat,
            ),
    {
        let source_amount_swapped = ConstantProductCurve::swap_base_output_without_fees(
            destination_amount_to_be_swapped,
            swap_source_amount,
            swap_destination_amount,
        )?;
        let source_amount = DynamicFee::calculate_pre_fee_amount(source_amount_swapped, dynamic_fee_rate)?;
        let dynamic_fee = match source_amount.checked_sub(source_amount_swapped) {
            Some(v) => v,
            None => return Err(GammaError::MathOverflow),
        };
        let protocol_fee = match StaticFee::protocol_fee(dynamic_fee, protocol_fee_rate) {
            Some(v) => v,
            None => return Err(GammaError::MathOverflow),
        };
        let fund_fee = match StaticFee::fund_fee(dynamic_fee, fund_fee_rate) {
            Some(v) => v,
            None => return Err(GammaError::MathOverflow),
        };
        let new_swap_source_amount = match swap_source_amount.checked_add(source_amount) {
            Some(v) => v,
            None => return Err(GammaError::MathOverflow),
        };
        let new_swap_destination_amount = match swap_destination_amount.checked_sub(destination_amount_to_be_swapped) {
            Some(v) => v,
            None => return Err(GammaError::MathOverflow),
        };
        Ok(SwapResult {
            new_swap_source_amount,
            new_swap_destination_amount,
            source_amount_swapped: source_amount,
            destination_amount_swapped: destination_amount_to_be_swapped,
            protocol_fee,
            fund_fee,
            dynamic_fee,
        })
    }
}

/// A swap by input never lowers the product of the reserves, and its fee is part
/// of the input.
pub proof fn lemma_gamma_swap_base_input_keeps_product(
    source_amount_to_be_swapped: nat,
    swap_source_amount: nat,
    swap_destination_amount: nat,
    dynamic_fee_rate: nat,
    protocol_fee_rate: nat,
    fund_fee_rate: nat,
)
    requires
        source_amount_to_be_swapped <= u128::MAX,
        swap_source_amount <= u128::MAX,
        swap_destination_amount <= u128::MAX,
    ensures
        spec_gamma_swap_base_input(
            source_amount_to_be_swapped,
            swap_source_amount,
            swap_destination_amount,
            dynamic_fee_rate,
            protocol_fee_rate,
            fund_fee_rate,
        ) matches Ok(r) ==> r.new_swap_source_amount * r.new_swap_destination_amount >= swap_source_amount
            * swap_destination_amount && r.dynamic_fee <= source_amount_to_be_swapped,
{
    if let Ok(r) = spec_gamma_swap_base_input(
        source_amount_to_be_swapped,
        swap_source_amount,
        swap_destination_amount,
        dynamic_fee_rate,
        protocol_fee_rate,
        fund_fee_rate,
    ) {
        let x = swap_source_amount;
        let y = swap_destination_amount;
        let a = (source_amount_to_be_swapped - r.dynamic_fee) as nat;
        let d = x + a;
        let out = r.destination_amount_swapped as nat;
        assert(out == a * y / d);
        lemma_fundamental_div_mod((a * y) as int, d as int);
        lemma_mod_bound((a * y) as int, d as int);
        assert(out * d <= a * y) by (nonlinear_arith)
            requires a * y == d * out + (a * y) % d, (a * y) % d >= 0;
        assert(d * (y - out) >= x * y) by (nonlinear_arith)
            requires out * d <= a * y, d == x + a, out <= y;
        assert((x + source_amount_to_be_swapped) * (y - out) >= d * (y - out)) by (nonlinear_arith)
            requires source_amount_to_be_swapped >= a, d == x + a, out <= y;
        assert(r.new_swap_source_amount == x + source_amount_to_be_swapped);
        assert(r.new_swap_destination_amount == y - out);
    }
}

/// A swap by output never lowers the product of the reserves: the input is
/// rounded up and the fee comes on top.
pub proof fn lemma_gamma_swap_base_output_keeps_product(
    destination_amount_to_be_swapped: nat,
    swap_source_amount: nat,
    swap_destination_amount: nat,
    dynamic_fee_rate: nat,
    protocol_fee_rate: nat,
    fund_fee_rate: nat,
)
    requires
        swap_source_amount <= u128::MAX,
        swap_destination_amount <= u128::MAX,
    ensures
        spec_gamma_swap_base_output(
            destination_amount_to_be_swapped,
            swap_source_amount,
            swap_destination_amount,
            dynamic_fee_rate,
            protocol_fee_rate,
            fund_fee_rate,
        ) matches Ok(r) ==> r.new_swap_source_amount * r.new_swap_destination_amount >= swap_source_amount
            * swap_destination_amount,
{
    if let Ok(r) = spec_gamma_swap_base_output(
        destination_amount_to_be_swapped,
        swap_source_amount,
        swap_destination_amount,
        dynamic_fee_rate,
        protocol_fee_rate,
        fund_fee_rate,
    ) {
        let x = swap_source_amount;
        let y = swap_destination_amount;
        let o = destination_amount_to_be_swapped;
        let a = x * o;
        let b = (y - o) as nat;
        if a < b {
            lemma_basic_div(a as int, b as int);
        }
        crate::raydium_math::lemma_ceil_div_quotient(a, b);
        let q = (a + b - 1) / (b as int);
        lemma_fundamental_div_mod((a + b - 1) as int, b as int);
        lemma_mod_bound((a + b - 1) as int, b as int);
        assert(q * b >= a) by (nonlinear_arith)
            requires a + b - 1 == b * q + (a + b - 1) % (b as int), (a + b - 1) % (b as int) < b;
        let s = r.source_amount_swapped as nat;
        assert(s >= q);
        assert((x + s) * b >= x * y) by (nonlinear_arith)
            requires q * b >= x * o, b == y - o, s >= q, q >= 0;
        assert(r.new_swap_source_amount == x + s);
        assert(r.new_swap_destination_amount == b);
    }
}

/// The amount before the fee is at least the amount after it, and the fee at
/// the same rate on it leaves at least the amount after the fee.
pub proof fn lemma_pre_fee_amount_covers_fee(post_fee_amount: nat, rate: nat)
    requires
        post_fee_amount <= u128::MAX,
        rate < FEE_RATE_DENOMINATOR_VALUE,
    ensures
        spec_pre_fee_amount(post_fee_amount, rate) matches Ok(pre) ==> pre >= post_fee_amount && (spec_dynamic_fee(
            pre as nat,
            rate,
        ) matches Ok(f) ==> pre - f >= post_fee_amount),
{
    let d = FEE_RATE_DENOMINATOR_VALUE as nat;
    if let Ok(pre) = spec_pre_fee_amount(post_fee_amount, rate) {
        if rate == 0 {
            if let Ok(f) = spec_dynamic_fee(pre as nat, rate) {
                assert(pre * 0 == 0) by (nonlinear_arith);
                lemma_basic_div((d - 1) as int, d as int);
            }
        } else {
            let e = (d - rate) as nat;
            let n = post_fee_amount * d + e - 1;
            lemma_fundamental_div_mod(n as int, e as int);
            lemma_mod_bound(n as int, e as int);
            let p = pre as nat;
            assert(p * e >= post_fee_amount * d) by (nonlinear_arith)
                requires n == e * p + n % (e as int), n % (e as int) < e, n == post_fee_amount * d + e - 1;
            assert(p >= post_fee_amount) by (nonlinear_arith)
                requires p * e >= post_fee_amount * d, e <= d, e > 0;
            if let Ok(f) = spec_dynamic_fee(p, rate) {
                let m = p * rate + d - 1;
                lemma_fundamental_div_mod(m as int, d as int);
                lemma_mod_bound(m as int, d as int);
                let fv = f as nat;
                assert(fv * d <= p * rate + d - 1) by (nonlinear_arith)
                    requires m == d * fv + m % (d as int), m % (d as int) >= 0, m == p * rate + d - 1;
                assert(p - fv >= post_fee_amount) by (nonlinear_arith)
                    requires
                        fv * d <= p * rate + d - 1,
                        p * e >= post_fee_amount * d,
                        e == d - rate,
                        d > 0;
            }
        }
    }
}

/// Protocol and fund shares at rates that add up to at most the whole fee never
/// exceed the fee.
pub proof fn lemma_fee_shares_within_fee(fee: nat, protocol_fee_rate: nat, fund_fee_rate: nat)
    requires
        protocol_fee_rate + fund_fee_rate <= FEE_RATE_DENOMINATOR_VALUE,
        fee * FEE_RATE_DENOMINATOR_VALUE <= u128::MAX,
    ensures
        spec_floor_div(fee, protocol_fee_rate, FEE_RATE_DENOMINATOR_VALUE as nat) matches Some(p) && spec_floor_div(
            fee,
            fund_fee_rate,
            FEE_RATE_DENOMINATOR_VALUE as nat,
        ) matches Some(f) && p + f <= fee,
{
    let d = FEE_RATE_DENOMINATOR_VALUE as nat;
    assert(fee * protocol_fee_rate <= fee * d) by (nonlinear_arith)
        requires protocol_fee_rate <= d;
    assert(fee * fund_fee_rate <= fee * d) by (nonlinear_arith)
        requires fund_fee_rate <= d;
    assert(fee * protocol_fee_rate + fee * fund_fee_rate <= fee * d) by (nonlinear_arith)
        requires protocol_fee_rate + fund_fee_rate <= d;
    let p = fee * protocol_fee_rate / d;
    let f = fee * fund_fee_rate / d;
    lemma_fundamental_div_mod((fee * protocol_fee_rate) as int, d as int);
    lemma_fundamental_div_mod((fee * fund_fee_rate) as int, d as int);
    lemma_mod_bound((fee * protocol_fee_rate) as int, d as int);
    lemma_mod_bound((fee * fund_fee_rate) as int, d as int);
    assert(d * (p + f) <= fee * d) by (nonlinear_arith)
        requires d * p <= fee * protocol_fee_rate, d * f <= fee * fund_fee_rate,
            fee * protocol_fee_rate + fee * fund_fee_rate <= fee * d;
    assert(p + f <= fee) by (nonlinear_arith)
        requires d * (p + f) <= fee * d, d > 0;
}

/// A price observation of the pool.
#[derive(Clone, Copy, Debug, PartialEq, Eq, Default)]
pub struct Observation {
    pub block_timestamp: u64,
    pub cumulative_token0_price_x32: u128,
    pub cumulative_token1_price_x32: u128,
}

/// The ring of the pool's last observations.
#[derive(Clone, Copy, Debug)]
pub struct ObservationState {
    pub observations: [Observation; 100],
}

/// `a - b`, or zero below zero.
pub open spec fn saturating_sub(a: u64, b: u64) -> u64 {
    if a >= b { (a - b) as u64 } else { 0 }
}

/// Whether an observation was made and lies within `window` seconds of `current_time`.
pub open spec fn observation_in_window(o: Observation, current_time: u64, window: u64) -> bool {
    &&& o.block_timestamp != 0
    &&& o.cumulative_token0_price_x32 != 0
    &&& o.cumulative_token1_price_x32 != 0
    &&& saturating_sub(current_time, o.block_timestamp) <= window
}

/// The observations among the first `n` that lie in the window, with their indexes, in index order.
pub open spec fn window_observations(obs: Seq<Observation>, current_time: u64, window: u64, n: nat) -> Seq<
    (u16, Observation),
>
    decreases n,
{
    if n == 0 {
        Seq::empty()
    } else {
        let before = window_observations(obs, current_time, window, (n - 1) as nat);
        if observation_in_window(obs[n - 1], current_time, window) {
            before.push(((n - 1) as u16, obs[n - 1]))
        } else {
            before
        }
    }
}

/// Where an observation made at `ts` goes in a list sorted newest first: after every
/// observation at least as recent (so equal times keep their order).
pub open spec fn insert_position(sorted: Seq<(u16, Observation)>, ts: u64, i: nat) -> nat
    decreases sorted.len() - i,
{
    if i >= sorted.len() || sorted[i as int].1.block_timestamp < ts {
        i
    } else {
        insert_position(sorted, ts, i + 1)
    }
}

/// A list sorted newest first, equal times kept in their order.
pub open spec fn sort_newest_first(s: Seq<(u16, Observation)>) -> Seq<(u16, Observation)>
    decreases s.len(),
{
    if s.len() == 0 {
        Seq::empty()
    } else {
        let rest = sort_newest_first(s.drop_last());
        rest.insert(insert_position(rest, s.last().1.block_timestamp, 0) as int, s.last())
    }
}

/// The lowest and highest price between consecutive observations, going through the
/// sorted observations from `i` on and comparing each with the one before it in the
/// ring, until one comes whose predecessor is more recent than itself.
pub open spec fn price_scan(
    obs: Seq<Observation>,
    sorted: Seq<(u16, Observation)>,
    i: nat,
    min_price: u128,
    max_price: u128,
) -> Result<(u128, u128), GammaError>
    decreases sorted.len() - i,
{
    if i >= sorted.len() {
        Ok((min_price, max_price))
    } else {
        let (index, next_obs) = sorted[i as int];
        let last = if index == 0 { 99int } else { index - 1 };
        let o = obs[last];
        if o.block_timestamp == 0 {
            price_scan(obs, sorted, i + 1, min_price, max_price)
        } else if o.block_timestamp > next_obs.block_timestamp {
            Ok((min_price, max_price))
        } else {
            let time_delta = saturating_sub(next_obs.block_timestamp, o.block_timestamp);
            if time_delta == 0 {
                price_scan(obs, sorted, i + 1, min_price, max_price)
            } else if next_obs.cumulative_token0_price_x32 < o.cumulative_token0_price_x32 {
                Err(GammaError::MathOverflow)
            } else {
                let price = ((next_obs.cumulative_token0_price_x32 - o.cumulative_token0_price_x32) / (
                time_delta as int)) as u128;
                price_scan(
                    obs,
                    sorted,
                    i + 1,
                    if price < min_price { price } else { min_price },
                    if price > max_price { price } else { max_price },
                )
            }
        }
    }
}

/// The lowest, highest and average price of the observations in the window, or
/// zeros when fewer than two observations span some time.
pub open spec fn spec_get_price_range(obs: Seq<Observation>, current_time: u64, window: u64) -> Result<
    (u128, u128, u128),
    GammaError,
> {
    let sorted = sort_newest_first(window_observations(obs, current_time, window, 100));
    if sorted.len() < 2 {
        Ok((0, 0, 0))
    } else {
        let newest = sorted[0].1;
        let oldest = sorted[sorted.len() - 1].1;
        let total_time_delta = saturating_sub(newest.block_timestamp, oldest.block_timestamp);
        if total_time_delta == 0 {
            Ok((0, 0, 0))
        } else if newest.cumulative_token0_price_x32 < oldest.cumulative_token0_price_x32 {
            Err(GammaError::MathOverflow)
        } else {
            let twap_price = ((newest.cumulative_token0_price_x32 - oldest.cumulative_token0_price_x32) / (
            total_time_delta as int)) as u128;
            match price_scan(obs, sorted, 0, u128::MAX, 0) {
                Ok((min_price, max_price)) => Ok((min_price, max_price, twap_price)),
                Err(e) => Err(e),
            }
        }
    }
}

impl DynamicFee {
    /// The lowest, highest and time-weighted average price over the observations made
    /// within `window` seconds of `current_time`.
    pub fn get_price_range(observation_state: &ObservationState, current_time: u64, window: u64) -> (r: Result<
        (u128, u128, u128),
        GammaError,
    >)
        ensures
            r == spec_get_price_range(observation_state.observations@, current_time, window),
    {
        let ghost obs = observation_state.observations@;
        let mut sorted: Vec<(u16, Observation)> = Vec::new();
        let mut i: usize = 0;
        while i < OBSERVATION_NUM
            invariant
                i <= OBSERVATION_NUM,
                obs == observation_state.observations@,
                obs.len() == 100,
                sorted@ == sort_newest_first(window_observations(obs, current_time, window, i as nat)),
                sorted@.len() <= i,
                forall|j: int| 0 <= j < sorted@.len() ==> sorted@[j].0 < 100,
            decreases OBSERVATION_NUM - i,
        {
            let observation = observation_state.observations[i];
            let elapsed = if current_time >= observation.block_timestamp {
                current_time - observation.block_timestamp
            } else {
                0
            };
            if observation.block_timestamp != 0 && observation.cumulative_token0_price_x32 != 0
                && observation.cumulative_token1_price_x32 != 0 && elapsed <= window {
                let ghost before = window_observations(obs, current_time, window, i as nat);
                let mut pos: usize = 0;
                while pos < sorted.len() && sorted[pos].1.block_timestamp >= observation.block_timestamp
                    invariant
                        pos <= sorted@.len(),
                        insert_position(sorted@, observation.block_timestamp, pos as nat) == insert_position(
                            sorted@,
                            observation.block_timestamp,
                            0,
                        ),
                    decreases sorted@.len() - pos,
                {
                    pos = pos + 1;
                }
                sorted.insert(pos, (i as u16, observation));
                proof {
                    let after = window_observations(obs, current_time, window, (i + 1) as nat);
                    assert(after == before.push((i as u16, observation)));
                    assert(after.drop_last() =~= before);
                }
            }
            i = i + 1;
        }
        let ghost sorted_all = sorted@;
        if sorted.len() < 2 {
            return Ok((0, 0, 0));
        }
        let newest = sorted[0].1;
        let oldest = sorted[sorted.len() - 1].1;
        let total_time_delta = if newest.block_timestamp >= oldest.block_timestamp {
            newest.block_timestamp - oldest.block_timestamp
        } else {
            0
        };
        if total_time_delta == 0 {
            return Ok((0, 0, 0));
        }
        let twap_price = match newest.cumulative_token0_price_x32.checked_sub(oldest.cumulative_token0_price_x32) {
            Some(v) => v / (total_time_delta as u128),
            None => return Err(GammaError::MathOverflow),
        };
        let mut min_price = u128::MAX;
        let mut max_price = 0u128;
        let mut k: usize = 0;
        while k < sorted.len()
            invariant
                k <= sorted@.len(),
                sorted@ == sorted_all,
                obs == observation_state.observations@,
                obs.len() == 100,
                forall|j: int| 0 <= j < sorted_all.len() ==> sorted_all[j].0 < 100,
                price_scan(obs, sorted_all, k as nat, min_price, max_price) == price_scan(obs, sorted_all, 0, u128::MAX, 0),
                spec_get_price_range(obs, current_time, window) == match price_scan(obs, sorted_all, 0, u128::MAX, 0) {
                    Ok((mn, mx)) => Ok((mn, mx, twap_price)),
                    Err(e) => Err(e),
                },
            ensures
                price_scan(obs, sorted_all, 0, u128::MAX, 0) == Ok::<(u128, u128), GammaError>((min_price, max_price)),
            decreases sorted@.len() - k,
        {
            let (index, next_obs) = sorted[k];
            let last_observation_index: usize = if index == 0 { OBSERVATION_NUM - 1 } else { index as usize - 1 };
            let o = observation_state.observations[last_observation_index];
            if o.block_timestamp == 0 {
                k = k + 1;
                continue;
            }
            if o.block_timestamp > next_obs.block_timestamp {
                break;
            }
            let time_delta = if next_obs.block_timestamp >= o.block_timestamp {
                next_obs.block_timestamp - o.block_timestamp
            } else {
                0
            };
            if time_delta == 0 {
                k = k + 1;
                continue;
            }
            let price = match next_obs.cumulative_token0_price_x32.checked_sub(o.cumulative_token0_price_x32) {
                Some(v) => v / (time_delta as u128),
                None => return Err(GammaError::MathOverflow),
            };
            min_price = if price < min_price { price } else { min_price };
            max_price = if price > max_price { price } else { max_price };
            k = k + 1;
        }
        Ok((min_price, max_price, twap_price))
    }
}

} // verus!
