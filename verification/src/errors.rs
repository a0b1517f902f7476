//! Errors of the concentrated-liquidity math: a cause and the trace of the
//! functions it went through.
use vstd::prelude::*;

verus! {

/// What went wrong, one variant per message of the pool math.
#[derive(Clone, Copy, Debug, PartialEq, Eq)]
pub enum ErrorCause {
    Mul,
    Add,
    Sub,
    Div,
    CastToPrice,
    CheckedAdd,
    CheckedSub,
    FromScaleOverflow,
    DivByNumberDiv,
    DivByNumberCast,
    DivByNumberUpSub,
    DivByNumberUpAdd,
    DivByNumberUpCast,
    SubUnderflow,
    AddOverflow,
    MulOverflow,
    DeltaXOverflow,
    DeltaYOverflow,
    InputZeroLiquidity,
    InputZeroPrice,
    OutputZeroLiquidity,
    OutputZeroPrice,
    LiquidityAmountBound,
    LimitReached,
    InvalidPoolLiquidity,
    InvalidTick,
    TickOutOfDomain,
    SubOverflow,
    CrossCountOverflow,
    FeeOverflow,
}

impl ErrorCause {
    /// The message that goes with the cause, as characters.
    pub open spec fn spec_message(self) -> Seq<char> {
        match self {
            ErrorCause::Mul => "multiplication overflow"@,
            ErrorCause::Add => "addition overflow"@,
            ErrorCause::Sub => "subtraction underflow"@,
            ErrorCause::Div => "division overflow or division by zero"@,
            ErrorCause::CastToPrice => "conversion to Price type failed"@,
            ErrorCause::CheckedAdd => "checked_add: (self + rhs) additional overflow"@,
            ErrorCause::CheckedSub => "checked_sub: (self - rhs) subtraction underflow"@,
            ErrorCause::FromScaleOverflow => "checked_from_scale: (multiplier * base) overflow"@,
            ErrorCause::DivByNumberDiv => "checked_big_div_by_number: ((self * Self::one()) / rhs) division overflow"@,
            ErrorCause::DivByNumberCast => "checked_big_div_by_number: can't convert to result"@,
            ErrorCause::DivByNumberUpSub => "checked_big_div_by_number_up: (rhs - 1) subtraction overflow"@,
            ErrorCause::DivByNumberUpAdd => "checked_big_div_by_number_up: ((self * Self::one()) + (rhs - 1)) addition overflow"@,
            ErrorCause::DivByNumberUpCast => "checked_big_div_by_number_up: can't convert to result"@,
            ErrorCause::SubUnderflow => "sub underflow"@,
            ErrorCause::AddOverflow => "add overflow"@,
            ErrorCause::MulOverflow => "mul overflow"@,
            ErrorCause::DeltaXOverflow => "get_delta_x overflow"@,
            ErrorCause::DeltaYOverflow => "get_delta_y overflow"@,
            ErrorCause::InputZeroLiquidity => "getting next price from input with zero liquidity"@,
            ErrorCause::InputZeroPrice => "getting next price from input with zero price"@,
            ErrorCause::OutputZeroLiquidity => "getting next price from output with zero liquidity"@,
            ErrorCause::OutputZeroPrice => "getting next price from output with zero price"@,
            ErrorCause::LiquidityAmountBound => "big_liquidity -/+ price_sqrt * amount"@,
            ErrorCause::LimitReached => "LimitReached"@,
            ErrorCause::InvalidPoolLiquidity => "InvalidPoolLiquidity"@,
            ErrorCause::InvalidTick => "Internal Invariant Error: Invalid tick"@,
            ErrorCause::TickOutOfDomain => "sqrt price outside the tick domain"@,
            ErrorCause::SubOverflow => "sub overflow"@,
            ErrorCause::CrossCountOverflow => "virtual ticks crossed + ticks crossed overflow"@,
            ErrorCause::FeeOverflow => "fee amount overflow"@,
        }
    }

    /// The message that goes with the cause.
    pub fn message(&self) -> (r: &'static str)
        ensures
            r@ == self.spec_message(),
    {
        match self {
            ErrorCause::Mul => "multiplication overflow",
            ErrorCause::Add => "addition overflow",
            ErrorCause::Sub => "subtraction underflow",
            ErrorCause::Div => "division overflow or division by zero",
            ErrorCause::CastToPrice => "conversion to Price type failed",
            ErrorCause::CheckedAdd => "checked_add: (self + rhs) additional overflow",
            ErrorCause::CheckedSub => "checked_sub: (self - rhs) subtraction underflow",
            ErrorCause::FromScaleOverflow => "checked_from_scale: (multiplier * base) overflow",
            ErrorCause::DivByNumberDiv => "checked_big_div_by_number: ((self * Self::one()) / rhs) division overflow",
            ErrorCause::DivByNumberCast => "checked_big_div_by_number: can't convert to result",
            ErrorCause::DivByNumberUpSub => "checked_big_div_by_number_up: (rhs - 1) subtraction overflow",
            ErrorCause::DivByNumberUpAdd => "checked_big_div_by_number_up: ((self * Self::one()) + (rhs - 1)) addition overflow",
            ErrorCause::DivByNumberUpCast => "checked_big_div_by_number_up: can't convert to result",
            ErrorCause::SubUnderflow => "sub underflow",
            ErrorCause::AddOverflow => "add overflow",
            ErrorCause::MulOverflow => "mul overflow",
            ErrorCause::DeltaXOverflow => "get_delta_x overflow",
            ErrorCause::DeltaYOverflow => "get_delta_y overflow",
            ErrorCause::InputZeroLiquidity => "getting next price from input with zero liquidity",
            ErrorCause::InputZeroPrice => "getting next price from input with zero price",
            ErrorCause::OutputZeroLiquidity => "getting next price from output with zero liquidity",
            ErrorCause::OutputZeroPrice => "getting next price from output with zero price",
            ErrorCause::LiquidityAmountBound => "big_liquidity -/+ price_sqrt * amount",
            ErrorCause::LimitReached => "LimitReached",
            ErrorCause::InvalidPoolLiquidity => "InvalidPoolLiquidity",
            ErrorCause::InvalidTick => "Internal Invariant Error: Invalid tick",
            ErrorCause::TickOutOfDomain => "sqrt price outside the tick domain",
            ErrorCause::SubOverflow => "sub overflow",
            ErrorCause::CrossCountOverflow => "virtual ticks crossed + ticks crossed overflow",
            ErrorCause::FeeOverflow => "fee amount overflow",
        }
    }
}

/// An error with the functions that passed it on, innermost first.
#[derive(Clone, Debug)]
pub struct TrackableError {
    pub cause: ErrorCause,
    pub stack: Vec<&'static str>,
}

/// The model of an error: its cause and how many functions it went through.
pub type ErrSpec = (ErrorCause, nat);

impl TrackableError {
    /// Message of a multiplication overflow.
    pub const MUL: &'static str = "multiplication overflow";
    /// Message of an addition overflow.
    pub const ADD: &'static str = "addition overflow";
    /// Message of a subtraction underflow.
    pub const SUB: &'static str = "subtraction underflow";
    /// Message of a failed division.
    pub const DIV: &'static str = "division overflow or division by zero";

    pub open spec fn spec(&self) -> ErrSpec {
        (self.cause, self.stack@.len())
    }

    /// A new error raised in `location`.
    pub fn new(cause: ErrorCause, location: &'static str) -> (r: TrackableError)
        ensures
            r.spec() == (cause, 1nat),
            r.stack@ == seq![location],
    {
        let mut stack = Vec::new();
        stack.push(location);
        TrackableError { cause, stack }
    }

    /// Records that the error passed through `location`.
    pub fn mark(self, location: &'static str) -> (r: TrackableError)
        ensures
            r.spec() == (self.cause, self.stack@.len() + 1),
            r.stack@ == self.stack@.push(location),
    {
        let mut stack = self.stack;
        stack.push(location);
        TrackableError { cause: self.cause, stack }
    }

    /// The formatted error, its cause and its trace.
    pub fn get(&self) -> (r: (String, String, Vec<&'static str>))
        ensures
            r.0@ == self.cause.spec_message(),
            r.1@ == self.cause.spec_message(),
            r.2@ == self.stack@,
    {
        let msg = self.cause.message();
        (msg.to_owned(), msg.to_owned(), self.stack.clone())
    }
}

/// Adds one level of trace to the error of a spec result.
pub open spec fn mark_spec<T>(r: Result<T, ErrSpec>) -> Result<T, ErrSpec> {
    match r {
        Ok(v) => Ok(v),
        Err(e) => Err((e.0, e.1 + 1)),
    }
}

/// Whether an exec result agrees with its model.
pub open spec fn agrees<T>(r: Result<T, TrackableError>, s: Result<T, ErrSpec>) -> bool {
    match r {
        Ok(v) => s == Ok::<T, ErrSpec>(v),
        Err(e) => s == Err::<T, ErrSpec>(e.spec()),
    }
}

} // verus!
