//! A swap on a concentrated-liquidity pool, simulated step by step: each step
//! moves the price to the next tick (or the price limit), crossing initialized
//! ticks from the given tick accounts and counting uninitialized ones.
use vstd::prelude::*;
use crate::errors::ErrorCause;
use crate::decimals::{Price, TokenAmount};
use crate::invariant_math::{
    Pool, Tick, SwapResult, MAX_TICK, TICK_LIMIT, closer_limit_ok, spec_closer_limit, get_closer_limit,
    spec_checked_swap_step, checked_swap_step,
    spec_is_enough_amount_to_push_price, is_enough_amount_to_push_price,
    crossing_adds_liquidity, cross_tick, get_min_tick, get_max_tick, closer_limit_check, calculate_price_sqrt,
    spec_price_sqrt,
};
use crate::invariant_log::{tick_at_sqrt_price_ok, spec_tick_at_sqrt_price, checked_get_tick_at_sqrt_price};
use crate::int_ops::{trunc_rem, rem_i32};
use crate::tickmap::{Tickmap, TICK_CROSSES_PER_IX, MAX_VIRTUAL_CROSS};

verus! {

/// What a swap is asked to do.
#[derive(Clone, Copy, Debug, Default)]
pub struct InvariantSimulationParams {
    pub x_to_y: bool,
    pub in_amount: u64,
    pub sqrt_price_limit: Price,
    pub by_amount_in: bool,
}

/// What a simulated swap did.
#[derive(Clone, Debug, Default)]
pub struct InvariantSwapResult {
    pub in_amount: u64,
    pub out_amount: u64,
    pub fee_amount: u64,
    pub starting_sqrt_price: Price,
    pub ending_sqrt_price: Price,
    pub used_ticks: Vec<i32>,
    pub virtual_cross_counter: u16,
    pub global_insufficient_liquidity: bool,
    pub ticks_accounts_outdated: bool,
}

impl InvariantSwapResult {
    /// Whether the swap must stop: it crossed as many ticks (initialized and
    /// uninitialized) as one instruction may, or as many initialized ones.
    pub fn break_swap_loop_early(ticks_used: u16, virtual_ticks_crossed: u16) -> (r: Result<bool, String>)
        ensures
            ticks_used + virtual_ticks_crossed <= u16::MAX ==> r == Ok::<bool, String>(
                ticks_used + virtual_ticks_crossed >= TICK_CROSSES_PER_IX + MAX_VIRTUAL_CROSS
                    || TICK_CROSSES_PER_IX <= ticks_used,
            ),
            ticks_used + virtual_ticks_crossed > u16::MAX ==> (r matches Err(e) && e@
                == ErrorCause::CrossCountOverflow.spec_message()),
    {
        match ticks_used.checked_add(virtual_ticks_crossed) {
            Some(total) => Ok(total >= TICK_CROSSES_PER_IX as u16 + MAX_VIRTUAL_CROSS
                || TICK_CROSSES_PER_IX <= ticks_used as usize),
            None => Err(ErrorCause::CrossCountOverflow.message().to_owned()),
        }
    }
}

/// A pool as a swap sees it: its state, the tick accounts in the order the swap
/// crosses them, and its tickmap.
pub struct InvariantEdge {
    pub ticks: Vec<Tick>,
    pub pool: Pool,
    pub tickmap: Tickmap,
}

/// The state of a simulated swap between two steps.
#[derive(Clone, Copy, Debug, PartialEq, Eq)]
pub struct SwapLoopState {
    pub pool: Pool,
    /// How many tick accounts the swap has crossed (they are the used ticks).
    pub next_tick: usize,
    pub remaining: u64,
    pub total_in: u64,
    pub total_out: u64,
    pub total_fee: u64,
    pub virtual_cross_counter: u16,
}

/// The outcome of one step: go on, or stop with the two flags of the result.
#[derive(Clone, Copy, Debug, PartialEq, Eq)]
pub enum LoopStep {
    Continue(SwapLoopState),
    Stop { state: SwapLoopState, insufficient: bool, outdated: bool },
}

/// The amounts of a step added to the state, and the price moved.
pub open spec fn spec_step_amounts(s: SwapLoopState, res: SwapResult) -> Result<SwapLoopState, ErrorCause> {
    let spent = res.amount_in.0 + res.fee_amount.0;
    if spent > u64::MAX {
        Err(ErrorCause::CheckedAdd)
    } else if spent > s.remaining {
        Err(ErrorCause::CheckedSub)
    } else if s.total_in + res.amount_in.0 > u64::MAX {
        Err(ErrorCause::CheckedAdd)
    } else if s.total_in + spent > u64::MAX {
        Err(ErrorCause::CheckedAdd)
    } else if s.total_out + res.amount_out.0 > u64::MAX {
        Err(ErrorCause::CheckedAdd)
    } else if s.total_fee + res.fee_amount.0 > u64::MAX {
        Err(ErrorCause::CheckedAdd)
    } else {
        Ok(SwapLoopState {
            pool: Pool { sqrt_price: res.next_price_sqrt, ..s.pool },
            remaining: (s.remaining - spent) as u64,
            total_in: (s.total_in + spent) as u64,
            total_out: (s.total_out + res.amount_out.0) as u64,
            total_fee: (s.total_fee + res.fee_amount.0) as u64,
            ..s
        })
    }
}

/// Whether the pool's tick has reached the lowest (selling x) or highest tick
/// its spacing allows.
pub open spec fn spec_reached_tick_limit(pool: Pool, x_to_y: bool) -> Result<bool, ErrorCause> {
    let sp = pool.tick_spacing as int;
    if x_to_y {
        let by_space = (-TICK_LIMIT + 1) * sp;
        if by_space < i32::MIN {
            Err(ErrorCause::MulOverflow)
        } else {
            Ok(pool.current_tick_index <= if by_space > -MAX_TICK { by_space } else { -MAX_TICK as int })
        }
    } else {
        let by_space = (TICK_LIMIT - 1) * sp;
        if by_space > i32::MAX {
            Err(ErrorCause::MulOverflow)
        } else {
            Ok(pool.current_tick_index >= if by_space < MAX_TICK { by_space } else { MAX_TICK as int })
        }
    }
}

/// One more uninitialized tick crossed; the swap stops at the crossing limits.
pub open spec fn spec_count_virtual(s: SwapLoopState) -> Result<LoopStep, ErrorCause> {
    let vcc = s.virtual_cross_counter + 1;
    let used = s.next_tick as u16;
    if vcc > u16::MAX {
        Err(ErrorCause::AddOverflow)
    } else if used + vcc > u16::MAX {
        Err(ErrorCause::CrossCountOverflow)
    } else {
        let s2 = SwapLoopState { virtual_cross_counter: vcc as u16, ..s };
        if used + vcc >= TICK_CROSSES_PER_IX + MAX_VIRTUAL_CROSS || TICK_CROSSES_PER_IX <= used {
            Ok(LoopStep::Stop { state: s2, insufficient: true, outdated: false })
        } else {
            Ok(LoopStep::Continue(s2))
        }
    }
}

/// Crossing the initialized tick at `tick_index`: it must be the next tick account.
pub open spec fn spec_cross_initialized(
    ticks: Seq<Tick>,
    x_to_y: bool,
    s: SwapLoopState,
    tick_index: i32,
    enough: bool,
) -> Result<LoopStep, ErrorCause> {
    if s.next_tick >= ticks.len() || ticks[s.next_tick as int].index != tick_index {
        Ok(LoopStep::Stop { state: s, insufficient: false, outdated: true })
    } else {
        let tick = ticks[s.next_tick as int];
        let s2 = SwapLoopState { next_tick: (s.next_tick + 1) as usize, ..s };
        if !x_to_y || enough {
            let adds = crossing_adds_liquidity(s.pool, tick);
            let l = s.pool.liquidity.v;
            let c = tick.liquidity_change.v;
            if (adds && l + c > u128::MAX) || (!adds && c > l) {
                Ok(LoopStep::Stop { state: s2, insufficient: true, outdated: false })
            } else {
                let nl = if adds { (l + c) as u128 } else { (l - c) as u128 };
                Ok(LoopStep::Continue(SwapLoopState {
                    pool: Pool { liquidity: crate::decimals::Liquidity { v: nl }, ..s2.pool },
                    ..s2
                }))
            }
        } else if s.remaining != 0 {
            if s.total_in + s.remaining > u64::MAX {
                Err(ErrorCause::AddOverflow)
            } else {
                Ok(LoopStep::Continue(SwapLoopState { total_in: (s.total_in + s.remaining) as u64, remaining: 0, ..s2 }))
            }
        } else {
            Ok(LoopStep::Continue(s2))
        }
    }
}

/// Crossing an initialized tick. When the next tick account is not the tick,
/// the swap stops with its accounts outdated and its state unchanged. Otherwise
/// the account counts as used, and:
/// - when the swap sells y, or has enough input to push the price past the tick,
///   the pool liquidity moves by the tick's liquidity change: up when the pool's
///   tick is at or above the tick and the change is negative-signed, or below it
///   and positive-signed; down otherwise. A liquidity that would leave the range
///   of a `u128` stops the swap for want of liquidity instead;
/// - when the swap sells x without enough input to push past the tick, the
///   liquidity stays and what remains of the input counts as taken in.
/// Nothing else of the pool changes.
pub proof fn lemma_cross_initialized_law(
    ticks: Seq<Tick>,
    x_to_y: bool,
    s: SwapLoopState,
    tick_index: i32,
    enough: bool,
)
    requires
        ticks.len() <= usize::MAX,
    ensures
        ({
            let r = spec_cross_initialized(ticks, x_to_y, s, tick_index, enough);
            if s.next_tick >= ticks.len() || ticks[s.next_tick as int].index != tick_index {
                r == Ok::<LoopStep, ErrorCause>(LoopStep::Stop { state: s, insufficient: false, outdated: true })
            } else {
                let tick = ticks[s.next_tick as int];
                let l = s.pool.liquidity.v as int;
                let c = tick.liquidity_change.v as int;
                let adds = (s.pool.current_tick_index >= tick.index && !tick.sign) || (s.pool.current_tick_index
                    < tick.index && tick.sign);
                let new_l = if adds { l + c } else { l - c };
                if !x_to_y || enough {
                    if 0 <= new_l <= u128::MAX {
                        r matches Ok(LoopStep::Continue(n)) && n.pool.liquidity.v == new_l && n.next_tick
                            == s.next_tick + 1 && n.pool.sqrt_price == s.pool.sqrt_price
                            && n.pool.current_tick_index == s.pool.current_tick_index && n.pool.fee == s.pool.fee
                            && n.pool.tick_spacing == s.pool.tick_spacing && n.remaining == s.remaining
                            && n.total_in == s.total_in && n.total_out == s.total_out && n.total_fee == s.total_fee
                    } else {
                        r matches Ok(LoopStep::Stop { state, insufficient, outdated }) && insufficient && !outdated
                            && state.pool == s.pool && state.next_tick == s.next_tick + 1
                    }
                } else {
                    s.total_in + s.remaining <= u64::MAX ==> (r matches Ok(LoopStep::Continue(n)) && n.pool == s.pool
                        && n.next_tick == s.next_tick + 1 && n.remaining == 0 && n.total_in == s.total_in
                        + s.remaining && n.total_out == s.total_out)
                }
            }
        }),
{
}

/// The step ended at the tick of the limit: cross it (initialized or not) and move
/// the pool's tick past it.
pub open spec fn spec_cross_limit(
    ticks: Seq<Tick>,
    p: InvariantSimulationParams,
    s: SwapLoopState,
    tick_index: i32,
    initialized: bool,
) -> Result<LoopStep, ErrorCause> {
    match spec_is_enough_amount_to_push_price(
        s.remaining as nat,
        s.pool.sqrt_price.v as nat,
        s.pool.liquidity.v as nat,
        s.pool.fee.v as nat,
        p.by_amount_in,
        p.x_to_y,
    ) {
        Err(e) => Err(e.0),
        Ok(enough) => {
            let crossed = if initialized {
                spec_cross_initialized(ticks, p.x_to_y, s, tick_index, enough)
            } else {
                spec_count_virtual(s)
            };
            match crossed {
                Err(e) => Err(e),
                Ok(LoopStep::Stop { state, insufficient, outdated }) => Ok(
                    LoopStep::Stop { state, insufficient, outdated },
                ),
                Ok(LoopStep::Continue(s2)) => {
                    if p.x_to_y && enough {
                        if tick_index - s.pool.tick_spacing < i32::MIN {
                            Err(ErrorCause::SubOverflow)
                        } else {
                            Ok(LoopStep::Continue(SwapLoopState {
                                pool: Pool { current_tick_index: (tick_index - s.pool.tick_spacing) as i32, ..s2.pool },
                                ..s2
                            }))
                        }
                    } else {
                        Ok(LoopStep::Continue(SwapLoopState {
                            pool: Pool { current_tick_index: tick_index, ..s2.pool },
                            ..s2
                        }))
                    }
                },
            }
        },
    }
}

/// The step ended between ticks: the pool's tick becomes the tick at the new price.
pub open spec fn spec_move_in_range(s: SwapLoopState) -> Result<LoopStep, ErrorCause> {
    let sp = s.pool.tick_spacing as int;
    if trunc_rem(s.pool.current_tick_index as int, sp) != 0 {
        Err(ErrorCause::InvalidTick)
    } else if !tick_at_sqrt_price_ok(s.pool.sqrt_price.v as nat, sp) {
        Err(ErrorCause::TickOutOfDomain)
    } else {
        spec_count_virtual(SwapLoopState {
            pool: Pool {
                current_tick_index: spec_tick_at_sqrt_price(s.pool.sqrt_price.v as nat, sp) as i32,
                ..s.pool
            },
            ..s
        })
    }
}

/// One step of a swap from state `s`.
#[verifier::opaque]
pub open spec fn swap_iteration(
    ticks: Seq<Tick>,
    bitmap: Seq<u8>,
    p: InvariantSimulationParams,
    s: SwapLoopState,
) -> Result<LoopStep, ErrorCause> {
    let pool = s.pool;
    if !closer_limit_ok(pool.current_tick_index as int, pool.tick_spacing as int, p.x_to_y) {
        Err(ErrorCause::TickOutOfDomain)
    } else {
        match spec_closer_limit(
            bitmap,
            p.sqrt_price_limit.v as nat,
            p.x_to_y,
            pool.current_tick_index as int,
            pool.tick_spacing as int,
        ) {
            Err(_) => Ok(LoopStep::Stop { state: s, insufficient: true, outdated: false }),
            Ok((swap_limit, limiting_tick)) => match spec_checked_swap_step(
                pool.sqrt_price.v as nat,
                swap_limit.v as nat,
                pool.liquidity.v as nat,
                s.remaining as nat,
                p.by_amount_in,
                pool.fee.v as nat,
            ) {
                Err(e) => Err(e.0),
                Ok(res) => match spec_step_amounts(s, res) {
                    Err(e) => Err(e),
                    Ok(s1) => {
                        if s1.pool.sqrt_price == p.sqrt_price_limit && s1.remaining != 0 {
                            Ok(LoopStep::Stop { state: s1, insufficient: true, outdated: false })
                        } else {
                            match spec_reached_tick_limit(s1.pool, p.x_to_y) {
                                Err(e) => Err(e),
                                Ok(true) => Ok(LoopStep::Stop { state: s1, insufficient: true, outdated: false }),
                                Ok(false) => {
                                    if res.next_price_sqrt == swap_limit && limiting_tick is Some {
                                        spec_cross_limit(ticks, p, s1, limiting_tick.unwrap().0, limiting_tick.unwrap().1)
                                    } else {
                                        spec_move_in_range(s1)
                                    }
                                },
                            }
                        }
                    },
                },
            },
        }
    }
}

/// The state one step of a swap ends in, when the pool's step toward the closer
/// of the next tick and the price limit succeeds: the pool's price is the price
/// the step reached, the output and the fee add what the step gave and charged,
/// input and remainder still add up, the fee and tick spacing stay, and the
/// liquidity stays unless the next tick account was crossed, in which case it
/// moved by that tick's liquidity change. The pool's tick is the crossed limit's
/// (one spacing lower when selling x past it with enough input), or else the
/// tick at the new price.
pub proof fn lemma_iteration_step_law(
    ticks: Seq<Tick>,
    bitmap: Seq<u8>,
    p: InvariantSimulationParams,
    s: SwapLoopState,
    swap_limit: Price,
    limiting_tick: Option<(i32, bool)>,
    res: SwapResult,
)
    requires
        ticks.len() <= usize::MAX,
        closer_limit_ok(s.pool.current_tick_index as int, s.pool.tick_spacing as int, p.x_to_y),
        spec_closer_limit(
            bitmap,
            p.sqrt_price_limit.v as nat,
            p.x_to_y,
            s.pool.current_tick_index as int,
            s.pool.tick_spacing as int,
        ) == Ok::<(Price, Option<(i32, bool)>), ErrorCause>((swap_limit, limiting_tick)),
        spec_checked_swap_step(
            s.pool.sqrt_price.v as nat,
            swap_limit.v as nat,
            s.pool.liquidity.v as nat,
            s.remaining as nat,
            p.by_amount_in,
            s.pool.fee.v as nat,
        ) == Ok::<SwapResult, crate::errors::ErrSpec>(res),
    ensures
        ({
            let out = swap_iteration(ticks, bitmap, p, s);
            let n = match out {
                Ok(LoopStep::Continue(n)) => n,
                Ok(LoopStep::Stop { state, .. }) => state,
                Err(_) => s,
            };
            out is Ok ==> {
                &&& n.pool.sqrt_price == res.next_price_sqrt
                &&& n.total_out == s.total_out + res.amount_out.0
                &&& n.total_fee == s.total_fee + res.fee_amount.0
                &&& n.total_in + n.remaining == s.total_in + s.remaining
                &&& n.total_in >= s.total_in + res.amount_in.0 + res.fee_amount.0
                &&& n.pool.fee == s.pool.fee && n.pool.tick_spacing == s.pool.tick_spacing
                &&& s.next_tick <= n.next_tick <= s.next_tick + 1
                &&& n.next_tick == s.next_tick ==> n.pool.liquidity == s.pool.liquidity
                &&& n.next_tick == s.next_tick + 1 ==> {
                    let tick = ticks[s.next_tick as int];
                    let l = s.pool.liquidity.v as int;
                    let c = tick.liquidity_change.v as int;
                    let adds = (s.pool.current_tick_index >= tick.index && !tick.sign) || (
                    s.pool.current_tick_index < tick.index && tick.sign);
                    &&& s.next_tick < ticks.len()
                    &&& limiting_tick matches Some((ti, true)) && tick.index == ti
                    &&& n.pool.liquidity == s.pool.liquidity || n.pool.liquidity.v == (if adds { l + c } else { l - c })
                }
                &&& out matches Ok(LoopStep::Continue(_)) ==> (if res.next_price_sqrt == swap_limit
                    && limiting_tick is Some {
                    let ti = limiting_tick.unwrap().0;
                    let enough = spec_is_enough_amount_to_push_price(
                        (s.remaining - res.amount_in.0 - res.fee_amount.0) as nat,
                        res.next_price_sqrt.v as nat,
                        s.pool.liquidity.v as nat,
                        s.pool.fee.v as nat,
                        p.by_amount_in,
                        p.x_to_y,
                    ) == Ok::<bool, crate::errors::ErrSpec>(true);
                    n.pool.current_tick_index == if p.x_to_y && enough { ti - s.pool.tick_spacing } else { ti as int }
                } else {
                    n.pool.current_tick_index == spec_tick_at_sqrt_price(
                        res.next_price_sqrt.v as nat,
                        s.pool.tick_spacing as int,
                    ) as i32
                })
            }
        }),
{
    reveal(swap_iteration);
    if let Ok(s1) = spec_step_amounts(s, res) {
        if res.next_price_sqrt == swap_limit && limiting_tick is Some {
            let (ti, init) = limiting_tick.unwrap();
            if init {
                lemma_cross_initialized_law(ticks, p.x_to_y, s1, ti, true);
                lemma_cross_initialized_law(ticks, p.x_to_y, s1, ti, false);
            }
        }
    }
}

/// What is left of the crossing budget: tick accounts not yet crossed and
/// uninitialized ticks that may still be crossed.
pub open spec fn loop_measure(ticks_len: nat, s: SwapLoopState) -> int {
    (ticks_len - s.next_tick) + (TICK_CROSSES_PER_IX + MAX_VIRTUAL_CROSS - s.virtual_cross_counter)
}

/// Whether a state lies within the crossing budget.
pub open spec fn loop_state_ok(ticks_len: nat, s: SwapLoopState) -> bool {
    s.next_tick <= ticks_len <= usize::MAX && s.virtual_cross_counter < TICK_CROSSES_PER_IX + MAX_VIRTUAL_CROSS
}

/// Every step that goes on spends some of the crossing budget.
pub proof fn lemma_iteration_progress(
    ticks: Seq<Tick>,
    bitmap: Seq<u8>,
    p: InvariantSimulationParams,
    s: SwapLoopState,
)
    requires
        loop_state_ok(ticks.len(), s),
    ensures
        swap_iteration(ticks, bitmap, p, s) matches Ok(LoopStep::Continue(n)) ==> loop_state_ok(ticks.len(), n)
            && loop_measure(ticks.len(), n) < loop_measure(ticks.len(), s) && n.pool.fee == s.pool.fee,
        swap_iteration(ticks, bitmap, p, s) matches Ok(LoopStep::Stop { state, .. }) ==> state.next_tick
            <= ticks.len(),
        swap_iteration(ticks, bitmap, p, s) matches Ok(LoopStep::Stop { insufficient, outdated, .. }) ==> insufficient
            || outdated,
{
    reveal(swap_iteration);
    let pool = s.pool;
    if closer_limit_ok(pool.current_tick_index as int, pool.tick_spacing as int, p.x_to_y) {
        match spec_closer_limit(bitmap, p.sqrt_price_limit.v as nat, p.x_to_y, pool.current_tick_index as int, pool.tick_spacing as int) {
            Err(_) => {},
            Ok((swap_limit, limiting_tick)) => match spec_checked_swap_step(
                pool.sqrt_price.v as nat,
                swap_limit.v as nat,
                pool.liquidity.v as nat,
                s.remaining as nat,
                p.by_amount_in,
                pool.fee.v as nat,
            ) {
                Err(_) => {},
                Ok(res) => match spec_step_amounts(s, res) {
                    Err(_) => {},
                    Ok(s1) => {
                        assert(s1.next_tick == s.next_tick && s1.virtual_cross_counter == s.virtual_cross_counter);
                        lemma_count_virtual_progress(ticks.len(), s1);
                        if res.next_price_sqrt == swap_limit && limiting_tick is Some {
                            let (ti, init) = limiting_tick.unwrap();
                            lemma_cross_limit_progress(ticks, p, s1, ti, init);
                        } else if trunc_rem(s1.pool.current_tick_index as int, s1.pool.tick_spacing as int) == 0
                            && tick_at_sqrt_price_ok(s1.pool.sqrt_price.v as nat, s1.pool.tick_spacing as int) {
                            let s2 = SwapLoopState {
                                pool: Pool {
                                    current_tick_index: spec_tick_at_sqrt_price(s1.pool.sqrt_price.v as nat, s1.pool.tick_spacing as int) as i32,
                                    ..s1.pool
                                },
                                ..s1
                            };
                            lemma_count_virtual_progress(ticks.len(), s2);
                        }
                    },
                },
            },
        }
    }
}

proof fn lemma_count_virtual_progress(len: nat, s: SwapLoopState)
    requires
        loop_state_ok(len, s),
    ensures
        spec_count_virtual(s) matches Ok(LoopStep::Continue(n)) ==> loop_state_ok(len, n)
            && loop_measure(len, n) < loop_measure(len, s) && n.next_tick == s.next_tick && n.pool == s.pool,
        spec_count_virtual(s) matches Ok(LoopStep::Stop { state, .. }) ==> state.next_tick == s.next_tick,
        spec_count_virtual(s) matches Ok(LoopStep::Stop { insufficient, outdated, .. }) ==> insufficient || outdated,
{
}

proof fn lemma_cross_limit_progress(ticks: Seq<Tick>, p: InvariantSimulationParams, s: SwapLoopState, ti: i32, init: bool)
    requires
        loop_state_ok(ticks.len(), s),
    ensures
        spec_cross_limit(ticks, p, s, ti, init) matches Ok(LoopStep::Continue(n)) ==> loop_state_ok(ticks.len(), n)
            && loop_measure(ticks.len(), n) < loop_measure(ticks.len(), s) && n.pool.fee == s.pool.fee,
        spec_cross_limit(ticks, p, s, ti, init) matches Ok(LoopStep::Stop { state, .. }) ==> state.next_tick
            <= ticks.len(),
        spec_cross_limit(ticks, p, s, ti, init) matches Ok(LoopStep::Stop { insufficient, outdated, .. })
            ==> insufficient || outdated,
{
    lemma_count_virtual_progress(ticks.len(), s);
}

/// The whole swap from state `s`: the final state and whether liquidity ran out
/// or the tick accounts did not match the tickmap.
pub open spec fn swap_loop(
    ticks: Seq<Tick>,
    bitmap: Seq<u8>,
    p: InvariantSimulationParams,
    s: SwapLoopState,
) -> Result<(SwapLoopState, bool, bool), ErrorCause>
    decreases loop_measure(ticks.len(), s),
    when loop_state_ok(ticks.len(), s)
    via swap_loop_decreases
{
    proof {
        lemma_iteration_progress(ticks, bitmap, p, s);
    }
    if s.remaining == 0 {
        Ok((s, false, false))
    } else {
        match swap_iteration(ticks, bitmap, p, s) {
            Err(e) => Err(e),
            Ok(LoopStep::Stop { state, insufficient, outdated }) => Ok((state, insufficient, outdated)),
            Ok(LoopStep::Continue(n)) => swap_loop(ticks, bitmap, p, n),
        }
    }
}

/// One step of the whole swap.
proof fn lemma_swap_loop_unfold(ticks: Seq<Tick>, bitmap: Seq<u8>, p: InvariantSimulationParams, s: SwapLoopState)
    requires
        loop_state_ok(ticks.len(), s),
        s.remaining != 0,
    ensures
        swap_loop(ticks, bitmap, p, s) == match swap_iteration(ticks, bitmap, p, s) {
            Err(e) => Err(e),
            Ok(LoopStep::Stop { state, insufficient, outdated }) => Ok((state, insufficient, outdated)),
            Ok(LoopStep::Continue(n)) => swap_loop(ticks, bitmap, p, n),
        },
{
    match swap_iteration(ticks, bitmap, p, s) {
        Err(e) => {
            assert(swap_loop(ticks, bitmap, p, s) == Err::<(SwapLoopState, bool, bool), ErrorCause>(e));
        },
        Ok(LoopStep::Stop { state, insufficient, outdated }) => {
            assert(swap_loop(ticks, bitmap, p, s) == Ok::<(SwapLoopState, bool, bool), ErrorCause>((state, insufficient, outdated)));
        },
        Ok(LoopStep::Continue(n)) => {
            lemma_iteration_progress(ticks, bitmap, p, s);
            assert(loop_state_ok(ticks.len(), n));
            assert(swap_loop(ticks, bitmap, p, s) == swap_loop(ticks, bitmap, p, n));
        },
    }
}

#[via_fn]
proof fn swap_loop_decreases(ticks: Seq<Tick>, bitmap: Seq<u8>, p: InvariantSimulationParams, s: SwapLoopState) {
    lemma_iteration_progress(ticks, bitmap, p, s);
}



/// The amounts of a step added to the state.
fn step_amounts(s: SwapLoopState, res: SwapResult) -> (r: Result<SwapLoopState, ErrorCause>)
    ensures
        r == spec_step_amounts(s, res),
{
    let spent = res.amount_in.checked_add(res.fee_amount)?;
    let remaining = TokenAmount(s.remaining).checked_sub(spent)?;
    let total_in = TokenAmount(s.total_in).checked_add(res.amount_in)?.checked_add(res.fee_amount)?;
    let total_out = TokenAmount(s.total_out).checked_add(res.amount_out)?;
    let total_fee = TokenAmount(s.total_fee).checked_add(res.fee_amount)?;
    let mut pool = s.pool;
    pool.sqrt_price = res.next_price_sqrt;
    Ok(SwapLoopState {
        pool,
        remaining: remaining.0,
        total_in: total_in.0,
        total_out: total_out.0,
        total_fee: total_fee.0,
        ..s
    })
}

/// Whether the pool's tick has reached the tick limit of its spacing.
fn reached_tick_limit(pool: &Pool, x_to_y: bool) -> (r: Result<bool, ErrorCause>)
    ensures
        r == spec_reached_tick_limit(*pool, x_to_y),
{
    if x_to_y {
        match get_min_tick(pool.tick_spacing) {
            Ok(t) => Ok(pool.current_tick_index <= t),
            Err(e) => Err(e.cause),
        }
    } else {
        match get_max_tick(pool.tick_spacing) {
            Ok(t) => Ok(pool.current_tick_index >= t),
            Err(e) => Err(e.cause),
        }
    }
}

/// One more uninitialized tick crossed.
fn count_virtual(s: SwapLoopState) -> (r: Result<LoopStep, ErrorCause>)
    ensures
        r == spec_count_virtual(s),
{
    let vcc = match s.virtual_cross_counter.checked_add(1) {
        Some(v) => v,
        None => return Err(ErrorCause::AddOverflow),
    };
    let s2 = SwapLoopState { virtual_cross_counter: vcc, ..s };
    match InvariantSwapResult::break_swap_loop_early(s.next_tick as u16, vcc) {
        Ok(true) => Ok(LoopStep::Stop { state: s2, insufficient: true, outdated: false }),
        Ok(false) => Ok(LoopStep::Continue(s2)),
        Err(_) => Err(ErrorCause::CrossCountOverflow),
    }
}

/// The step ended between ticks: the pool's tick becomes the tick at the new price.
fn move_in_range(s: SwapLoopState) -> (r: Result<LoopStep, ErrorCause>)
    requires
        s.pool.tick_spacing > 0,
    ensures
        r == spec_move_in_range(s),
{
    if rem_i32(s.pool.current_tick_index, s.pool.tick_spacing as i32) != 0 {
        return Err(ErrorCause::InvalidTick);
    }
    match checked_get_tick_at_sqrt_price(s.pool.sqrt_price, s.pool.tick_spacing) {
        None => Err(ErrorCause::TickOutOfDomain),
        Some(t) => {
            let mut pool = s.pool;
            pool.current_tick_index = t;
            count_virtual(SwapLoopState { pool, ..s })
        },
    }
}

impl InvariantEdge {
    /// Crossing the initialized tick at `tick_index`, the next tick account.
    fn cross_initialized(&self, x_to_y: bool, s: SwapLoopState, tick_index: i32, enough: bool) -> (r: Result<
        LoopStep,
        ErrorCause,
    >)
        ensures
            r == spec_cross_initialized(self.ticks@, x_to_y, s, tick_index, enough),
    {
        if s.next_tick >= self.ticks.len() {
            return Ok(LoopStep::Stop { state: s, insufficient: false, outdated: true });
        }
        let mut tick = self.ticks[s.next_tick];
        if tick.index != tick_index {
            return Ok(LoopStep::Stop { state: s, insufficient: false, outdated: true });
        }
        let s2 = SwapLoopState { next_tick: s.next_tick + 1, ..s };
        if !x_to_y || enough {
            let mut pool = s2.pool;
            match cross_tick(&mut tick, &mut pool) {
                Ok(()) => Ok(LoopStep::Continue(SwapLoopState { pool, ..s2 })),
                Err(_) => Ok(LoopStep::Stop { state: s2, insufficient: true, outdated: false }),
            }
        } else if s.remaining != 0 {
            match s.total_in.checked_add(s.remaining) {
                Some(t) => Ok(LoopStep::Continue(SwapLoopState { total_in: t, remaining: 0, ..s2 })),
                None => Err(ErrorCause::AddOverflow),
            }
        } else {
            Ok(LoopStep::Continue(s2))
        }
    }

    /// The step ended at the tick of the limit: cross it and move the pool's tick.
    fn cross_limit(&self, p: &InvariantSimulationParams, s: SwapLoopState, tick_index: i32, initialized: bool) -> (r:
        Result<LoopStep, ErrorCause>)
        ensures
            r == spec_cross_limit(self.ticks@, *p, s, tick_index, initialized),
    {
        let enough = match is_enough_amount_to_push_price(
            TokenAmount(s.remaining),
            s.pool.sqrt_price,
            s.pool.liquidity,
            s.pool.fee,
            p.by_amount_in,
            p.x_to_y,
        ) {
            Ok(b) => b,
            Err(e) => return Err(e.cause),
        };
        let crossed = if initialized {
            self.cross_initialized(p.x_to_y, s, tick_index, enough)
        } else {
            count_virtual(s)
        };
        match crossed {
            Err(e) => Err(e),
            Ok(LoopStep::Stop { state, insufficient, outdated }) => Ok(LoopStep::Stop { state, insufficient, outdated }),
            Ok(LoopStep::Continue(s2)) => {
                let mut pool = s2.pool;
                if p.x_to_y && enough {
                    match tick_index.checked_sub(s.pool.tick_spacing as i32) {
                        Some(t) => pool.current_tick_index = t,
                        None => return Err(ErrorCause::SubOverflow),
                    }
                } else {
                    pool.current_tick_index = tick_index;
                }
                Ok(LoopStep::Continue(SwapLoopState { pool, ..s2 }))
            },
        }
    }

    /// One step of the swap from state `s`.
    fn swap_step(&self, p: &InvariantSimulationParams, s: SwapLoopState) -> (r: Result<LoopStep, ErrorCause>)
        requires
        ensures
            r == swap_iteration(self.ticks@, self.tickmap.bitmap@, *p, s),
    {
        proof {
            reveal(swap_iteration);
        }
        let pool = s.pool;
        if !closer_limit_check(pool.current_tick_index, pool.tick_spacing, p.x_to_y) {
            return Err(ErrorCause::TickOutOfDomain);
        }
        let (swap_limit, limiting_tick) = match get_closer_limit(
            p.sqrt_price_limit,
            p.x_to_y,
            pool.current_tick_index,
            pool.tick_spacing,
            &self.tickmap,
        ) {
            Ok(v) => v,
            Err(_) => return Ok(LoopStep::Stop { state: s, insufficient: true, outdated: false }),
        };
        let res = match checked_swap_step(
            pool.sqrt_price,
            swap_limit,
            pool.liquidity,
            TokenAmount(s.remaining),
            p.by_amount_in,
            pool.fee,
        ) {
            Ok(r) => r,
            Err(e) => return Err(e.cause),
        };
        let s1 = step_amounts(s, res)?;
        if s1.pool.sqrt_price.v == p.sqrt_price_limit.v && s1.remaining != 0 {
            return Ok(LoopStep::Stop { state: s1, insufficient: true, outdated: false });
        }
        if reached_tick_limit(&s1.pool, p.x_to_y)? {
            return Ok(LoopStep::Stop { state: s1, insufficient: true, outdated: false });
        }
        match limiting_tick {
            Some((tick_index, initialized)) => {
                if res.next_price_sqrt.v == swap_limit.v {
                    self.cross_limit(p, s1, tick_index, initialized)
                } else {
                    move_in_range(s1)
                }
            },
            None => move_in_range(s1),
        }
    }
}

/// The amounts of a state account for the input: what went in plus what remains
/// is the input, and the fee is part of what went in.
pub open spec fn amounts_ok(s: SwapLoopState, in_amount: nat) -> bool {
    s.total_in + s.remaining == in_amount && s.total_fee <= s.total_in
}

/// Every step keeps the amounts accounted for.
pub proof fn lemma_iteration_amounts(
    ticks: Seq<Tick>,
    bitmap: Seq<u8>,
    p: InvariantSimulationParams,
    s: SwapLoopState,
    a: nat,
)
    requires
        amounts_ok(s, a),
    ensures
        swap_iteration(ticks, bitmap, p, s) matches Ok(LoopStep::Continue(n)) ==> amounts_ok(n, a),
        swap_iteration(ticks, bitmap, p, s) matches Ok(LoopStep::Stop { state, .. }) ==> amounts_ok(state, a),
{
    reveal(swap_iteration);
}

/// What the whole swap keeps: the amounts are accounted for, the crossed tick
/// accounts are a prefix of the given ones, and a swap that ran out of neither
/// liquidity nor tick accounts used all of its input.
pub proof fn lemma_swap_loop(ticks: Seq<Tick>, bitmap: Seq<u8>, p: InvariantSimulationParams, s: SwapLoopState, a: nat)
    requires
        loop_state_ok(ticks.len(), s),
        amounts_ok(s, a),
    ensures
        swap_loop(ticks, bitmap, p, s) matches Ok((f, insufficient, outdated)) ==> amounts_ok(f, a)
            && f.next_tick <= ticks.len() && (!insufficient && !outdated ==> f.remaining == 0),
    decreases loop_measure(ticks.len(), s),
{
    if s.remaining != 0 {
        lemma_iteration_progress(ticks, bitmap, p, s);
        lemma_iteration_amounts(ticks, bitmap, p, s, a);
        match swap_iteration(ticks, bitmap, p, s) {
            Ok(LoopStep::Continue(n)) => lemma_swap_loop(ticks, bitmap, p, n, a),
            _ => {},
        }
    }
}

/// The state a swap starts from.
pub open spec fn initial_state(pool: Pool, in_amount: u64) -> SwapLoopState {
    SwapLoopState {
        pool,
        next_tick: 0,
        remaining: in_amount,
        total_in: 0,
        total_out: 0,
        total_fee: 0,
        virtual_cross_counter: 0,
    }
}

/// The indexes of the first `n` tick accounts.
pub open spec fn tick_indexes(ticks: Seq<Tick>, n: nat) -> Seq<i32> {
    Seq::new(n, |i: int| ticks[i].index)
}

/// Whether `r` is the result of a swap that ended in state `f` with the two flags.
pub open spec fn swap_result_is(
    r: InvariantSwapResult,
    ticks: Seq<Tick>,
    starting: Price,
    f: SwapLoopState,
    insufficient: bool,
    outdated: bool,
) -> bool {
    &&& r.in_amount == f.total_in
    &&& r.out_amount == f.total_out
    &&& r.fee_amount == f.total_fee
    &&& r.starting_sqrt_price == starting
    &&& r.ending_sqrt_price == f.pool.sqrt_price
    &&& r.used_ticks@ == tick_indexes(ticks, f.next_tick as nat)
    &&& r.virtual_cross_counter == f.virtual_cross_counter
    &&& r.global_insufficient_liquidity == insufficient
    &&& r.ticks_accounts_outdated == outdated
}

impl InvariantEdge {
    /// Simulates a swap of `in_amount` on the pool, step by step, until the input
    /// is used, the price limit is reached, liquidity runs out, the tick accounts
    /// do not match the tickmap, or the swap crossed as many ticks as one
    /// instruction may. A price or tick that leaves the domain where the pool
    /// math is defined ends the simulation with an error.
    pub fn simulate_invariant_swap(&self, invariant_simulation_params: &InvariantSimulationParams) -> (r: Result<
        InvariantSwapResult,
        String,
    >)
        ensures
            ({
                let sim = swap_loop(
                    self.ticks@,
                    self.tickmap.bitmap@,
                    *invariant_simulation_params,
                    initial_state(self.pool, invariant_simulation_params.in_amount),
                );
                match r {
                    Ok(res) => sim matches Ok((f, insufficient, outdated)) && swap_result_is(
                        res,
                        self.ticks@,
                        self.pool.sqrt_price,
                        f,
                        insufficient,
                        outdated,
                    ),
                    Err(msg) => sim matches Err(c) && msg@ == c.spec_message(),
                }
            }),
            r matches Ok(res) ==> res.fee_amount <= res.in_amount <= invariant_simulation_params.in_amount,
            r matches Ok(res) ==> (!res.global_insufficient_liquidity && !res.ticks_accounts_outdated ==> res.in_amount
                == invariant_simulation_params.in_amount),
            r matches Ok(res) ==> res.used_ticks@.len() <= self.ticks@.len() && forall|i: int|
                0 <= i < res.used_ticks@.len() ==> res.used_ticks@[i] == self.ticks@[i].index,
            invariant_simulation_params.in_amount == 0 ==> (r matches Ok(res) && res.in_amount == 0 && res.out_amount == 0
                && res.fee_amount == 0 && res.ending_sqrt_price == self.pool.sqrt_price && res.used_ticks@.len() == 0
                && !res.global_insufficient_liquidity && !res.ticks_accounts_outdated),
    {
        let params = invariant_simulation_params;
        let ghost ticks = self.ticks@;
        let ghost bitmap = self.tickmap.bitmap@;
        let init = SwapLoopState {
            pool: self.pool,
            next_tick: 0,
            remaining: params.in_amount,
            total_in: 0,
            total_out: 0,
            total_fee: 0,
            virtual_cross_counter: 0,
        };
        let ticks_len = self.ticks.len();
        proof {
            lemma_swap_loop(ticks, bitmap, *params, init, params.in_amount as nat);
        }
        let mut s = init;
        let mut outcome: Option<(SwapLoopState, bool, bool)> = None;
        while outcome.is_none()
            invariant
                ticks == self.ticks@,
                ticks.len() == ticks_len,
                bitmap == self.tickmap.bitmap@,
                params == invariant_simulation_params,
                init == initial_state(self.pool, params.in_amount),
                outcome is None ==> loop_state_ok(ticks.len(), s) && s.pool.fee == self.pool.fee
                    && swap_loop(ticks, bitmap, *params, s) == swap_loop(ticks, bitmap, *params, init),
                outcome matches Some(o) ==> swap_loop(ticks, bitmap, *params, init) == Ok::<
                    (SwapLoopState, bool, bool),
                    ErrorCause,
                >(o),
            decreases (if outcome is None { loop_measure(ticks.len(), s) + 1 } else { 0 }),
        {
            if s.remaining == 0 {
                outcome = Some((s, false, false));
            } else {
                proof {
                    lemma_iteration_progress(ticks, bitmap, *params, s);
                    lemma_swap_loop_unfold(ticks, bitmap, *params, s);
                }
                match self.swap_step(params, s) {
                    Err(e) => {
                        return Err(e.message().to_owned());
                    },
                    Ok(LoopStep::Stop { state, insufficient, outdated }) => {
                        outcome = Some((state, insufficient, outdated));
                    },
                    Ok(LoopStep::Continue(n)) => {
                        s = n;
                    },
                }
            }
        }
        let (fin, insufficient, outdated) = match outcome {
            Some(o) => o,
            None => (s, false, false),
        };
        let mut used_ticks: Vec<i32> = Vec::new();
        let mut i: usize = 0;
        while i < fin.next_tick
            invariant
                fin.next_tick <= self.ticks@.len(),
                i <= fin.next_tick,
                used_ticks@ == tick_indexes(self.ticks@, i as nat),
            decreases fin.next_tick - i,
        {
            used_ticks.push(self.ticks[i].index);
            i = i + 1;
            proof {
                assert(used_ticks@ =~= tick_indexes(self.ticks@, i as nat));
            }
        }
        Ok(InvariantSwapResult {
            in_amount: fin.total_in,
            out_amount: fin.total_out,
            fee_amount: fin.total_fee,
            starting_sqrt_price: self.pool.sqrt_price,
            ending_sqrt_price: fin.pool.sqrt_price,
            used_ticks,
            virtual_cross_counter: fin.virtual_cross_counter,
            global_insufficient_liquidity: insufficient,
            ticks_accounts_outdated: outdated,
        })
    }
}

/// The tick a swap may reach at most: the lowest tick of the spacing when selling x,
/// the highest when selling y.
pub open spec fn spec_tick_limit(tick_spacing: int, x_to_y: bool) -> int {
    if x_to_y {
        let by_space = (-TICK_LIMIT + 1) * tick_spacing;
        if by_space > -MAX_TICK { by_space } else { -MAX_TICK as int }
    } else {
        let by_space = (TICK_LIMIT - 1) * tick_spacing;
        if by_space < MAX_TICK { by_space } else { MAX_TICK as int }
    }
}

/// What a quote simulates: the whole input, by input, up to the price at the tick limit.
pub open spec fn quote_params(tick_spacing: int, x_to_y: bool, in_amount: u64) -> InvariantSimulationParams {
    InvariantSimulationParams {
        x_to_y,
        in_amount,
        sqrt_price_limit: Price { v: spec_price_sqrt(spec_tick_limit(tick_spacing, x_to_y)) as u128 },
        by_amount_in: true,
    }
}

impl InvariantEdge {
    /// A quote for `in_amount`: the amounts in, out and of fees of a simulated swap
    /// of the whole amount, limited by the price at the tick limit of the pool.
    pub fn quote(&self, x_to_y: bool, in_amount: u64) -> (r: Result<(u64, u64, u64), String>)
        requires
            x_to_y ==> (-TICK_LIMIT + 1) * self.pool.tick_spacing >= i32::MIN,
            !x_to_y ==> (TICK_LIMIT - 1) * self.pool.tick_spacing <= i32::MAX,
        ensures
            ({
                let sim = swap_loop(
                    self.ticks@,
                    self.tickmap.bitmap@,
                    quote_params(self.pool.tick_spacing as int, x_to_y, in_amount),
                    initial_state(self.pool, in_amount),
                );
                match r {
                    Ok((i, o, f)) => sim matches Ok((s, _, _)) && i == s.total_in && o == s.total_out && f == s.total_fee,
                    Err(msg) => sim matches Err(c) && msg@ == c.spec_message(),
                }
            }),
    {
        let limit_tick = if x_to_y {
            match get_min_tick(self.pool.tick_spacing) {
                Ok(t) => t,
                Err(_) => 0,
            }
        } else {
            match get_max_tick(self.pool.tick_spacing) {
                Ok(t) => t,
                Err(_) => 0,
            }
        };
        proof {
            assert((TICK_LIMIT - 1) * self.pool.tick_spacing >= 0) by (nonlinear_arith);
            assert((-TICK_LIMIT + 1) * self.pool.tick_spacing <= 0) by (nonlinear_arith);
        }
        let sqrt_price_limit = calculate_price_sqrt(limit_tick);
        let params = InvariantSimulationParams { x_to_y, in_amount, sqrt_price_limit, by_amount_in: true };
        let simulation = self.simulate_invariant_swap(&params)?;
        Ok((simulation.in_amount, simulation.out_amount, simulation.fee_amount))
    }

    /// A quote for an output of `out_amount`: the pool is quoted as if
    /// `out_amount` were the input, exactly as `quote` does.
    pub fn quote_exact_out(&self, x_to_y: bool, out_amount: u64) -> (r: Result<(u64, u64, u64), String>)
        requires
            x_to_y ==> (-TICK_LIMIT + 1) * self.pool.tick_spacing >= i32::MIN,
            !x_to_y ==> (TICK_LIMIT - 1) * self.pool.tick_spacing <= i32::MAX,
        ensures
            ({
                let sim = swap_loop(
                    self.ticks@,
                    self.tickmap.bitmap@,
                    quote_params(self.pool.tick_spacing as int, x_to_y, out_amount),
                    initial_state(self.pool, out_amount),
                );
                match r {
                    Ok((i, o, f)) => sim matches Ok((s, _, _)) && i == s.total_in && o == s.total_out && f == s.total_fee,
                    Err(msg) => sim matches Err(c) && msg@ == c.spec_message(),
                }
            }),
    {
        self.quote(x_to_y, out_amount)
    }
}

} // verus!
