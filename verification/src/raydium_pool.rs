//! Quotes of an order-book AMM pool: the status gate and the simulation of a
//! swap by input or by output, fee included.
use vstd::prelude::*;
use crate::cp_swap::{Pubkey, same_key};
use crate::raydium_math::{
    AmmError, AmmInfo, CalcError, Calculator, CheckedCeilDiv, SwapDirection, spec_checked_ceil_div,
    spec_swap_base_in, spec_swap_base_out, lemma_ceil_div_quotient,
};

verus! {

/// The lifecycle state of a pool.
#[derive(Clone, Copy, Debug, PartialEq, Eq)]
pub enum AmmStatus {
    Uninitialized,
    Initialized,
    Disabled,
    WithdrawOnly,
    /// pool only can add or remove liquidity, can't swap and plan orders
    LiquidityOnly,
    /// pool only can add or remove liquidity and plan orders, can't swap
    OrderBookOnly,
    /// pool only can add or remove liquidity and swap, can't plan orders
    SwapOnly,
    /// pool status after created and will auto update to SwapOnly during swap after open_time
    WaitingTrade,
}

/// The status a number stands for.
pub open spec fn spec_status(status: u64) -> AmmStatus {
    if status == 0 {
        AmmStatus::Uninitialized
    } else if status == 1 {
        AmmStatus::Initialized
    } else if status == 2 {
        AmmStatus::Disabled
    } else if status == 3 {
        AmmStatus::WithdrawOnly
    } else if status == 4 {
        AmmStatus::LiquidityOnly
    } else if status == 5 {
        AmmStatus::OrderBookOnly
    } else if status == 6 {
        AmmStatus::SwapOnly
    } else {
        AmmStatus::WaitingTrade
    }
}

/// Whether a pool in this status can swap.
pub open spec fn spec_swap_permission(s: AmmStatus) -> bool {
    s == AmmStatus::Initialized || s == AmmStatus::SwapOnly || s == AmmStatus::WaitingTrade
}

impl AmmStatus {
    /// The status stored as `status`; it must be one of the eight.
    pub fn from_u64(status: u64) -> (r: AmmStatus)
        requires
            status <= 7,
        ensures
            r == spec_status(status),
    {
        match status {
            0 => AmmStatus::Uninitialized,
            1 => AmmStatus::Initialized,
            2 => AmmStatus::Disabled,
            3 => AmmStatus::WithdrawOnly,
            4 => AmmStatus::LiquidityOnly,
            5 => AmmStatus::OrderBookOnly,
            6 => AmmStatus::SwapOnly,
            _ => AmmStatus::WaitingTrade,
        }
    }

    /// Whether the pool can swap.
    pub fn swap_permission(&self) -> (r: bool)
        ensures
            r == spec_swap_permission(*self),
    {
        match self {
            AmmStatus::Initialized | AmmStatus::SwapOnly | AmmStatus::WaitingTrade => true,
            _ => false,
        }
    }

    /// Whether the pool can place orders on the order book.
    pub fn orderbook_permission(&self) -> (r: bool)
        ensures
            r == (*self == AmmStatus::Initialized || *self == AmmStatus::OrderBookOnly),
    {
        match self {
            AmmStatus::Initialized | AmmStatus::OrderBookOnly => true,
            _ => false,
        }
    }
}

/// The reserves a swap sees: vault amounts without the profit yet to take.
pub open spec fn spec_reserves(amm: AmmInfo, coin_amount: u64, pc_amount: u64) -> Result<(u64, u64), CalcError> {
    if amm.state_data.need_take_pnl_pc > pc_amount || amm.state_data.need_take_pnl_coin > coin_amount {
        Err(CalcError::Sub)
    } else {
        Ok(((pc_amount - amm.state_data.need_take_pnl_pc) as u64, (coin_amount - amm.state_data.need_take_pnl_coin) as u64))
    }
}

/// A swap by input: the fee (`in_amount * numerator / denominator`, rounded up) comes off
/// the input, and the output is capped by the reserve it comes from.
pub open spec fn spec_simulate_swap_base_in(
    amm: AmmInfo,
    coin_amount: u64,
    pc_amount: u64,
    swap_direction: SwapDirection,
    in_amount: u64,
) -> Result<(u64, u64), CalcError> {
    if !spec_swap_permission(spec_status(amm.status)) {
        Err(CalcError::Amm(AmmError::InvalidStatus))
    } else {
        match spec_reserves(amm, coin_amount, pc_amount) {
            Err(e) => Err(e),
            Ok((pc, coin)) => match spec_checked_ceil_div(
                (in_amount * amm.fees.swap_fee_numerator) as nat,
                amm.fees.swap_fee_denominator as nat,
            ) {
                None => Err(CalcError::Div),
                Some((fee, _)) => if fee > in_amount {
                    Err(CalcError::Sub)
                } else {
                    match spec_swap_base_in((in_amount - fee) as nat, pc as nat, coin as nat, swap_direction) {
                        Err(e) => Err(e),
                        Ok(out) => {
                            let available = match swap_direction {
                                SwapDirection::PC2Coin => coin,
                                SwapDirection::Coin2PC => pc,
                            };
                            Ok((if out < available { out as u64 } else { available }, fee as u64))
                        },
                    }
                },
            },
        }
    }
}

/// Whether a swap by output stays in the range where its numbers fit: the input and
/// its fee fit in 64 bits and the fee's division is defined.
pub open spec fn swap_base_out_ok(
    amm: AmmInfo,
    coin_amount: u64,
    pc_amount: u64,
    swap_direction: SwapDirection,
    out_amount: u64,
) -> bool {
    &&& amm.status <= 7
    &&& spec_swap_permission(spec_status(amm.status)) ==> match spec_reserves(amm, coin_amount, pc_amount) {
        Err(_) => true,
        Ok((pc, coin)) => match spec_swap_base_out(out_amount as nat, pc as nat, coin as nat, swap_direction) {
            Err(_) => true,
            Ok(amount_in) => amount_in <= u64::MAX && match spec_checked_ceil_div(
                (amount_in * amm.fees.swap_fee_numerator) as nat,
                amm.fees.swap_fee_denominator as nat,
            ) {
                None => false,
                Some((fee, _)) => fee <= u64::MAX,
            },
        },
    }
}

/// A swap by output: the input it needs and the fee on that input.
pub open spec fn spec_simulate_swap_base_out(
    amm: AmmInfo,
    coin_amount: u64,
    pc_amount: u64,
    swap_direction: SwapDirection,
    out_amount: u64,
) -> Result<(u64, u64), CalcError> {
    if !spec_swap_permission(spec_status(amm.status)) {
        Err(CalcError::Amm(AmmError::InvalidStatus))
    } else {
        match spec_reserves(amm, coin_amount, pc_amount) {
            Err(e) => Err(e),
            Ok((pc, coin)) => match spec_swap_base_out(out_amount as nat, pc as nat, coin as nat, swap_direction) {
                Err(e) => Err(e),
                Ok(amount_in) => {
                    let fee = spec_checked_ceil_div(
                        (amount_in * amm.fees.swap_fee_numerator) as nat,
                        amm.fees.swap_fee_denominator as nat,
                    ).unwrap().0;
                    Ok((amount_in as u64, fee as u64))
                },
            },
        }
    }
}

/// The output and fee of selling `in_amount` to the pool whose vaults hold
/// `amm_coin_vault_amount` and `amm_pc_vault_amount`.
pub fn simulate_swap_base_in(
    amm: &AmmInfo,
    amm_coin_vault_amount: u64,
    amm_pc_vault_amount: u64,
    swap_direction: SwapDirection,
    in_amount: u64,
) -> (r: Result<(u64, u64), CalcError>)
    requires
        amm.status <= 7,
    ensures
        r == spec_simulate_swap_base_in(*amm, amm_coin_vault_amount, amm_pc_vault_amount, swap_direction, in_amount),
{
    if !AmmStatus::from_u64(amm.status).swap_permission() {
        return Err(CalcError::Amm(AmmError::InvalidStatus));
    }
    let (total_pc_without_take_pnl, total_coin_without_take_pnl) =
        Calculator::calc_total_without_take_pnl_no_orderbook(amm_pc_vault_amount, amm_coin_vault_amount, amm)?;
    proof {
        vstd::arithmetic::mul::lemma_mul_upper_bound(
            in_amount as int,
            u64::MAX as int,
            amm.fees.swap_fee_numerator as int,
            u64::MAX as int,
        );
    }
    let fee_base = (in_amount as u128) * (amm.fees.swap_fee_numerator as u128);
    let swap_fee = match fee_base.checked_ceil_div(amm.fees.swap_fee_denominator as u128) {
        Some((q, _)) => q,
        None => return Err(CalcError::Div),
    };
    if swap_fee > in_amount as u128 {
        return Err(CalcError::Sub);
    }
    let swap_in_after_deduct_fee = in_amount as u128 - swap_fee;
    let amount_out = Calculator::swap_token_amount_base_in(
        swap_in_after_deduct_fee,
        total_pc_without_take_pnl as u128,
        total_coin_without_take_pnl as u128,
        swap_direction,
    )?;
    let available_out_token = match swap_direction {
        SwapDirection::PC2Coin => total_coin_without_take_pnl,
        SwapDirection::Coin2PC => total_pc_without_take_pnl,
    };
    let swap_amount_out = if amount_out < available_out_token as u128 {
        amount_out as u64
    } else {
        available_out_token
    };
    Ok((swap_amount_out, swap_fee as u64))
}

/// The input and fee of buying `out_amount` from the pool whose vaults hold
/// `amm_coin_vault_amount` and `amm_pc_vault_amount`.
pub fn simulate_swap_base_out(
    amm: &AmmInfo,
    amm_coin_vault_amount: u64,
    amm_pc_vault_amount: u64,
    swap_direction: SwapDirection,
    out_amount: u64,
) -> (r: Result<(u64, u64), CalcError>)
    requires
        swap_base_out_ok(*amm, amm_coin_vault_amount, amm_pc_vault_amount, swap_direction, out_amount),
    ensures
        r == spec_simulate_swap_base_out(*amm, amm_coin_vault_amount, amm_pc_vault_amount, swap_direction, out_amount),
{
    if !AmmStatus::from_u64(amm.status).swap_permission() {
        return Err(CalcError::Amm(AmmError::InvalidStatus));
    }
    let (total_pc_without_take_pnl, total_coin_without_take_pnl) =
        Calculator::calc_total_without_take_pnl_no_orderbook(amm_pc_vault_amount, amm_coin_vault_amount, amm)?;
    let amount_in = Calculator::swap_token_amount_base_out(
        out_amount as u128,
        total_pc_without_take_pnl as u128,
        total_coin_without_take_pnl as u128,
        swap_direction,
    )?;
    let swap_amount_in = amount_in as u64;
    proof {
        vstd::arithmetic::mul::lemma_mul_upper_bound(
            swap_amount_in as int,
            u64::MAX as int,
            amm.fees.swap_fee_numerator as int,
            u64::MAX as int,
        );
    }
    let fee_base = (swap_amount_in as u128) * (amm.fees.swap_fee_numerator as u128);
    let swap_fee = match fee_base.checked_ceil_div(amm.fees.swap_fee_denominator as u128) {
        Some((q, _)) => q,
        None => 0,
    };
    Ok((swap_amount_in, swap_fee as u64))
}

} // verus!

verus! {

/// The direction of an edge that sells pc for coin, or coin for pc.
pub open spec fn edge_direction(is_pc_to_coin: bool) -> SwapDirection {
    if is_pc_to_coin {
        SwapDirection::PC2Coin
    } else {
        SwapDirection::Coin2PC
    }
}

/// The quote of an edge by input: the simulation in the edge's direction.
pub open spec fn spec_raydium_quote(
    amm: AmmInfo,
    coin_amount: u64,
    pc_amount: u64,
    is_pc_to_coin: bool,
    in_amount: u64,
) -> Result<(u64, u64, u64), CalcError> {
    match spec_simulate_swap_base_in(amm, coin_amount, pc_amount, edge_direction(is_pc_to_coin), in_amount) {
        Ok((out, fee)) => Ok((in_amount, out, fee)),
        Err(e) => Err(e),
    }
}

/// The quote of an edge by output: the simulation in the edge's direction.
pub open spec fn spec_raydium_quote_exact_out(
    amm: AmmInfo,
    coin_amount: u64,
    pc_amount: u64,
    is_pc_to_coin: bool,
    out_amount: u64,
) -> Result<(u64, u64, u64), CalcError> {
    match spec_simulate_swap_base_out(amm, coin_amount, pc_amount, edge_direction(is_pc_to_coin), out_amount) {
        Ok((i, f)) => Ok(((i + f) as u64, out_amount, f)),
        Err(e) => Err(e),
    }
}

/// The reserves `(in, out)` an edge trades against: the vault amounts less the
/// profit yet to take, the pc reserve taking the input when the edge sells pc.
pub open spec fn edge_reserves(amm: AmmInfo, coin_amount: u64, pc_amount: u64, is_pc_to_coin: bool) -> (int, int) {
    let pc = pc_amount - amm.state_data.need_take_pnl_pc;
    let coin = coin_amount - amm.state_data.need_take_pnl_coin;
    if is_pc_to_coin { (pc, coin) } else { (coin, pc) }
}

/// A simulated swap by input charges the fee `ceil(in_amount * numerator /
/// denominator)` on the input, and pays out what the rest buys on the constant
/// product of the reserves (vault amounts less the profit yet to take), the
/// input going to the pc reserve when selling pc for coin and to the coin
/// reserve otherwise, at most the reserve of the token bought.
pub proof fn lemma_simulate_swap_base_in_law(
    amm: AmmInfo,
    coin_amount: u64,
    pc_amount: u64,
    swap_direction: SwapDirection,
    in_amount: u64,
)
    ensures
        spec_simulate_swap_base_in(amm, coin_amount, pc_amount, swap_direction, in_amount) matches Ok((o, f)) ==> {
            let (x, y) = edge_reserves(amm, coin_amount, pc_amount, swap_direction == SwapDirection::PC2Coin);
            let d = amm.fees.swap_fee_denominator as int;
            let a = in_amount * amm.fees.swap_fee_numerator;
            let q = y * (in_amount - f) / (x + in_amount - f);
            &&& f == (a + d - 1) / d
            &&& o == if q < y { q } else { y }
        },
{
    if let Ok((o, f)) = spec_simulate_swap_base_in(amm, coin_amount, pc_amount, swap_direction, in_amount) {
        let a = (in_amount * amm.fees.swap_fee_numerator) as nat;
        let d = amm.fees.swap_fee_denominator as nat;
        assert(a <= u128::MAX) by (nonlinear_arith)
            requires a == in_amount * amm.fees.swap_fee_numerator, in_amount <= u64::MAX,
                amm.fees.swap_fee_numerator <= u64::MAX;
        if d > 0 {
            if a < d {
                vstd::arithmetic::div_mod::lemma_basic_div(a as int, d as int);
            } else {
                lemma_ceil_div_quotient(a, d);
            }
        }
    }
}

/// A quote by input keeps the whole input, charges the fee
/// `ceil(in_amount * numerator / denominator)` on it, and pays out what the
/// rest buys on the constant product of the edge's reserves (the input added to
/// the reserve of the token sold), at most the reserve of the token bought.
pub proof fn lemma_raydium_quote_law(
    amm: AmmInfo,
    coin_amount: u64,
    pc_amount: u64,
    is_pc_to_coin: bool,
    in_amount: u64,
)
    ensures
        spec_raydium_quote(amm, coin_amount, pc_amount, is_pc_to_coin, in_amount) matches Ok((i, o, f)) ==> {
            let (x, y) = edge_reserves(amm, coin_amount, pc_amount, is_pc_to_coin);
            let d = amm.fees.swap_fee_denominator as int;
            let a = in_amount * amm.fees.swap_fee_numerator;
            let q = y * (in_amount - f) / (x + in_amount - f);
            &&& i == in_amount
            &&& 0 <= x && 0 <= y
            &&& f == (a + d - 1) / d
            &&& o == if q < y { q } else { y }
        },
{
    if let Ok((i, o, f)) = spec_raydium_quote(amm, coin_amount, pc_amount, is_pc_to_coin, in_amount) {
        let a = (in_amount * amm.fees.swap_fee_numerator) as nat;
        let d = amm.fees.swap_fee_denominator as nat;
        assert(a <= u128::MAX) by (nonlinear_arith)
            requires a == in_amount * amm.fees.swap_fee_numerator, in_amount <= u64::MAX,
                amm.fees.swap_fee_numerator <= u64::MAX;
        if d > 0 {
            if a < d {
                vstd::arithmetic::div_mod::lemma_basic_div(a as int, d as int);
            } else {
                lemma_ceil_div_quotient(a, d);
            }
        }
    }
}

/// A quote by output pays out exactly the output asked, and takes the input
/// `ceil(reserve_in * out / (reserve_out - out))` that the constant product of
/// the edge's reserves needs for it (the reserve of the token sold being
/// `reserve_in`), plus the fee `ceil(input * numerator / denominator)`.
pub proof fn lemma_raydium_quote_exact_out_law(
    amm: AmmInfo,
    coin_amount: u64,
    pc_amount: u64,
    is_pc_to_coin: bool,
    out_amount: u64,
)
    ensures
        spec_raydium_quote_exact_out(amm, coin_amount, pc_amount, is_pc_to_coin, out_amount) matches Ok((i, o, f)) ==> {
            let (x, y) = edge_reserves(amm, coin_amount, pc_amount, is_pc_to_coin);
            let b = y - out_amount;
            let ain = (x * out_amount + b - 1) / b;
            let d = amm.fees.swap_fee_denominator as int;
            let a = ain * amm.fees.swap_fee_numerator;
            &&& o == out_amount
            &&& 0 <= x && 0 < b
            &&& (d > 0 && d <= a <= u128::MAX && (a + d - 1) / d <= u64::MAX ==> f == (a + d - 1) / d)
            &&& (ain + f <= u64::MAX ==> i == ain + f)
        },
{
    if let Ok((i, o, f)) = spec_raydium_quote_exact_out(amm, coin_amount, pc_amount, is_pc_to_coin, out_amount) {
        let (x, y) = edge_reserves(amm, coin_amount, pc_amount, is_pc_to_coin);
        let xo = (x * out_amount) as nat;
        let b = (y - out_amount) as nat;
        if b > 0 {
            if xo < b {
                vstd::arithmetic::div_mod::lemma_basic_div(xo as int, b as int);
            } else {
                lemma_ceil_div_quotient(xo, b);
            }
        }
        let ain = (xo + b - 1) / (b as int);
        let a = (ain * amm.fees.swap_fee_numerator) as nat;
        let d = amm.fees.swap_fee_denominator as nat;
        if d > 0 && a >= d && a <= u128::MAX {
            lemma_ceil_div_quotient(a, d);
        }
    }
}

/// The quote of an edge by input: `(in_amount, out_amount, fee)`.
pub fn raydium_quote(
    amm: &AmmInfo,
    amm_coin_vault_amount: u64,
    amm_pc_vault_amount: u64,
    is_pc_to_coin: bool,
    in_amount: u64,
) -> (r: Result<(u64, u64, u64), CalcError>)
    requires
        amm.status <= 7,
    ensures
        r == spec_raydium_quote(*amm, amm_coin_vault_amount, amm_pc_vault_amount, is_pc_to_coin, in_amount),
{
    let swap_direction = if is_pc_to_coin {
        SwapDirection::PC2Coin
    } else {
        SwapDirection::Coin2PC
    };
    let (out_amount, fee_amount) = simulate_swap_base_in(
        amm,
        amm_coin_vault_amount,
        amm_pc_vault_amount,
        swap_direction,
        in_amount,
    )?;
    Ok((in_amount, out_amount, fee_amount))
}

/// The quote of an edge by output: `(input with the fee, out_amount, fee)`.
pub fn raydium_quote_exact_out(
    amm: &AmmInfo,
    amm_coin_vault_amount: u64,
    amm_pc_vault_amount: u64,
    is_pc_to_coin: bool,
    out_amount: u64,
) -> (r: Result<(u64, u64, u64), CalcError>)
    requires
        swap_base_out_ok(*amm, amm_coin_vault_amount, amm_pc_vault_amount, edge_direction(is_pc_to_coin), out_amount),
        spec_simulate_swap_base_out(
            *amm,
            amm_coin_vault_amount,
            amm_pc_vault_amount,
            edge_direction(is_pc_to_coin),
            out_amount,
        ) matches Ok((i, f)) ==> i + f <= u64::MAX,
    ensures
        r == spec_raydium_quote_exact_out(*amm, amm_coin_vault_amount, amm_pc_vault_amount, is_pc_to_coin, out_amount),
{
    let swap_direction = if is_pc_to_coin {
        SwapDirection::PC2Coin
    } else {
        SwapDirection::Coin2PC
    };
    let (in_amount, fee_amount) = simulate_swap_base_out(
        amm,
        amm_coin_vault_amount,
        amm_pc_vault_amount,
        swap_direction,
        out_amount,
    )?;
    Ok((in_amount + fee_amount, out_amount, fee_amount))
}

} // verus!

verus! {

/// An edge of a pool: selling pc for coin, or coin for pc.
#[derive(Clone, Copy, Debug, PartialEq, Eq)]
pub struct RaydiumEdgeIdentifier {
    pub amm: Pubkey,
    pub mint_pc: Pubkey,
    pub mint_coin: Pubkey,
    pub is_pc_to_coin: bool,
}

impl RaydiumEdgeIdentifier {
    pub open spec fn spec_input_mint(self) -> Pubkey {
        if self.is_pc_to_coin { self.mint_pc } else { self.mint_coin }
    }

    pub open spec fn spec_output_mint(self) -> Pubkey {
        if self.is_pc_to_coin { self.mint_coin } else { self.mint_pc }
    }

    /// The key the edge is filed under: its pool.
    pub fn key(&self) -> (r: Pubkey)
        ensures
            r == self.amm,
    {
        self.amm
    }

    pub fn input_mint(&self) -> (r: Pubkey)
        ensures
            r == self.spec_input_mint(),
    {
        if self.is_pc_to_coin { self.mint_pc } else { self.mint_coin }
    }

    pub fn output_mint(&self) -> (r: Pubkey)
        ensures
            r == self.spec_output_mint(),
    {
        if self.is_pc_to_coin { self.mint_coin } else { self.mint_pc }
    }

    /// The number of accounts a swap through the edge takes.
    pub fn accounts_needed(&self) -> (r: usize)
        ensures
            r == 6,
    {
        6
    }
}

/// The two edges of a pool go opposite ways: what one takes, the other gives.
pub proof fn lemma_edges_opposite(e: RaydiumEdgeIdentifier)
    ensures
        ({
            let other = RaydiumEdgeIdentifier { is_pc_to_coin: !e.is_pc_to_coin, ..e };
            &&& other.spec_input_mint() == e.spec_output_mint()
            &&& other.spec_output_mint() == e.spec_input_mint()
        }),
{
}

/// Whether a pool is routed: it swaps but keeps no order book, its two mints
/// differ, it is open (a pool waiting to trade opens at its open time), and
/// neither vault is frozen.
pub open spec fn spec_pool_is_routed(
    status: u64,
    pool_open_time: u64,
    coin_mint: Pubkey,
    pc_mint: Pubkey,
    now: u64,
    coin_vault_frozen: bool,
    pc_vault_frozen: bool,
) -> bool {
    &&& spec_swap_permission(spec_status(status))
    &&& !(spec_status(status) == AmmStatus::Initialized || spec_status(status) == AmmStatus::OrderBookOnly)
    &&& coin_mint@ != pc_mint@
    &&& (status != 7 || pool_open_time < now)
    &&& !coin_vault_frozen
    &&& !pc_vault_frozen
}

/// Whether the router keeps a pool; its status must be one of the eight.
pub fn pool_is_routed(
    status: u64,
    pool_open_time: u64,
    coin_mint: &Pubkey,
    pc_mint: &Pubkey,
    now: u64,
    coin_vault_frozen: bool,
    pc_vault_frozen: bool,
) -> (r: bool)
    requires
        status <= 7,
    ensures
        r == spec_pool_is_routed(status, pool_open_time, *coin_mint, *pc_mint, now, coin_vault_frozen, pc_vault_frozen),
{
    let s = AmmStatus::from_u64(status);
    s.swap_permission() && !s.orderbook_permission() && !same_key(coin_mint, pc_mint) && (status != 7
        || pool_open_time < now) && !coin_vault_frozen && !pc_vault_frozen
}

/// The router keeps a pool exactly when it only swaps (status 6), or waits for
/// trading (status 7) past its open time, has two different mints, and neither
/// vault is frozen.
pub proof fn lemma_pool_is_routed_law(
    status: u64,
    pool_open_time: u64,
    coin_mint: Pubkey,
    pc_mint: Pubkey,
    now: u64,
    coin_vault_frozen: bool,
    pc_vault_frozen: bool,
)
    requires
        status <= 7,
    ensures
        spec_pool_is_routed(status, pool_open_time, coin_mint, pc_mint, now, coin_vault_frozen, pc_vault_frozen) <==> (
        (status == 6 || (status == 7 && pool_open_time < now)) && coin_mint@ != pc_mint@ && !coin_vault_frozen
            && !pc_vault_frozen),
{
}

} // verus!
