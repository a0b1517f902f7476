//! Edges of the Gobbler pools (a constant-product fork with creator and LP fee
//! rates): which mint goes in and out of an edge, and the steps of a quote
//! around the curve. The curve and the transfer fees are computed by the caller
//! between the steps.
use vstd::prelude::*;
use crate::cp_swap::{CpPoolState, Pubkey, same_key, swap_enabled, swap_status_enabled};

verus! {

/// What an edge does with the pool.
#[derive(Clone, Copy, Debug, PartialEq, Eq)]
pub enum Operation {
    Swap,
    Deposit,
    Withdraw,
}

/// Which way value flows through an edge.
#[derive(Clone, Copy, Debug, PartialEq, Eq)]
pub enum Direction {
    AtoB,
    BtoA,
    AandBtoLP,
    LPtoAandB,
}

/// An edge of a Gobbler pool.
#[derive(Clone, Copy, Debug, PartialEq, Eq)]
pub struct GobblerEdgeIdentifier {
    pub pool: Pubkey,
    pub mint_a: Pubkey,
    pub mint_b: Pubkey,
    pub lp_mint: Pubkey,
    pub operation: Operation,
    pub direction: Direction,
}

/// The name of an operation.
pub open spec fn operation_name(op: Operation) -> Seq<char> {
    match op {
        Operation::Swap => "Swap"@,
        Operation::Deposit => "Deposit"@,
        Operation::Withdraw => "Withdraw"@,
    }
}

/// The name of a direction.
pub open spec fn direction_name(d: Direction) -> Seq<char> {
    match d {
        Direction::AtoB => "AtoB"@,
        Direction::BtoA => "BtoA"@,
        Direction::AandBtoLP => "AandBtoLP"@,
        Direction::LPtoAandB => "LPtoAandB"@,
    }
}

impl GobblerEdgeIdentifier {
    /// The mint that goes into the edge: a swap from B takes `mint_b`, any
    /// other swap and a deposit take `mint_a`, a withdrawal takes the LP mint.
    pub open spec fn spec_input_mint(self) -> Pubkey {
        match self.operation {
            Operation::Swap => match self.direction {
                Direction::BtoA => self.mint_b,
                _ => self.mint_a,
            },
            Operation::Deposit => self.mint_a,
            Operation::Withdraw => self.lp_mint,
        }
    }

    /// The mint that comes out of the edge: a swap from B gives `mint_a`, any
    /// other swap gives `mint_b`, a deposit gives the LP mint, a withdrawal `mint_a`.
    pub open spec fn spec_output_mint(self) -> Pubkey {
        match self.operation {
            Operation::Swap => match self.direction {
                Direction::BtoA => self.mint_a,
                _ => self.mint_b,
            },
            Operation::Deposit => self.lp_mint,
            Operation::Withdraw => self.mint_a,
        }
    }

    /// The key the edge is filed under: its pool.
    pub fn key(&self) -> (r: Pubkey)
        ensures
            r == self.pool,
    {
        self.pool
    }

    pub fn input_mint(&self) -> (r: Pubkey)
        ensures
            r == self.spec_input_mint(),
    {
        match self.operation {
            Operation::Swap => match self.direction {
                Direction::AtoB => self.mint_a,
                Direction::BtoA => self.mint_b,
                _ => self.mint_a,
            },
            Operation::Deposit => self.mint_a,
            Operation::Withdraw => self.lp_mint,
        }
    }

    pub fn output_mint(&self) -> (r: Pubkey)
        ensures
            r == self.spec_output_mint(),
    {
        match self.operation {
            Operation::Swap => match self.direction {
                Direction::AtoB => self.mint_b,
                Direction::BtoA => self.mint_a,
                _ => self.mint_b,
            },
            Operation::Deposit => self.lp_mint,
            Operation::Withdraw => self.mint_a,
        }
    }

    /// The quote of the edge, by input or by output: every operation quotes
    /// `(0, 0, 0)` with its fee in `mint_a`.
    pub fn quote(&self, amount: u64) -> (r: (u64, u64, u64, Pubkey))
        ensures
            r == (0u64, 0u64, 0u64, self.mint_a),
    {
        (0, 0, 0, self.mint_a)
    }

    /// The number of accounts a swap through the edge takes.
    pub fn accounts_needed(&self) -> (r: usize)
        ensures
            r == 11,
    {
        11
    }

    pub fn operation_string(&self) -> (r: &'static str)
        ensures
            r@ == operation_name(self.operation),
    {
        match self.operation {
            Operation::Swap => "Swap",
            Operation::Deposit => "Deposit",
            Operation::Withdraw => "Withdraw",
        }
    }

    pub fn direction_string(&self) -> (r: &'static str)
        ensures
            r@ == direction_name(self.direction),
    {
        match self.direction {
            Direction::AtoB => "AtoB",
            Direction::BtoA => "BtoA",
            Direction::AandBtoLP => "AandBtoLP",
            Direction::LPtoAandB => "LPtoAandB",
        }
    }
}

/// The keys of a pool that its edges and its quotes read.
#[derive(Clone, Copy, Debug, PartialEq, Eq)]
pub struct GobblerPoolKeys {
    pub pool: Pubkey,
    pub amm_config: Pubkey,
    pub token_0_vault: Pubkey,
    pub token_1_vault: Pubkey,
    pub lp_mint: Pubkey,
    pub token_0_mint: Pubkey,
    pub token_1_mint: Pubkey,
}

/// The edge of a pool with the given mints, operation and direction.
pub open spec fn edge_of(keys: GobblerPoolKeys, mint_a: Pubkey, mint_b: Pubkey, op: Operation, d: Direction) -> GobblerEdgeIdentifier {
    GobblerEdgeIdentifier { pool: keys.pool, mint_a, mint_b, lp_mint: keys.lp_mint, operation: op, direction: d }
}

/// The four edges of a pool: the swap from A to B, the swap from B to A (with
/// the mints given the other way round), the deposit and the withdrawal.
pub open spec fn spec_pool_edges(keys: GobblerPoolKeys) -> Seq<GobblerEdgeIdentifier> {
    seq![
        edge_of(keys, keys.token_0_mint, keys.token_1_mint, Operation::Swap, Direction::AtoB),
        edge_of(keys, keys.token_1_mint, keys.token_0_mint, Operation::Swap, Direction::BtoA),
        edge_of(keys, keys.token_0_mint, keys.token_1_mint, Operation::Deposit, Direction::AandBtoLP),
        edge_of(keys, keys.token_0_mint, keys.token_1_mint, Operation::Withdraw, Direction::LPtoAandB),
    ]
}

/// The edges of a pool, in the order they are listed.
pub fn pool_edges(keys: &GobblerPoolKeys) -> (r: Vec<GobblerEdgeIdentifier>)
    ensures
        r@ == spec_pool_edges(*keys),
{
    let mut v: Vec<GobblerEdgeIdentifier> = Vec::new();
    v.push(GobblerEdgeIdentifier { pool: keys.pool, mint_a: keys.token_0_mint, mint_b: keys.token_1_mint, lp_mint: keys.lp_mint, operation: Operation::Swap, direction: Direction::AtoB });
    v.push(GobblerEdgeIdentifier { pool: keys.pool, mint_a: keys.token_1_mint, mint_b: keys.token_0_mint, lp_mint: keys.lp_mint, operation: Operation::Swap, direction: Direction::BtoA });
    v.push(GobblerEdgeIdentifier { pool: keys.pool, mint_a: keys.token_0_mint, mint_b: keys.token_1_mint, lp_mint: keys.lp_mint, operation: Operation::Deposit, direction: Direction::AandBtoLP });
    v.push(GobblerEdgeIdentifier { pool: keys.pool, mint_a: keys.token_0_mint, mint_b: keys.token_1_mint, lp_mint: keys.lp_mint, operation: Operation::Withdraw, direction: Direction::LPtoAandB });
    proof {
        assert(v@ =~= spec_pool_edges(*keys));
    }
    v
}

/// The accounts a pool needs watched: the pool, its config, its two vaults,
/// its LP mint and its two token mints.
pub fn pool_needed_accounts(keys: &GobblerPoolKeys) -> (r: Vec<Pubkey>)
    ensures
        r@ == seq![keys.pool, keys.amm_config, keys.token_0_vault, keys.token_1_vault, keys.lp_mint, keys.token_0_mint, keys.token_1_mint],
{
    let mut v: Vec<Pubkey> = Vec::new();
    v.push(keys.pool);
    v.push(keys.amm_config);
    v.push(keys.token_0_vault);
    v.push(keys.token_1_vault);
    v.push(keys.lp_mint);
    v.push(keys.token_0_mint);
    v.push(keys.token_1_mint);
    proof {
        assert(v@ =~= seq![keys.pool, keys.amm_config, keys.token_0_vault, keys.token_1_vault, keys.lp_mint, keys.token_0_mint, keys.token_1_mint]);
    }
    v
}

/// Whether a pool is routed: both its tokens belong to the token program and
/// neither vault is frozen.
pub fn pool_is_routed(
    token_0_program: &Pubkey,
    token_1_program: &Pubkey,
    token_program: &Pubkey,
    vault_0_frozen: bool,
    vault_1_frozen: bool,
) -> (r: bool)
    ensures
        r == (token_0_program@ == token_program@ && token_1_program@ == token_program@ && !vault_0_frozen
            && !vault_1_frozen),
{
    same_key(token_0_program, token_program) && same_key(token_1_program, token_program) && !vault_0_frozen
        && !vault_1_frozen
}

/// The fee rates of a Gobbler pool, per token.
#[derive(Clone, Copy, Debug, PartialEq, Eq, Default)]
pub struct GobblerAmmConfig {
    pub token_0_creator_rate: u64,
    pub token_1_creator_rate: u64,
    pub token_0_lp_rate: u64,
    pub token_1_lp_rate: u64,
}

/// Errors of a quote on a Gobbler pool. `Panicked` stands for a quote that
/// stopped on an overflow.
#[derive(Clone, Copy, Debug, PartialEq, Eq)]
pub enum GobblerError {
    NotTrading,
    AmountTooLow,
    InvalidVaultConfiguration,
    InvalidSubVault0,
    InvalidSubVault1,
    SwapCalculationFailed,
    OutputAmountZero,
    OutputAmountOverflow,
    InsufficientLiquidity,
    OutOfRange,
    FeeConversion,
    Panicked,
}

impl GobblerError {
    /// The message that goes with the error, as characters.
    pub open spec fn spec_message(self) -> Seq<char> {
        match self {
            GobblerError::NotTrading => "Pool is not trading"@,
            GobblerError::AmountTooLow => "Amount too low after transfer fee"@,
            GobblerError::InvalidVaultConfiguration => "Invalid vault configuration"@,
            GobblerError::InvalidSubVault0 => "Invalid subtraction for vault_0"@,
            GobblerError::InvalidSubVault1 => "Invalid subtraction for vault_1"@,
            GobblerError::SwapCalculationFailed => "Swap calculation failed"@,
            GobblerError::OutputAmountZero => "Output amount must be greater than zero"@,
            GobblerError::OutputAmountOverflow => "Output amount overflow"@,
            GobblerError::InsufficientLiquidity => "Insufficient liquidity"@,
            GobblerError::OutOfRange => "out of range integral type conversion attempted"@,
            GobblerError::FeeConversion => "Failed to convert fees: out of range integral type conversion attempted"@,
            GobblerError::Panicked => "Panic occurred during swap calculation"@,
        }
    }

    /// The message that goes with the error.
    pub fn message(&self) -> (r: &'static str)
        ensures
            r@ == self.spec_message(),
    {
        match self {
            GobblerError::NotTrading => "Pool is not trading",
            GobblerError::AmountTooLow => "Amount too low after transfer fee",
            GobblerError::InvalidVaultConfiguration => "Invalid vault configuration",
            GobblerError::InvalidSubVault0 => "Invalid subtraction for vault_0",
            GobblerError::InvalidSubVault1 => "Invalid subtraction for vault_1",
            GobblerError::SwapCalculationFailed => "Swap calculation failed",
            GobblerError::OutputAmountZero => "Output amount must be greater than zero",
            GobblerError::OutputAmountOverflow => "Output amount overflow",
            GobblerError::InsufficientLiquidity => "Insufficient liquidity",
            GobblerError::OutOfRange => "out of range integral type conversion attempted",
            GobblerError::FeeConversion => "Failed to convert fees: out of range integral type conversion attempted",
            GobblerError::Panicked => "Panic occurred during swap calculation",
        }
    }
}

/// The vault amounts without the fees the pool owes, first side 0 then side 1;
/// an overflow of the owed fees is a panic.
pub open spec fn spec_gobbler_vault_amounts(pool: CpPoolState, vault_0: u64, vault_1: u64) -> Result<
    (u64, u64),
    GobblerError,
> {
    let owed_0 = pool.protocol_fees_token_0 + pool.fund_fees_token_0;
    let owed_1 = pool.protocol_fees_token_1 + pool.fund_fees_token_1;
    if owed_0 > u64::MAX {
        Err(GobblerError::Panicked)
    } else if owed_0 > vault_0 {
        Err(GobblerError::InvalidSubVault0)
    } else if owed_1 > u64::MAX {
        Err(GobblerError::Panicked)
    } else if owed_1 > vault_1 {
        Err(GobblerError::InvalidSubVault1)
    } else {
        Ok(((vault_0 - owed_0) as u64, (vault_1 - owed_1) as u64))
    }
}

/// The vault amounts without the protocol and fund fees the pool owes.
pub fn vault_amount_without_fee(pool: &CpPoolState, vault_0: u64, vault_1: u64) -> (r: Result<
    (u64, u64),
    GobblerError,
>)
    ensures
        r == spec_gobbler_vault_amounts(*pool, vault_0, vault_1),
{
    let owed_0 = match pool.protocol_fees_token_0.checked_add(pool.fund_fees_token_0) {
        Some(v) => v,
        None => return Err(GobblerError::Panicked),
    };
    let a = match vault_0.checked_sub(owed_0) {
        Some(v) => v,
        None => return Err(GobblerError::InvalidSubVault0),
    };
    let owed_1 = match pool.protocol_fees_token_1.checked_add(pool.fund_fees_token_1) {
        Some(v) => v,
        None => return Err(GobblerError::Panicked),
    };
    let b = match vault_1.checked_sub(owed_1) {
        Some(v) => v,
        None => return Err(GobblerError::InvalidSubVault1),
    };
    Ok((a, b))
}

/// Whether the pool trades at the given time: swaps enabled and open.
pub open spec fn gobbler_trading(pool: CpPoolState, block_timestamp: u64) -> bool {
    swap_enabled(pool.status) && block_timestamp >= pool.open_time
}

/// The reserves `(input, output)` a swap between the two vaults trades against.
pub open spec fn spec_gobbler_reserves(
    pool: CpPoolState,
    input_vault_key: Pubkey,
    input_vault_amount: u64,
    output_vault_key: Pubkey,
    output_vault_amount: u64,
) -> Result<(u64, u64), GobblerError> {
    if input_vault_key@ == pool.token_0_vault@ && output_vault_key@ == pool.token_1_vault@ {
        spec_gobbler_vault_amounts(pool, input_vault_amount, output_vault_amount)
    } else if input_vault_key@ == pool.token_1_vault@ && output_vault_key@ == pool.token_0_vault@ {
        match spec_gobbler_vault_amounts(pool, output_vault_amount, input_vault_amount) {
            Ok((o, i)) => Ok((i, o)),
            Err(e) => Err(e),
        }
    } else {
        Err(GobblerError::InvalidVaultConfiguration)
    }
}

/// The reserves `(input, output)` of a swap; the vaults must be the pool's two.
pub fn gobbler_reserves(
    pool: &CpPoolState,
    input_vault_key: &Pubkey,
    input_vault_amount: u64,
    output_vault_key: &Pubkey,
    output_vault_amount: u64,
) -> (r: Result<(u64, u64), GobblerError>)
    ensures
        r == spec_gobbler_reserves(
            *pool,
            *input_vault_key,
            input_vault_amount,
            *output_vault_key,
            output_vault_amount,
        ),
{
    if same_key(input_vault_key, &pool.token_0_vault) && same_key(output_vault_key, &pool.token_1_vault) {
        vault_amount_without_fee(pool, input_vault_amount, output_vault_amount)
    } else if same_key(input_vault_key, &pool.token_1_vault) && same_key(output_vault_key, &pool.token_0_vault) {
        let (o, i) = vault_amount_without_fee(pool, output_vault_amount, input_vault_amount)?;
        Ok((i, o))
    } else {
        Err(GobblerError::InvalidVaultConfiguration)
    }
}

/// The fee rates handed to the curve, `(trade fee rate, creator rate, LP rate)`:
/// the creator and LP rates of the input token, and as trade fee rate their sum
/// plus the protocol fee, a ten-thousandth of all four rates. `None` on overflow.
pub open spec fn spec_gobbler_fee_rates(config: GobblerAmmConfig, input_is_token_0: bool) -> Option<
    (u64, u64, u64),
> {
    let all = config.token_0_creator_rate + config.token_1_creator_rate + config.token_0_lp_rate
        + config.token_1_lp_rate;
    let creator = if input_is_token_0 {
        config.token_0_creator_rate
    } else {
        config.token_1_creator_rate
    };
    let lp = if input_is_token_0 {
        config.token_0_lp_rate
    } else {
        config.token_1_lp_rate
    };
    if all > u64::MAX || all / 10000 + creator + lp > u64::MAX {
        None
    } else {
        Some(((all / 10000 + creator + lp) as u64, creator, lp))
    }
}

/// The fee rates of a swap whose input is token 0 or token 1.
pub fn gobbler_fee_rates(config: &GobblerAmmConfig, input_is_token_0: bool) -> (r: Option<(u64, u64, u64)>)
    ensures
        r == spec_gobbler_fee_rates(*config, input_is_token_0),
{
    let (creator, lp) = if input_is_token_0 {
        (config.token_0_creator_rate, config.token_0_lp_rate)
    } else {
        (config.token_1_creator_rate, config.token_1_lp_rate)
    };
    let s1 = config.token_0_creator_rate.checked_add(config.token_1_creator_rate)?;
    let s2 = s1.checked_add(config.token_0_lp_rate)?;
    let all = s2.checked_add(config.token_1_lp_rate)?;
    let protocol_fee = all / 10000;
    let t = protocol_fee.checked_add(creator)?;
    let total = t.checked_add(lp)?;
    Some((total, creator, lp))
}

/// What a quote hands to the curve: the amount, the reserves `(input, output)`
/// and the fee rates `(trade, creator, LP)`.
#[derive(Clone, Copy, Debug, PartialEq, Eq)]
pub struct CurveCall {
    pub amount: u64,
    pub input_reserve: u64,
    pub output_reserve: u64,
    pub trade_fee_rate: u64,
    pub creator_rate: u64,
    pub lp_rate: u64,
}

/// The curve call of a quote by input, after the trading check, the input's
/// transfer fee, the reserves and the fee rates, in that order.
pub open spec fn spec_gobbler_input_call(
    pool: CpPoolState,
    config: GobblerAmmConfig,
    input_vault_key: Pubkey,
    input_vault_amount: u64,
    output_vault_key: Pubkey,
    output_vault_amount: u64,
    amount_in: u64,
    block_timestamp: u64,
    input_transfer_fee: u64,
) -> Result<CurveCall, GobblerError> {
    if !gobbler_trading(pool, block_timestamp) {
        Err(GobblerError::NotTrading)
    } else if amount_in <= input_transfer_fee {
        Err(GobblerError::AmountTooLow)
    } else {
        match spec_gobbler_reserves(pool, input_vault_key, input_vault_amount, output_vault_key, output_vault_amount) {
            Err(e) => Err(e),
            Ok((i, o)) => match spec_gobbler_fee_rates(config, input_vault_key@ == pool.token_0_vault@) {
                None => Err(GobblerError::Panicked),
                Some((t, c, l)) => Ok(
                    CurveCall {
                        amount: (amount_in - input_transfer_fee) as u64,
                        input_reserve: i,
                        output_reserve: o,
                        trade_fee_rate: t,
                        creator_rate: c,
                        lp_rate: l,
                    },
                ),
            },
        }
    }
}

/// The first part of a quote by input: what to hand to the curve.
pub fn gobbler_swap_base_input_call(
    pool: &CpPoolState,
    config: &GobblerAmmConfig,
    input_vault_key: &Pubkey,
    input_vault_amount: u64,
    output_vault_key: &Pubkey,
    output_vault_amount: u64,
    amount_in: u64,
    block_timestamp: u64,
    input_transfer_fee: u64,
) -> (r: Result<CurveCall, GobblerError>)
    ensures
        r == spec_gobbler_input_call(
            *pool,
            *config,
            *input_vault_key,
            input_vault_amount,
            *output_vault_key,
            output_vault_amount,
            amount_in,
            block_timestamp,
            input_transfer_fee,
        ),
{
    if !swap_status_enabled(pool) || block_timestamp < pool.open_time {
        return Err(GobblerError::NotTrading);
    }
    let actual_amount_in = amount_in.saturating_sub(input_transfer_fee);
    if actual_amount_in == 0 {
        return Err(GobblerError::AmountTooLow);
    }
    let (i, o) = gobbler_reserves(pool, input_vault_key, input_vault_amount, output_vault_key, output_vault_amount)?;
    let is_0 = same_key(input_vault_key, &pool.token_0_vault);
    match gobbler_fee_rates(config, is_0) {
        None => Err(GobblerError::Panicked),
        Some((t, c, l)) => Ok(
            CurveCall {
                amount: actual_amount_in,
                input_reserve: i,
                output_reserve: o,
                trade_fee_rate: t,
                creator_rate: c,
                lp_rate: l,
            },
        ),
    }
}

/// The last part of a quote by input: `(amount_in, amount received after the
/// output token's transfer fee, trade fee rate)`, from the output of the curve
/// (`None` when the curve refused).
pub open spec fn spec_gobbler_input_quote(
    amount_in: u64,
    trade_fee_rate: u64,
    destination_amount_swapped: Option<u128>,
    output_transfer_fee: u64,
) -> Result<(u64, u64, u64), GobblerError> {
    match destination_amount_swapped {
        None => Err(GobblerError::SwapCalculationFailed),
        Some(d) => if d > u64::MAX {
            Err(GobblerError::OutOfRange)
        } else if d <= output_transfer_fee {
            Ok((amount_in, 0, trade_fee_rate))
        } else {
            Ok((amount_in, (d - output_transfer_fee) as u64, trade_fee_rate))
        },
    }
}

pub fn gobbler_swap_base_input_quote(
    amount_in: u64,
    trade_fee_rate: u64,
    destination_amount_swapped: Option<u128>,
    output_transfer_fee: u64,
) -> (r: Result<(u64, u64, u64), GobblerError>)
    ensures
        r == spec_gobbler_input_quote(amount_in, trade_fee_rate, destination_amount_swapped, output_transfer_fee),
{
    let d = match destination_amount_swapped {
        None => return Err(GobblerError::SwapCalculationFailed),
        Some(d) => d,
    };
    if d > u64::MAX as u128 {
        return Err(GobblerError::OutOfRange);
    }
    let received = d.saturating_sub(output_transfer_fee as u128);
    Ok((amount_in, received as u64, trade_fee_rate))
}

/// The curve call of a quote by output, after the trading check, the zero
/// check, the output's transfer fee, the reserves, the liquidity check and the
/// fee rates, in that order.
pub open spec fn spec_gobbler_output_call(
    pool: CpPoolState,
    config: GobblerAmmConfig,
    input_vault_key: Pubkey,
    input_vault_amount: u64,
    output_vault_key: Pubkey,
    output_vault_amount: u64,
    amount_out: u64,
    block_timestamp: u64,
    output_transfer_fee: u64,
) -> Result<CurveCall, GobblerError> {
    if !gobbler_trading(pool, block_timestamp) {
        Err(GobblerError::NotTrading)
    } else if amount_out == 0 {
        Err(GobblerError::OutputAmountZero)
    } else if amount_out + output_transfer_fee > u64::MAX {
        Err(GobblerError::OutputAmountOverflow)
    } else {
        match spec_gobbler_reserves(pool, input_vault_key, input_vault_amount, output_vault_key, output_vault_amount) {
            Err(e) => Err(e),
            Ok((i, o)) => if o < amount_out + output_transfer_fee {
                Err(GobblerError::InsufficientLiquidity)
            } else {
                match spec_gobbler_fee_rates(config, input_vault_key@ == pool.token_0_vault@) {
                    None => Err(GobblerError::Panicked),
                    Some((t, c, l)) => Ok(
                        CurveCall {
                            amount: (amount_out + output_transfer_fee) as u64,
                            input_reserve: i,
                            output_reserve: o,
                            trade_fee_rate: t,
                            creator_rate: c,
                            lp_rate: l,
                        },
                    ),
                }
            },
        }
    }
}

/// The first part of a quote by output: what to hand to the curve.
pub fn gobbler_swap_base_output_call(
    pool: &CpPoolState,
    config: &GobblerAmmConfig,
    input_vault_key: &Pubkey,
    input_vault_amount: u64,
    output_vault_key: &Pubkey,
    output_vault_amount: u64,
    amount_out: u64,
    block_timestamp: u64,
    output_transfer_fee: u64,
) -> (r: Result<CurveCall, GobblerError>)
    ensures
        r == spec_gobbler_output_call(
            *pool,
            *config,
            *input_vault_key,
            input_vault_amount,
            *output_vault_key,
            output_vault_amount,
            amount_out,
            block_timestamp,
            output_transfer_fee,
        ),
{
    if !swap_status_enabled(pool) || block_timestamp < pool.open_time {
        return Err(GobblerError::NotTrading);
    }
    if amount_out == 0 {
        return Err(GobblerError::OutputAmountZero);
    }
    let actual_amount_out = match amount_out.checked_add(output_transfer_fee) {
        Some(v) => v,
        None => return Err(GobblerError::OutputAmountOverflow),
    };
    let (i, o) = gobbler_reserves(pool, input_vault_key, input_vault_amount, output_vault_key, output_vault_amount)?;
    if o < actual_amount_out {
        return Err(GobblerError::InsufficientLiquidity);
    }
    let is_0 = same_key(input_vault_key, &pool.token_0_vault);
    match gobbler_fee_rates(config, is_0) {
        None => Err(GobblerError::Panicked),
        Some((t, c, l)) => Ok(
            CurveCall {
                amount: actual_amount_out,
                input_reserve: i,
                output_reserve: o,
                trade_fee_rate: t,
                creator_rate: c,
                lp_rate: l,
            },
        ),
    }
}

/// The last part of a quote by output: `(input with the input token's transfer
/// fee, amount_out, fees)`, from the curve's `(source amount, total fees)`
/// (`None` when the curve refused). The input transfer fee is the one of the
/// source amount, so that amount must fit 64 bits before it.
pub open spec fn spec_gobbler_output_quote(
    amount_out: u64,
    curve: Option<(u128, u128)>,
    input_transfer_fee: u64,
) -> Result<(u64, u64, u64), GobblerError> {
    match curve {
        None => Err(GobblerError::SwapCalculationFailed),
        Some((source, fees)) => if source > u64::MAX || source + input_transfer_fee > u64::MAX {
            Err(GobblerError::OutOfRange)
        } else if fees > u64::MAX {
            Err(GobblerError::FeeConversion)
        } else {
            Ok(((source + input_transfer_fee) as u64, amount_out, fees as u64))
        },
    }
}

pub fn gobbler_swap_base_output_quote(amount_out: u64, curve: Option<(u128, u128)>, input_transfer_fee: u64) -> (r:
    Result<(u64, u64, u64), GobblerError>)
    ensures
        r == spec_gobbler_output_quote(amount_out, curve, input_transfer_fee),
{
    let (source, fees) = match curve {
        None => return Err(GobblerError::SwapCalculationFailed),
        Some(c) => c,
    };
    if source > u64::MAX as u128 {
        return Err(GobblerError::OutOfRange);
    }
    let amount_in = source.saturating_add(input_transfer_fee as u128);
    if amount_in > u64::MAX as u128 {
        return Err(GobblerError::OutOfRange);
    }
    if fees > u64::MAX as u128 {
        return Err(GobblerError::FeeConversion);
    }
    Ok((amount_in as u64, amount_out, fees as u64))
}

} // verus!

verus! {

/// What a curve call of a swap charges and trades against, given which of the
/// pool's vaults takes the input: the creator and LP rates of the input token,
/// a trade fee rate of the four rates' sum over 10^4 plus those two, and the
/// vault amounts less what the pool owes to protocol and fund, each vault with
/// its own token's debt.
pub open spec fn curve_call_of_vaults(
    c: CurveCall,
    pool: CpPoolState,
    config: GobblerAmmConfig,
    input_vault_key: Pubkey,
    input_vault_amount: u64,
    output_vault_amount: u64,
) -> bool {
    let owed_0 = pool.protocol_fees_token_0 + pool.fund_fees_token_0;
    let owed_1 = pool.protocol_fees_token_1 + pool.fund_fees_token_1;
    let all = config.token_0_creator_rate + config.token_1_creator_rate + config.token_0_lp_rate
        + config.token_1_lp_rate;
    &&& c.trade_fee_rate == all / 10000 + c.creator_rate + c.lp_rate
    &&& input_vault_key@ == pool.token_0_vault@ ==> {
        &&& c.creator_rate == config.token_0_creator_rate
        &&& c.lp_rate == config.token_0_lp_rate
        &&& c.input_reserve == input_vault_amount - owed_0
        &&& c.output_reserve == output_vault_amount - owed_1
    }
    &&& input_vault_key@ == pool.token_1_vault@ && pool.token_0_vault@ != pool.token_1_vault@ ==> {
        &&& c.creator_rate == config.token_1_creator_rate
        &&& c.lp_rate == config.token_1_lp_rate
        &&& c.input_reserve == input_vault_amount - owed_1
        &&& c.output_reserve == output_vault_amount - owed_0
    }
}

/// A curve call by input trades the input less its transfer fee, at the rates
/// and against the reserves of the vault it goes into.
pub proof fn lemma_gobbler_input_call_law(
    pool: CpPoolState,
    config: GobblerAmmConfig,
    input_vault_key: Pubkey,
    input_vault_amount: u64,
    output_vault_key: Pubkey,
    output_vault_amount: u64,
    amount_in: u64,
    block_timestamp: u64,
    input_transfer_fee: u64,
)
    ensures
        spec_gobbler_input_call(
            pool,
            config,
            input_vault_key,
            input_vault_amount,
            output_vault_key,
            output_vault_amount,
            amount_in,
            block_timestamp,
            input_transfer_fee,
        ) matches Ok(c) ==> c.amount == amount_in - input_transfer_fee && curve_call_of_vaults(
            c,
            pool,
            config,
            input_vault_key,
            input_vault_amount,
            output_vault_amount,
        ),
{
}

/// A curve call by output asks for the output plus its transfer fee, at the
/// rates and against the reserves of the vault the input goes into.
pub proof fn lemma_gobbler_output_call_law(
    pool: CpPoolState,
    config: GobblerAmmConfig,
    input_vault_key: Pubkey,
    input_vault_amount: u64,
    output_vault_key: Pubkey,
    output_vault_amount: u64,
    amount_out: u64,
    block_timestamp: u64,
    output_transfer_fee: u64,
)
    ensures
        spec_gobbler_output_call(
            pool,
            config,
            input_vault_key,
            input_vault_amount,
            output_vault_key,
            output_vault_amount,
            amount_out,
            block_timestamp,
            output_transfer_fee,
        ) matches Ok(c) ==> c.amount == amount_out + output_transfer_fee && curve_call_of_vaults(
            c,
            pool,
            config,
            input_vault_key,
            input_vault_amount,
            output_vault_amount,
        ),
{
}

/// A quote by input keeps the input, receives what the curve paid out less the
/// output token's transfer fee (nothing when the fee takes it all), and reports
/// the trade fee rate; a quote by output gives the output asked, takes the
/// curve's source amount plus the input token's transfer fee, and reports the
/// curve's fees.
pub proof fn lemma_gobbler_quotes_law(
    amount_in: u64,
    trade_fee_rate: u64,
    destination_amount_swapped: Option<u128>,
    output_transfer_fee: u64,
    amount_out: u64,
    curve: Option<(u128, u128)>,
    input_transfer_fee: u64,
)
    ensures
        spec_gobbler_input_quote(amount_in, trade_fee_rate, destination_amount_swapped, output_transfer_fee) matches Ok(
            (i, o, t),
        ) ==> (i == amount_in && t == trade_fee_rate && (destination_amount_swapped matches Some(d) && o == (if d
            > output_transfer_fee { d - output_transfer_fee } else { 0 }))),
        spec_gobbler_output_quote(amount_out, curve, input_transfer_fee) matches Ok((i, o, f)) ==> (o == amount_out
            && (curve matches Some((source, fees)) && i == source + input_transfer_fee && f == fees)),
{
}

} // verus!
