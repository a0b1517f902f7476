//! The steps of a quote on a constant-product pool with token-2022 transfer fees
//! around the curve: the status gate, which vault is which, the reserves without
//! the fees the pool owes, and the amounts handed back. The curve itself and the
//! transfer fees are computed by the caller between the steps.
use vstd::prelude::*;
use crate::gamma::TradeDirection;

verus! {

/// A public key, as its bytes.
pub type Pubkey = [u8; 32];

/// Whether two keys are equal.
pub fn same_key(a: &Pubkey, b: &Pubkey) -> (r: bool)
    ensures
        r == (a@ == b@),
{
    let mut i: usize = 0;
    while i < 32
        invariant
            i <= 32,
            a@.len() == 32,
            b@.len() == 32,
            forall|j: int| 0 <= j < i ==> a@[j] == b@[j],
        decreases 32 - i,
    {
        if a[i] != b[i] {
            return false;
        }
        i = i + 1;
    }
    proof {
        assert(a@ =~= b@);
    }
    true
}

/// The pool fields a quote reads.
#[derive(Clone, Copy, Debug, PartialEq, Eq, Default)]
pub struct CpPoolState {
    /// Bit i set disables operation i (bit 2: swaps).
    pub status: u8,
    pub open_time: u64,
    pub token_0_vault: Pubkey,
    pub token_1_vault: Pubkey,
    pub protocol_fees_token_0: u64,
    pub fund_fees_token_0: u64,
    pub protocol_fees_token_1: u64,
    pub fund_fees_token_1: u64,
}

/// Errors of a quote on a constant-product pool. `Panicked` stands for a quote
/// that stopped on an overflow or a failed conversion.
#[derive(Clone, Copy, Debug, PartialEq, Eq)]
pub enum CpSwapError {
    NotApproved,
    AmountInZero,
    AmountOutZero,
    InvalidVault,
    InvalidSub,
    NotEnoughTokens,
    CannotSwap,
    Panicked,
}

impl CpSwapError {
    /// The message that goes with the error, as characters.
    pub open spec fn spec_message(self) -> Seq<char> {
        match self {
            CpSwapError::NotApproved => "not approved"@,
            CpSwapError::AmountInZero => "in amount must be gt 0"@,
            CpSwapError::AmountOutZero => "out amount is 0"@,
            CpSwapError::InvalidVault => "Invalid vault"@,
            CpSwapError::InvalidSub => "invalid sub"@,
            CpSwapError::NotEnoughTokens => "Vault does not contain enough tokens"@,
            CpSwapError::CannotSwap => "Can't swap"@,
            CpSwapError::Panicked => "Something went wrong in raydium cp"@,
        }
    }

    /// The message that goes with the error.
    pub fn message(&self) -> (r: &'static str)
        ensures
            r@ == self.spec_message(),
    {
        match self {
            CpSwapError::NotApproved => "not approved",
            CpSwapError::AmountInZero => "in amount must be gt 0",
            CpSwapError::AmountOutZero => "out amount is 0",
            CpSwapError::InvalidVault => "Invalid vault",
            CpSwapError::InvalidSub => "invalid sub",
            CpSwapError::NotEnoughTokens => "Vault does not contain enough tokens",
            CpSwapError::CannotSwap => "Can't swap",
            CpSwapError::Panicked => "Something went wrong in raydium cp",
        }
    }
}

/// Whether the swap bit of the status is clear.
pub open spec fn swap_enabled(status: u8) -> bool {
    (status >> 2u8) % 2 == 0
}

/// Whether swaps on the pool are enabled.
pub fn swap_status_enabled(pool: &CpPoolState) -> (r: bool)
    ensures
        r == swap_enabled(pool.status),
{
    proof {
        lemma_swap_bit(pool.status);
    }
    pool.status & 4u8 == 0
}

proof fn lemma_swap_bit(s: u8)
    by (bit_vector)
    ensures
        (s & 4u8 == 0) == ((s >> 2u8) % 2 == 0),
{
}

/// The vault amounts without the protocol and fund fees the pool owes on each
/// side, side 0 first; an overflow of the owed fees is a panic.
pub open spec fn spec_vault_amount_without_fee(pool: CpPoolState, vault_0: u64, vault_1: u64) -> Result<
    (u64, u64),
    CpSwapError,
> {
    let owed_0 = pool.protocol_fees_token_0 + pool.fund_fees_token_0;
    let owed_1 = pool.protocol_fees_token_1 + pool.fund_fees_token_1;
    if owed_0 > u64::MAX {
        Err(CpSwapError::Panicked)
    } else if owed_0 > vault_0 {
        Err(CpSwapError::InvalidSub)
    } else if owed_1 > u64::MAX {
        Err(CpSwapError::Panicked)
    } else if owed_1 > vault_1 {
        Err(CpSwapError::InvalidSub)
    } else {
        Ok(((vault_0 - owed_0) as u64, (vault_1 - owed_1) as u64))
    }
}

/// The vault amounts without the protocol and fund fees the pool owes.
pub fn vault_amount_without_fee(pool: &CpPoolState, vault_0: u64, vault_1: u64) -> (r: Result<
    (u64, u64),
    CpSwapError,
>)
    ensures
        r == spec_vault_amount_without_fee(*pool, vault_0, vault_1),
{
    let owed_0 = match pool.protocol_fees_token_0.checked_add(pool.fund_fees_token_0) {
        Some(v) => v,
        None => return Err(CpSwapError::Panicked),
    };
    let a = match vault_0.checked_sub(owed_0) {
        Some(v) => v,
        None => return Err(CpSwapError::InvalidSub),
    };
    let owed_1 = match pool.protocol_fees_token_1.checked_add(pool.fund_fees_token_1) {
        Some(v) => v,
        None => return Err(CpSwapError::Panicked),
    };
    let b = match vault_1.checked_sub(owed_1) {
        Some(v) => v,
        None => return Err(CpSwapError::InvalidSub),
    };
    Ok((a, b))
}

/// The first step of a quote: the pool must swap and be open (its open time
/// plus one must not overflow).
pub fn check_swap_allowed(pool: &CpPoolState) -> (r: Result<(), CpSwapError>)
    ensures
        pool.open_time == u64::MAX ==> r == Err::<(), CpSwapError>(CpSwapError::Panicked),
        pool.open_time < u64::MAX ==> r == if swap_enabled(pool.status) {
            Ok::<(), CpSwapError>(())
        } else {
            Err(CpSwapError::NotApproved)
        },
{
    let block_timestamp = match pool.open_time.checked_add(1) {
        Some(t) => t,
        None => return Err(CpSwapError::Panicked),
    };
    if !swap_status_enabled(pool) || block_timestamp < pool.open_time {
        return Err(CpSwapError::NotApproved);
    }
    Ok(())
}

/// The reserves on the input and output side, by which vault the input comes
/// from: the vaults must be the pool's two, in either order.
pub open spec fn spec_select_reserves(
    pool: CpPoolState,
    input_vault_key: Pubkey,
    input_vault_amount: u64,
    output_vault_key: Pubkey,
    output_vault_amount: u64,
) -> Result<(TradeDirection, u64, u64), CpSwapError> {
    if input_vault_key@ == pool.token_0_vault@ && output_vault_key@ == pool.token_1_vault@ {
        match spec_vault_amount_without_fee(pool, input_vault_amount, output_vault_amount) {
            Ok((i, o)) => Ok((TradeDirection::ZeroForOne, i, o)),
            Err(e) => Err(e),
        }
    } else if input_vault_key@ == pool.token_1_vault@ && output_vault_key@ == pool.token_0_vault@ {
        match spec_vault_amount_without_fee(pool, output_vault_amount, input_vault_amount) {
            Ok((o, i)) => Ok((TradeDirection::OneForZero, i, o)),
            Err(e) => Err(e),
        }
    } else {
        Err(CpSwapError::InvalidVault)
    }
}

/// The trade direction and the reserves it trades against.
pub fn select_reserves(
    pool: &CpPoolState,
    input_vault_key: &Pubkey,
    input_vault_amount: u64,
    output_vault_key: &Pubkey,
    output_vault_amount: u64,
) -> (r: Result<(TradeDirection, u64, u64), CpSwapError>)
    ensures
        r == spec_select_reserves(*pool, *input_vault_key, input_vault_amount, *output_vault_key, output_vault_amount),
{
    if same_key(input_vault_key, &pool.token_0_vault) && same_key(output_vault_key, &pool.token_1_vault) {
        let (i, o) = vault_amount_without_fee(pool, input_vault_amount, output_vault_amount)?;
        Ok((TradeDirection::ZeroForOne, i, o))
    } else if same_key(input_vault_key, &pool.token_1_vault) && same_key(output_vault_key, &pool.token_0_vault) {
        let (o, i) = vault_amount_without_fee(pool, output_vault_amount, input_vault_amount)?;
        Ok((TradeDirection::OneForZero, i, o))
    } else {
        Err(CpSwapError::InvalidVault)
    }
}

/// The reserves a quote by input trades against, and the input that reaches the
/// pool after the input token's transfer fee, which must not be zero.
pub fn swap_base_input_reserves(
    pool: &CpPoolState,
    input_vault_key: &Pubkey,
    input_vault_amount: u64,
    output_vault_key: &Pubkey,
    output_vault_amount: u64,
    amount_in: u64,
    input_transfer_fee: u64,
) -> (r: Result<(u64, u64, u64), CpSwapError>)
    ensures
        amount_in <= input_transfer_fee ==> r == Err::<(u64, u64, u64), CpSwapError>(CpSwapError::AmountInZero),
        amount_in > input_transfer_fee ==> r == match spec_select_reserves(
            *pool,
            *input_vault_key,
            input_vault_amount,
            *output_vault_key,
            output_vault_amount,
        ) {
            Ok((_, i, o)) => Ok::<(u64, u64, u64), CpSwapError>(((amount_in - input_transfer_fee) as u64, i, o)),
            Err(e) => Err(e),
        },
{
    let actual_amount_in = amount_in.saturating_sub(input_transfer_fee);
    if actual_amount_in == 0 {
        return Err(CpSwapError::AmountInZero);
    }
    let (_, total_input_token_amount, total_output_token_amount) = select_reserves(
        pool,
        input_vault_key,
        input_vault_amount,
        output_vault_key,
        output_vault_amount,
    )?;
    Ok((actual_amount_in, total_input_token_amount, total_output_token_amount))
}

/// The result of a swap on the curve, as the quote reads it.
#[derive(Clone, Copy, Debug, PartialEq, Eq, Default)]
pub struct CurveSwapResult {
    pub source_amount_swapped: u128,
    pub destination_amount_swapped: u128,
    pub trade_fee: u128,
    pub protocol_fee: u128,
    pub fund_fee: u128,
}

/// The output of the curve as a token amount, or `Panicked` when it does not fit.
pub fn curve_amount_out(result: &CurveSwapResult) -> (r: Result<u64, CpSwapError>)
    ensures
        result.destination_amount_swapped <= u64::MAX ==> r == Ok::<u64, CpSwapError>(
            result.destination_amount_swapped as u64,
        ),
        result.destination_amount_swapped > u64::MAX ==> r == Err::<u64, CpSwapError>(CpSwapError::Panicked),
{
    if result.destination_amount_swapped <= u64::MAX as u128 {
        Ok(result.destination_amount_swapped as u64)
    } else {
        Err(CpSwapError::Panicked)
    }
}

/// The fees of a swap on the curve, added up.
pub open spec fn total_fees(result: CurveSwapResult) -> int {
    result.trade_fee + result.protocol_fee + result.fund_fee
}

/// The last step of a quote by input: `(amount_in, amount received after the output
/// token's transfer fee, fees)`; a swap the curve refused quotes `(u64::MAX, 0, 0)`.
pub fn swap_base_input_quote(amount_in: u64, result: Option<CurveSwapResult>, output_transfer_fee: u64) -> (r: Result<
    (u64, u64, u64),
    CpSwapError,
>)
    ensures
        result is None ==> r == Ok::<(u64, u64, u64), CpSwapError>((u64::MAX, 0, 0)),
        result matches Some(c) ==> r == if c.destination_amount_swapped > u64::MAX || c.trade_fee > u64::MAX
            || c.protocol_fee > u64::MAX || c.fund_fee > u64::MAX || output_transfer_fee
            > c.destination_amount_swapped || total_fees(c) > u64::MAX {
            Err::<(u64, u64, u64), CpSwapError>(CpSwapError::Panicked)
        } else {
            Ok(
                (
                    amount_in,
                    (c.destination_amount_swapped - output_transfer_fee) as u64,
                    total_fees(c) as u64,
                ),
            )
        },
{
    let c = match result {
        Some(c) => c,
        None => return Ok((u64::MAX, 0, 0)),
    };
    let amount_out = curve_amount_out(&c)?;
    if c.trade_fee > u64::MAX as u128 || c.protocol_fee > u64::MAX as u128 || c.fund_fee > u64::MAX as u128 {
        return Err(CpSwapError::Panicked);
    }
    let amount_received = match amount_out.checked_sub(output_transfer_fee) {
        Some(v) => v,
        None => return Err(CpSwapError::Panicked),
    };
    let fees = match (c.trade_fee as u64).checked_add(c.protocol_fee as u64) {
        Some(v) => match v.checked_add(c.fund_fee as u64) {
            Some(w) => w,
            None => return Err(CpSwapError::Panicked),
        },
        None => return Err(CpSwapError::Panicked),
    };
    Ok((amount_in, amount_received, fees))
}

/// The output a quote by output asks of the curve: the amount wanted plus the
/// output token's transfer fee; the amount must not be zero.
pub fn swap_base_output_amount(amount_out: u64, output_transfer_fee: u64) -> (r: Result<u64, CpSwapError>)
    ensures
        amount_out == 0 ==> r == Err::<u64, CpSwapError>(CpSwapError::AmountOutZero),
        amount_out > 0 ==> r == if amount_out + output_transfer_fee > u64::MAX {
            Err::<u64, CpSwapError>(CpSwapError::Panicked)
        } else {
            Ok((amount_out + output_transfer_fee) as u64)
        },
{
    if amount_out == 0 {
        return Err(CpSwapError::AmountOutZero);
    }
    match amount_out.checked_add(output_transfer_fee) {
        Some(v) => Ok(v),
        None => Err(CpSwapError::Panicked),
    }
}

/// The reserves a quote by output trades against; the output reserve must hold
/// the output asked for.
pub fn swap_base_output_reserves(
    pool: &CpPoolState,
    input_vault_key: &Pubkey,
    input_vault_amount: u64,
    output_vault_key: &Pubkey,
    output_vault_amount: u64,
    output_amount: u64,
) -> (r: Result<(u64, u64), CpSwapError>)
    ensures
        r == match spec_select_reserves(
            *pool,
            *input_vault_key,
            input_vault_amount,
            *output_vault_key,
            output_vault_amount,
        ) {
            Ok((_, i, o)) => if o < output_amount {
                Err::<(u64, u64), CpSwapError>(CpSwapError::NotEnoughTokens)
            } else {
                Ok((i, o))
            },
            Err(e) => Err(e),
        },
{
    let (_, total_input_token_amount, total_output_token_amount) = select_reserves(
        pool,
        input_vault_key,
        input_vault_amount,
        output_vault_key,
        output_vault_amount,
    )?;
    if total_output_token_amount < output_amount {
        return Err(CpSwapError::NotEnoughTokens);
    }
    Ok((total_input_token_amount, total_output_token_amount))
}

/// The last step of a quote by output: `(input with fees, output, fees)`; a swap
/// the curve refused is an error. The amounts are narrowed to 64 bits.
pub fn swap_base_output_quote(result: Option<CurveSwapResult>) -> (r: Result<(u64, u64, u64), CpSwapError>)
    ensures
        result is None ==> r == Err::<(u64, u64, u64), CpSwapError>(CpSwapError::CannotSwap),
        result matches Some(c) ==> r == if c.trade_fee > u64::MAX || c.protocol_fee > u64::MAX || c.fund_fee > u64::MAX
            || total_fees(c) > u64::MAX || (c.source_amount_swapped as u64) + total_fees(c) > u64::MAX {
            Err::<(u64, u64, u64), CpSwapError>(CpSwapError::Panicked)
        } else {
            Ok(
                (
                    ((c.source_amount_swapped as u64) + total_fees(c)) as u64,
                    c.destination_amount_swapped as u64,
                    total_fees(c) as u64,
                ),
            )
        },
{
    let c = match result {
        Some(c) => c,
        None => return Err(CpSwapError::CannotSwap),
    };
    if c.trade_fee > u64::MAX as u128 || c.protocol_fee > u64::MAX as u128 || c.fund_fee > u64::MAX as u128 {
        return Err(CpSwapError::Panicked);
    }
    let fees = match (c.trade_fee as u64).checked_add(c.protocol_fee as u64) {
        Some(v) => match v.checked_add(c.fund_fee as u64) {
            Some(w) => w,
            None => return Err(CpSwapError::Panicked),
        },
        None => return Err(CpSwapError::Panicked),
    };
    let amount_in = match (c.source_amount_swapped as u64).checked_add(fees) {
        Some(v) => v,
        None => return Err(CpSwapError::Panicked),
    };
    Ok((amount_in, c.destination_amount_swapped as u64, fees))
}

} // verus!

verus! {

/// A swap trades against the vault amounts less what the pool owes on each
/// side: from token 0 to token 1 when the input vault is the pool's token 0
/// vault, the other way when it is its token 1 vault, the input reserve being
/// the input vault's amount less its own token's debt.
pub proof fn lemma_select_reserves_law(
    pool: CpPoolState,
    input_vault_key: Pubkey,
    input_vault_amount: u64,
    output_vault_key: Pubkey,
    output_vault_amount: u64,
)
    ensures
        spec_select_reserves(pool, input_vault_key, input_vault_amount, output_vault_key, output_vault_amount) matches Ok(
            (d, i, o),
        ) ==> {
            let owed_0 = pool.protocol_fees_token_0 + pool.fund_fees_token_0;
            let owed_1 = pool.protocol_fees_token_1 + pool.fund_fees_token_1;
            &&& input_vault_key@ == pool.token_0_vault@ ==> d == TradeDirection::ZeroForOne && i == input_vault_amount
                - owed_0 && o == output_vault_amount - owed_1
            &&& input_vault_key@ == pool.token_1_vault@ && pool.token_0_vault@ != pool.token_1_vault@ ==> d
                == TradeDirection::OneForZero && i == input_vault_amount - owed_1 && o == output_vault_amount - owed_0
        },
{
}

} // verus!
