//! The accounts of a swap instruction on a concentrated-liquidity pool: which
//! of the user's token accounts is x and which is y, and the order and flags
//! of the accounts the instruction lists.
use vstd::prelude::*;
use crate::cp_swap::{Pubkey, same_key};

verus! {

/// An account an instruction lists, with whether it signs and whether it is written.
#[derive(Clone, Copy, Debug, PartialEq, Eq)]
pub struct AccountMetaSpec {
    pub pubkey: Pubkey,
    pub is_signer: bool,
    pub is_writable: bool,
}

/// A written account.
pub open spec fn writable(pubkey: Pubkey, is_signer: bool) -> AccountMetaSpec {
    AccountMetaSpec { pubkey, is_signer, is_writable: true }
}

/// An account only read.
pub open spec fn readonly(pubkey: Pubkey, is_signer: bool) -> AccountMetaSpec {
    AccountMetaSpec { pubkey, is_signer, is_writable: false }
}

/// The keys of a pool a swap reads.
#[derive(Clone, Copy, Debug, PartialEq, Eq)]
pub struct InvariantPoolKeys {
    pub tickmap: Pubkey,
    pub token_x: Pubkey,
    pub token_y: Pubkey,
    pub token_x_reserve: Pubkey,
    pub token_y_reserve: Pubkey,
}

/// What the user asks of a swap: who swaps, which mint goes in and out, and
/// the user's accounts of those mints.
#[derive(Clone, Copy, Debug, PartialEq, Eq)]
pub struct InvariantSwapParams {
    pub owner: Pubkey,
    pub source_mint: Pubkey,
    pub destination_mint: Pubkey,
    pub source_account: Pubkey,
    pub destination_account: Pubkey,
    pub referral_fee: Option<Pubkey>,
}

/// Errors of building the accounts of a swap.
#[derive(Clone, Copy, Debug, PartialEq, Eq)]
pub enum SwapAccountsError {
    InvalidMints,
}

impl SwapAccountsError {
    /// The message that goes with the error, as characters.
    pub open spec fn spec_message(self) -> Seq<char> {
        match self {
            SwapAccountsError::InvalidMints => "Invalid source or destination mint"@,
        }
    }

    /// The message that goes with the error.
    pub fn message(&self) -> (r: &'static str)
        ensures
            r@ == self.spec_message(),
    {
        match self {
            SwapAccountsError::InvalidMints => "Invalid source or destination mint",
        }
    }
}

/// The direction of a swap and the user's accounts of x and y: selling x when
/// the source is x and the destination y, selling y when the other way round.
pub open spec fn spec_swap_direction(pool: InvariantPoolKeys, params: InvariantSwapParams) -> Result<
    (bool, Pubkey, Pubkey),
    SwapAccountsError,
> {
    if pool.token_x@ == params.source_mint@ && pool.token_y@ == params.destination_mint@ {
        Ok((true, params.source_account, params.destination_account))
    } else if pool.token_x@ == params.destination_mint@ && pool.token_y@ == params.source_mint@ {
        Ok((false, params.destination_account, params.source_account))
    } else {
        Err(SwapAccountsError::InvalidMints)
    }
}

/// `(x_to_y, account_x, account_y)` of a swap.
pub fn swap_direction(pool: &InvariantPoolKeys, params: &InvariantSwapParams) -> (r: Result<
    (bool, Pubkey, Pubkey),
    SwapAccountsError,
>)
    ensures
        r == spec_swap_direction(*pool, *params),
{
    let a = same_key(&pool.token_x, &params.source_mint);
    let b = same_key(&pool.token_y, &params.destination_mint);
    let c = same_key(&pool.token_x, &params.destination_mint);
    let d = same_key(&pool.token_y, &params.source_mint);
    if a && b {
        Ok((true, params.source_account, params.destination_account))
    } else if c && d {
        Ok((false, params.destination_account, params.source_account))
    } else {
        Err(SwapAccountsError::InvalidMints)
    }
}

/// The accounts of a swap instruction.
#[derive(Clone, Debug, PartialEq, Eq)]
pub struct InvariantSwapAccounts {
    pub state: Pubkey,
    pub pool: Pubkey,
    pub tickmap: Pubkey,
    pub token_x: Pubkey,
    pub token_y: Pubkey,
    pub account_x: Pubkey,
    pub account_y: Pubkey,
    pub reserve_x: Pubkey,
    pub reserve_y: Pubkey,
    pub owner: Pubkey,
    pub program_authority: Pubkey,
    pub token_x_program: Pubkey,
    pub token_y_program: Pubkey,
    pub ticks_accounts: Vec<Pubkey>,
    pub referral_fee: Option<Pubkey>,
}

/// The accounts every swap lists before its tick accounts.
pub open spec fn fixed_metas(a: InvariantSwapAccounts) -> Seq<AccountMetaSpec> {
    seq![
        readonly(a.state, false),
        writable(a.pool, false),
        writable(a.tickmap, false),
        writable(a.token_x, false),
        writable(a.token_y, false),
        writable(a.account_x, false),
        writable(a.account_y, false),
        writable(a.reserve_x, false),
        writable(a.reserve_y, false),
        writable(a.owner, true),
        readonly(a.program_authority, false),
        readonly(a.token_x_program, false),
        readonly(a.token_y_program, false),
    ]
}

impl InvariantSwapAccounts {
    /// The accounts of a swap on the pool at `pool_pk`, with the program's state
    /// and authority, the owners of the two mints, and the tick accounts the swap
    /// crosses; and whether it sells x.
    pub fn from_pubkeys(
        pool_keys: &InvariantPoolKeys,
        pool_pk: Pubkey,
        params: &InvariantSwapParams,
        state: Pubkey,
        program_authority: Pubkey,
        token_x_program: Pubkey,
        token_y_program: Pubkey,
        ticks_accounts: Vec<Pubkey>,
    ) -> (r: Result<(InvariantSwapAccounts, bool), SwapAccountsError>)
        ensures
            match spec_swap_direction(*pool_keys, *params) {
                Err(e) => r == Err::<(InvariantSwapAccounts, bool), SwapAccountsError>(e),
                Ok((x_to_y, account_x, account_y)) => r matches Ok((a, d)) && d == x_to_y && a == (
                InvariantSwapAccounts {
                    state,
                    pool: pool_pk,
                    tickmap: pool_keys.tickmap,
                    token_x: pool_keys.token_x,
                    token_y: pool_keys.token_y,
                    account_x,
                    account_y,
                    reserve_x: pool_keys.token_x_reserve,
                    reserve_y: pool_keys.token_y_reserve,
                    owner: params.owner,
                    program_authority,
                    token_x_program,
                    token_y_program,
                    ticks_accounts,
                    referral_fee: params.referral_fee,
                }),
            },
    {
        let (x_to_y, account_x, account_y) = swap_direction(pool_keys, params)?;
        Ok(
            (
                InvariantSwapAccounts {
                    state,
                    pool: pool_pk,
                    tickmap: pool_keys.tickmap,
                    token_x: pool_keys.token_x,
                    token_y: pool_keys.token_y,
                    account_x,
                    account_y,
                    reserve_x: pool_keys.token_x_reserve,
                    reserve_y: pool_keys.token_y_reserve,
                    owner: params.owner,
                    program_authority,
                    token_x_program,
                    token_y_program,
                    ticks_accounts,
                    referral_fee: params.referral_fee,
                },
                x_to_y,
            ),
        )
    }

    /// The accounts the instruction lists: the fixed ones (only the owner signs),
    /// then every tick account, written.
    pub fn to_account_metas(&self) -> (r: Vec<AccountMetaSpec>)
        ensures
            r@ == fixed_metas(*self) + self.ticks_accounts@.map_values(|t: Pubkey| writable(t, false)),
    {
        let mut metas: Vec<AccountMetaSpec> = Vec::new();
        metas.push(AccountMetaSpec { pubkey: self.state, is_signer: false, is_writable: false });
        metas.push(AccountMetaSpec { pubkey: self.pool, is_signer: false, is_writable: true });
        metas.push(AccountMetaSpec { pubkey: self.tickmap, is_signer: false, is_writable: true });
        metas.push(AccountMetaSpec { pubkey: self.token_x, is_signer: false, is_writable: true });
        metas.push(AccountMetaSpec { pubkey: self.token_y, is_signer: false, is_writable: true });
        metas.push(AccountMetaSpec { pubkey: self.account_x, is_signer: false, is_writable: true });
        metas.push(AccountMetaSpec { pubkey: self.account_y, is_signer: false, is_writable: true });
        metas.push(AccountMetaSpec { pubkey: self.reserve_x, is_signer: false, is_writable: true });
        metas.push(AccountMetaSpec { pubkey: self.reserve_y, is_signer: false, is_writable: true });
        metas.push(AccountMetaSpec { pubkey: self.owner, is_signer: true, is_writable: true });
        metas.push(AccountMetaSpec { pubkey: self.program_authority, is_signer: false, is_writable: false });
        metas.push(AccountMetaSpec { pubkey: self.token_x_program, is_signer: false, is_writable: false });
        metas.push(AccountMetaSpec { pubkey: self.token_y_program, is_signer: false, is_writable: false });
        proof {
            assert(metas@ =~= fixed_metas(*self));
        }
        let mut i: usize = 0;
        while i < self.ticks_accounts.len()
            invariant
                i <= self.ticks_accounts@.len(),
                metas@ == fixed_metas(*self) + self.ticks_accounts@.subrange(0, i as int).map_values(
                    |t: Pubkey| writable(t, false),
                ),
            decreases self.ticks_accounts@.len() - i,
        {
            metas.push(AccountMetaSpec { pubkey: self.ticks_accounts[i], is_signer: false, is_writable: true });
            proof {
                assert(self.ticks_accounts@.subrange(0, i + 1) =~= self.ticks_accounts@.subrange(0, i as int).push(
                    self.ticks_accounts@[i as int],
                ));
                assert(metas@ =~= fixed_metas(*self) + self.ticks_accounts@.subrange(0, i + 1).map_values(
                    |t: Pubkey| writable(t, false),
                ));
            }
            i = i + 1;
        }
        proof {
            assert(self.ticks_accounts@.subrange(0, i as int) =~= self.ticks_accounts@);
        }
        metas
    }
}

/// A swap sells x when its source mint is the pool's x and its destination the
/// pool's y, and sells y the other way round; the user's accounts are then
/// returned as (account of x, account of y).
pub proof fn lemma_swap_direction_law(pool: InvariantPoolKeys, params: InvariantSwapParams)
    ensures
        spec_swap_direction(pool, params) matches Ok((x_to_y, ax, ay)) ==> {
            &&& x_to_y ==> params.source_mint@ == pool.token_x@ && params.destination_mint@ == pool.token_y@
                && ax == params.source_account && ay == params.destination_account
            &&& !x_to_y ==> params.source_mint@ == pool.token_y@ && params.destination_mint@ == pool.token_x@
                && ax == params.destination_account && ay == params.source_account
        },
        pool.token_x@ == params.source_mint@ && pool.token_y@ == params.destination_mint@ ==> (spec_swap_direction(
            pool,
            params,
        ) matches Ok((x_to_y, _, _)) && x_to_y),
{
}

} // verus!
