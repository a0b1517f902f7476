//! The data and account lists of the swap instructions the router sends: the
//! byte layout of each program's swap instruction, and which accounts it lists
//! in which order.
use vstd::prelude::*;
use sha2::Digest;
use crate::cp_swap::Pubkey;
use crate::invariant_accounts::AccountMetaSpec;

verus! {

/// The little-endian bytes of a 64-bit number.
pub open spec fn le_bytes_u64(x: u64) -> Seq<u8> {
    Seq::new(8, |i: int| ((x >> (8 * i) as u64) & 0xff) as u8)
}

/// The little-endian bytes of a 128-bit number.
pub open spec fn le_bytes_u128(x: u128) -> Seq<u8> {
    Seq::new(16, |i: int| ((x >> (8 * i) as u128) & 0xff) as u8)
}

/// The number little-endian bytes stand for.
pub open spec fn from_le(b: Seq<u8>) -> nat
    decreases b.len(),
{
    if b.len() == 0 {
        0
    } else {
        (b[0] + 256 * from_le(b.drop_first())) as nat
    }
}

/// Reading back the bytes of a number gives the number.
pub proof fn lemma_le_bytes_u64_round_trip(x: u64)
    ensures
        from_le(le_bytes_u64(x)) == x,
{
    let b = le_bytes_u64(x);
    assert(b.drop_first().drop_first().drop_first().drop_first().drop_first().drop_first().drop_first().drop_first()
        =~= Seq::<u8>::empty());
    reveal_with_fuel(from_le, 9);
    let b0 = ((x >> 0u64) & 0xff) as u8;
    let b1 = ((x >> 8u64) & 0xff) as u8;
    let b2 = ((x >> 16u64) & 0xff) as u8;
    let b3 = ((x >> 24u64) & 0xff) as u8;
    let b4 = ((x >> 32u64) & 0xff) as u8;
    let b5 = ((x >> 40u64) & 0xff) as u8;
    let b6 = ((x >> 48u64) & 0xff) as u8;
    let b7 = ((x >> 56u64) & 0xff) as u8;
    assert(b[0] == b0 && b[1] == b1 && b[2] == b2 && b[3] == b3);
    assert(b[4] == b4 && b[5] == b5 && b[6] == b6 && b[7] == b7);
    assert(x == b0 + 256 * (b1 + 256 * (b2 + 256 * (b3 + 256 * (b4 + 256 * (b5 + 256 * (b6 + 256 * b7))))))) by (bit_vector)
        requires
            b0 == ((x >> 0u64) & 0xff) as u8,
            b1 == ((x >> 8u64) & 0xff) as u8,
            b2 == ((x >> 16u64) & 0xff) as u8,
            b3 == ((x >> 24u64) & 0xff) as u8,
            b4 == ((x >> 32u64) & 0xff) as u8,
            b5 == ((x >> 40u64) & 0xff) as u8,
            b6 == ((x >> 48u64) & 0xff) as u8,
            b7 == ((x >> 56u64) & 0xff) as u8,
    ;
}

/// Appends the little-endian bytes of `x`.
pub fn push_le_u64(v: &mut Vec<u8>, x: u64)
    ensures
        final(v)@ == old(v)@ + le_bytes_u64(x),
{
    let ghost start = v@;
    let mut i: u64 = 0;
    while i < 8
        invariant
            i <= 8,
            v@ == start + Seq::new(i as nat, |j: int| ((x >> (8 * j) as u64) & 0xff) as u8),
        decreases 8 - i,
    {
        v.push(((x >> (8 * i)) & 0xff) as u8);
        proof {
            assert(v@ =~= start + Seq::new((i + 1) as nat, |j: int| ((x >> (8 * j) as u64) & 0xff) as u8));
        }
        i = i + 1;
    }
    proof {
        assert(v@ =~= start + le_bytes_u64(x));
    }
}

/// Appends the little-endian bytes of `x`.
pub fn push_le_u128(v: &mut Vec<u8>, x: u128)
    ensures
        final(v)@ == old(v)@ + le_bytes_u128(x),
{
    let ghost start = v@;
    let mut i: u128 = 0;
    while i < 16
        invariant
            i <= 16,
            v@ == start + Seq::new(i as nat, |j: int| ((x >> (8 * j) as u128) & 0xff) as u8),
        decreases 16 - i,
    {
        v.push(((x >> (8 * i)) & 0xff) as u8);
        proof {
            assert(v@ =~= start + Seq::new((i + 1) as nat, |j: int| ((x >> (8 * j) as u128) & 0xff) as u8));
        }
        i = i + 1;
    }
    proof {
        assert(v@ =~= start + le_bytes_u128(x));
    }
}

/// The data of a swap on an order-book AMM pool: instruction 9, the input, and
/// the least output accepted.
pub fn raydium_swap_data(amount_in: u64, minimum_amount_out: u64) -> (r: Vec<u8>)
    ensures
        r@ == seq![9u8] + le_bytes_u64(amount_in) + le_bytes_u64(minimum_amount_out),
        r@.len() == 17,
        r@.subrange(1, 9) == le_bytes_u64(amount_in),
{
    let mut data: Vec<u8> = Vec::new();
    data.push(9u8);
    push_le_u64(&mut data, amount_in);
    push_le_u64(&mut data, minimum_amount_out);
    proof {
        assert(data@.subrange(1, 9) =~= le_bytes_u64(amount_in));
    }
    data
}

/// The data of a swap through the executor on an order-book market: instruction
/// 2, the input, the side, and the most orders it may match.
pub fn openbook_swap_data(in_amount: u64, is_bid: bool) -> (r: Vec<u8>)
    ensures
        r@ == seq![2u8] + le_bytes_u64(in_amount) + seq![if is_bid { 1u8 } else { 0u8 }, 10u8],
        r@.len() == 11,
{
    let mut data: Vec<u8> = Vec::new();
    data.push(2u8);
    push_le_u64(&mut data, in_amount);
    data.push(if is_bid { 1u8 } else { 0u8 });
    data.push(10u8);
    proof {
        assert(data@ =~= seq![2u8] + le_bytes_u64(in_amount) + seq![if is_bid { 1u8 } else { 0u8 }, 10u8]);
    }
    data
}

/// The SHA-256 digest of some bytes.
pub uninterp spec fn sha256(data: Seq<u8>) -> Seq<u8>;

/// `sha2::Sha256::digest`: the 32-byte SHA-256 digest of `data`.
#[verifier::external_body]
fn sha256_digest(data: &[u8]) -> (r: Vec<u8>)
    ensures
        r@ == sha256(data@),
        r@.len() == 32,
{
    sha2::Sha256::digest(data).to_vec()
}

/// The name a whirlpool's swap instruction is known by: `global:swap`.
pub open spec fn swap_instruction_name() -> Seq<u8> {
    seq![103u8, 108u8, 111u8, 98u8, 97u8, 108u8, 58u8, 115u8, 119u8, 97u8, 112u8]
}

/// The first eight bytes of the digest of the instruction's name.
pub fn whirlpool_swap_discriminator() -> (r: Vec<u8>)
    ensures
        r@ == sha256(swap_instruction_name()).subrange(0, 8),
        r@.len() == 8,
{
    let name: Vec<u8> = vec![103u8, 108u8, 111u8, 98u8, 97u8, 108u8, 58u8, 115u8, 119u8, 97u8, 112u8];
    proof {
        assert(name@ =~= swap_instruction_name());
    }
    let digest = sha256_digest(name.as_slice());
    let mut r: Vec<u8> = Vec::new();
    let mut i: usize = 0;
    while i < 8
        invariant
            i <= 8,
            digest@.len() == 32,
            r@ == digest@.subrange(0, i as int),
        decreases 8 - i,
    {
        r.push(digest[i]);
        proof {
            assert(r@ =~= digest@.subrange(0, i + 1));
        }
        i = i + 1;
    }
    r
}

/// The data of a swap on a whirlpool: the discriminator, the amount, the least
/// output accepted, the price limit, whether the amount is the input, and the
/// direction.
pub fn whirlpool_swap_data(
    amount: u64,
    other_amount_threshold: u64,
    sqrt_price_limit: u128,
    amount_specified_is_input: bool,
    a_to_b: bool,
) -> (r: Vec<u8>)
    ensures
        r@ == sha256(swap_instruction_name()).subrange(0, 8) + le_bytes_u64(amount) + le_bytes_u64(
            other_amount_threshold,
        ) + le_bytes_u128(sqrt_price_limit) + seq![
            if amount_specified_is_input { 1u8 } else { 0u8 },
            if a_to_b { 1u8 } else { 0u8 },
        ],
        r@.len() == 42,
        r@.subrange(8, 16) == le_bytes_u64(amount),
{
    let mut data = whirlpool_swap_discriminator();
    let ghost disc = data@;
    push_le_u64(&mut data, amount);
    push_le_u64(&mut data, other_amount_threshold);
    push_le_u128(&mut data, sqrt_price_limit);
    data.push(if amount_specified_is_input { 1u8 } else { 0u8 });
    data.push(if a_to_b { 1u8 } else { 0u8 });
    proof {
        assert(data@.subrange(8, 16) =~= le_bytes_u64(amount));
        assert(data@ =~= disc + le_bytes_u64(amount) + le_bytes_u64(other_amount_threshold) + le_bytes_u128(
            sqrt_price_limit,
        ) + seq![if amount_specified_is_input { 1u8 } else { 0u8 }, if a_to_b { 1u8 } else { 0u8 }]);
        assert(data@ == sha256(swap_instruction_name()).subrange(0, 8) + le_bytes_u64(amount) + le_bytes_u64(
            other_amount_threshold,
        ) + le_bytes_u128(sqrt_price_limit) + seq![
            if amount_specified_is_input { 1u8 } else { 0u8 },
            if a_to_b { 1u8 } else { 0u8 },
        ]);
    }
    data
}

/// A written account.
pub open spec fn rw(pubkey: Pubkey, is_signer: bool) -> AccountMetaSpec {
    AccountMetaSpec { pubkey, is_signer, is_writable: true }
}

/// An account only read.
pub open spec fn ro(pubkey: Pubkey) -> AccountMetaSpec {
    AccountMetaSpec { pubkey, is_signer: false, is_writable: false }
}

/// The accounts of a swap on an order-book AMM pool: the token program, the
/// pool, its authority, the pool again for each order-book account, the two
/// vaults, the user's two token accounts and the wallet, which signs.
pub fn raydium_swap_accounts(
    token_program: Pubkey,
    amm: Pubkey,
    amm_authority: Pubkey,
    coin_vault: Pubkey,
    pc_vault: Pubkey,
    user_source: Pubkey,
    user_destination: Pubkey,
    wallet: Pubkey,
) -> (r: Vec<AccountMetaSpec>)
    ensures
        r@ == seq![
            ro(token_program),
            rw(amm, false),
            ro(amm_authority),
            rw(amm, false),
            rw(coin_vault, false),
            rw(pc_vault, false),
        ] + Seq::new(8, |i: int| rw(amm, false)) + seq![
            rw(user_source, false),
            rw(user_destination, false),
            rw(wallet, true),
        ],
{
    let mut v: Vec<AccountMetaSpec> = Vec::new();
    v.push(AccountMetaSpec { pubkey: token_program, is_signer: false, is_writable: false });
    v.push(AccountMetaSpec { pubkey: amm, is_signer: false, is_writable: true });
    v.push(AccountMetaSpec { pubkey: amm_authority, is_signer: false, is_writable: false });
    v.push(AccountMetaSpec { pubkey: amm, is_signer: false, is_writable: true });
    v.push(AccountMetaSpec { pubkey: coin_vault, is_signer: false, is_writable: true });
    v.push(AccountMetaSpec { pubkey: pc_vault, is_signer: false, is_writable: true });
    let mut i: usize = 0;
    while i < 8
        invariant
            i <= 8,
            v@ == seq![
                ro(token_program),
                rw(amm, false),
                ro(amm_authority),
                rw(amm, false),
                rw(coin_vault, false),
                rw(pc_vault, false),
            ] + Seq::new(i as nat, |j: int| rw(amm, false)),
        decreases 8 - i,
    {
        v.push(AccountMetaSpec { pubkey: amm, is_signer: false, is_writable: true });
        proof {
            assert(v@ =~= seq![
                ro(token_program),
                rw(amm, false),
                ro(amm_authority),
                rw(amm, false),
                rw(coin_vault, false),
                rw(pc_vault, false),
            ] + Seq::new((i + 1) as nat, |j: int| rw(amm, false)));
        }
        i = i + 1;
    }
    v.push(AccountMetaSpec { pubkey: user_source, is_signer: false, is_writable: true });
    v.push(AccountMetaSpec { pubkey: user_destination, is_signer: false, is_writable: true });
    v.push(AccountMetaSpec { pubkey: wallet, is_signer: true, is_writable: true });
    proof {
        assert(v@ =~= seq![
            ro(token_program),
            rw(amm, false),
            ro(amm_authority),
            rw(amm, false),
            rw(coin_vault, false),
            rw(pc_vault, false),
        ] + Seq::new(8, |i: int| rw(amm, false)) + seq![
            rw(user_source, false),
            rw(user_destination, false),
            rw(wallet, true),
        ]);
    }
    v
}

/// The three tick arrays a whirlpool swap lists: each array that is not to be
/// used (it does not exist, was not fetched, or the swap fits in the first) is
/// replaced by the first.
pub open spec fn spec_tick_array_keys(
    first: Pubkey,
    second: Option<Pubkey>,
    third: Option<Pubkey>,
    second_fetched: bool,
    third_fetched: bool,
    only_first: bool,
) -> (Pubkey, Pubkey, Pubkey) {
    if only_first {
        (first, first, first)
    } else {
        (
            first,
            if second_fetched && second is Some { second.unwrap() } else { first },
            if third_fetched && third is Some { third.unwrap() } else { first },
        )
    }
}

pub fn tick_array_keys(
    first: Pubkey,
    second: Option<Pubkey>,
    third: Option<Pubkey>,
    second_fetched: bool,
    third_fetched: bool,
    only_first: bool,
) -> (r: (Pubkey, Pubkey, Pubkey))
    ensures
        r == spec_tick_array_keys(first, second, third, second_fetched, third_fetched, only_first),
{
    let b = match second {
        Some(k) => k,
        None => first,
    };
    let c = match third {
        Some(k) => k,
        None => first,
    };
    let b = if !second_fetched { first } else { b };
    let c = if !third_fetched { first } else { c };
    if only_first {
        (first, first, first)
    } else {
        (first, b, c)
    }
}

/// Whether a swap fits in the first tick array: simulated on all arrays and on
/// the first alone (`None` when a simulation failed, as zero), it gives the same
/// output, token b when selling a, token a when selling b.
pub fn fits_in_first_tick_array(a_to_b: bool, all: Option<(u64, u64)>, first_only: Option<(u64, u64)>) -> (r: bool)
    ensures
        r == if a_to_b {
            (match all { Some((_, b)) => b, None => 0 }) == (match first_only { Some((_, b)) => b, None => 0 })
        } else {
            (match all { Some((a, _)) => a, None => 0 }) == (match first_only { Some((a, _)) => a, None => 0 })
        },
{
    let (all_a, all_b) = match all {
        Some(p) => p,
        None => (0, 0),
    };
    let (first_a, first_b) = match first_only {
        Some(p) => p,
        None => (0, 0),
    };
    if a_to_b {
        all_b == first_b
    } else {
        all_a == first_a
    }
}

/// The accounts of a swap on a whirlpool: the token program, the wallet (which
/// signs), the pool, the user's account and the vault of each token, the three
/// tick arrays and the pool's oracle.
pub fn whirlpool_swap_accounts(
    token_program: Pubkey,
    wallet: Pubkey,
    pool: Pubkey,
    user_account_a: Pubkey,
    vault_a: Pubkey,
    user_account_b: Pubkey,
    vault_b: Pubkey,
    tick_arrays: (Pubkey, Pubkey, Pubkey),
    oracle: Pubkey,
) -> (r: Vec<AccountMetaSpec>)
    ensures
        r@ == seq![
            ro(token_program),
            rw(wallet, true),
            rw(pool, false),
            rw(user_account_a, false),
            rw(vault_a, false),
            rw(user_account_b, false),
            rw(vault_b, false),
            rw(tick_arrays.0, false),
            rw(tick_arrays.1, false),
            rw(tick_arrays.2, false),
            ro(oracle),
        ],
{
    let mut v: Vec<AccountMetaSpec> = Vec::new();
    v.push(AccountMetaSpec { pubkey: token_program, is_signer: false, is_writable: false });
    v.push(AccountMetaSpec { pubkey: wallet, is_signer: true, is_writable: true });
    v.push(AccountMetaSpec { pubkey: pool, is_signer: false, is_writable: true });
    v.push(AccountMetaSpec { pubkey: user_account_a, is_signer: false, is_writable: true });
    v.push(AccountMetaSpec { pubkey: vault_a, is_signer: false, is_writable: true });
    v.push(AccountMetaSpec { pubkey: user_account_b, is_signer: false, is_writable: true });
    v.push(AccountMetaSpec { pubkey: vault_b, is_signer: false, is_writable: true });
    v.push(AccountMetaSpec { pubkey: tick_arrays.0, is_signer: false, is_writable: true });
    v.push(AccountMetaSpec { pubkey: tick_arrays.1, is_signer: false, is_writable: true });
    v.push(AccountMetaSpec { pubkey: tick_arrays.2, is_signer: false, is_writable: true });
    v.push(AccountMetaSpec { pubkey: oracle, is_signer: false, is_writable: false });
    proof {
        assert(v@ =~= seq![
            ro(token_program),
            rw(wallet, true),
            rw(pool, false),
            rw(user_account_a, false),
            rw(vault_a, false),
            rw(user_account_b, false),
            rw(vault_b, false),
            rw(tick_arrays.0, false),
            rw(tick_arrays.1, false),
            rw(tick_arrays.2, false),
            ro(oracle),
        ]);
    }
    v
}

} // verus!
