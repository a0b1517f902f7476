use autobahn_dex::invariant_accounts::{
    swap_direction, AccountMetaSpec, InvariantPoolKeys, InvariantSwapAccounts, InvariantSwapParams, SwapAccountsError,
};

fn keys() -> InvariantPoolKeys {
    InvariantPoolKeys { tickmap: [1; 32], token_x: [2; 32], token_y: [3; 32], token_x_reserve: [4; 32], token_y_reserve: [5; 32] }
}

fn params(source_mint: [u8; 32], destination_mint: [u8; 32]) -> InvariantSwapParams {
    InvariantSwapParams {
        owner: [9; 32],
        source_mint,
        destination_mint,
        source_account: [10; 32],
        destination_account: [11; 32],
        referral_fee: None,
    }
}

#[test]
fn direction_of_a_swap() {
    assert_eq!(swap_direction(&keys(), &params([2; 32], [3; 32])), Ok((true, [10; 32], [11; 32])));
    assert_eq!(swap_direction(&keys(), &params([3; 32], [2; 32])), Ok((false, [11; 32], [10; 32])));
    assert_eq!(swap_direction(&keys(), &params([2; 32], [2; 32])), Err(SwapAccountsError::InvalidMints));
    assert_eq!(SwapAccountsError::InvalidMints.message(), "Invalid source or destination mint");
}

#[test]
fn accounts_of_a_swap() {
    let (a, x_to_y) = InvariantSwapAccounts::from_pubkeys(
        &keys(),
        [20; 32],
        &params([3; 32], [2; 32]),
        [21; 32],
        [22; 32],
        [23; 32],
        [24; 32],
        vec![[30; 32], [31; 32]],
    )
    .unwrap();
    assert!(!x_to_y);
    assert_eq!((a.account_x, a.account_y), ([11; 32], [10; 32]));
    let metas = a.to_account_metas();
    assert_eq!(metas.len(), 15);
    assert_eq!(metas[0], AccountMetaSpec { pubkey: [21; 32], is_signer: false, is_writable: false });
    assert_eq!(metas[1], AccountMetaSpec { pubkey: [20; 32], is_signer: false, is_writable: true });
    assert_eq!(metas[9], AccountMetaSpec { pubkey: [9; 32], is_signer: true, is_writable: true });
    assert_eq!(metas[10], AccountMetaSpec { pubkey: [22; 32], is_signer: false, is_writable: false });
    assert_eq!(metas[12], AccountMetaSpec { pubkey: [24; 32], is_signer: false, is_writable: false });
    assert_eq!(metas[13], AccountMetaSpec { pubkey: [30; 32], is_signer: false, is_writable: true });
    assert_eq!(metas[14], AccountMetaSpec { pubkey: [31; 32], is_signer: false, is_writable: true });
    assert_eq!(metas.iter().filter(|m| m.is_signer).count(), 1);
}
