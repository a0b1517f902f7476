use autobahn_dex::cp_swap::{
    check_swap_allowed, curve_amount_out, same_key, select_reserves, swap_base_input_quote,
    swap_base_input_reserves, swap_base_output_amount, swap_base_output_quote, swap_base_output_reserves,
    swap_status_enabled, vault_amount_without_fee, CpPoolState, CpSwapError, CurveSwapResult,
};
use autobahn_dex::gamma::TradeDirection;

fn pool() -> CpPoolState {
    CpPoolState {
        status: 0,
        open_time: 0,
        token_0_vault: [1; 32],
        token_1_vault: [2; 32],
        protocol_fees_token_0: 10,
        fund_fees_token_0: 5,
        protocol_fees_token_1: 0,
        fund_fees_token_1: 20,
    }
}

#[test]
fn keys_compare_bytewise() {
    assert!(same_key(&[7; 32], &[7; 32]));
    let mut k = [7u8; 32];
    k[31] = 8;
    assert!(!same_key(&[7; 32], &k));
}

#[test]
fn swap_gate() {
    assert!(swap_status_enabled(&pool()));
    let mut p = pool();
    p.status = 4;
    assert!(!swap_status_enabled(&p));
    assert_eq!(check_swap_allowed(&p), Err(CpSwapError::NotApproved));
    p.status = 3;
    assert_eq!(check_swap_allowed(&p), Ok(()));
    p.open_time = u64::MAX;
    assert_eq!(check_swap_allowed(&p), Err(CpSwapError::Panicked));
    assert_eq!(CpSwapError::NotApproved.message(), "not approved");
}

#[test]
fn reserves_without_owed_fees() {
    assert_eq!(vault_amount_without_fee(&pool(), 1000, 500), Ok((985, 480)));
    assert_eq!(vault_amount_without_fee(&pool(), 14, 500), Err(CpSwapError::InvalidSub));
    assert_eq!(select_reserves(&pool(), &[1; 32], 1000, &[2; 32], 500), Ok((TradeDirection::ZeroForOne, 985, 480)));
    assert_eq!(select_reserves(&pool(), &[2; 32], 1000, &[1; 32], 500), Ok((TradeDirection::OneForZero, 980, 485)));
    assert_eq!(select_reserves(&pool(), &[3; 32], 1000, &[1; 32], 500), Err(CpSwapError::InvalidVault));
    let mut p = pool();
    p.protocol_fees_token_1 = u64::MAX;
    assert_eq!(select_reserves(&p, &[1; 32], 1000, &[2; 32], 500), Err(CpSwapError::Panicked));
}

#[test]
fn quote_by_input_steps() {
    let p = pool();
    assert_eq!(swap_base_input_reserves(&p, &[1; 32], 1000, &[2; 32], 500, 100, 100), Err(CpSwapError::AmountInZero));
    assert_eq!(swap_base_input_reserves(&p, &[1; 32], 1000, &[2; 32], 500, 100, 10), Ok((90, 985, 480)));
    let c = CurveSwapResult { source_amount_swapped: 90, destination_amount_swapped: 50, trade_fee: 1, protocol_fee: 0, fund_fee: 0 };
    assert_eq!(curve_amount_out(&c), Ok(50));
    assert_eq!(swap_base_input_quote(100, None, 0), Ok((u64::MAX, 0, 0)));
    assert_eq!(swap_base_input_quote(100, Some(c), 5), Ok((100, 45, 1)));
    assert_eq!(swap_base_input_quote(100, Some(c), 60), Err(CpSwapError::Panicked));
    let big = CurveSwapResult { destination_amount_swapped: u64::MAX as u128 + 1, ..c };
    assert_eq!(curve_amount_out(&big), Err(CpSwapError::Panicked));
}

#[test]
fn quote_by_output_steps() {
    let p = pool();
    assert_eq!(swap_base_output_amount(0, 5), Err(CpSwapError::AmountOutZero));
    assert_eq!(swap_base_output_amount(10, 5), Ok(15));
    assert_eq!(swap_base_output_amount(u64::MAX, 1), Err(CpSwapError::Panicked));
    assert_eq!(swap_base_output_reserves(&p, &[1; 32], 1000, &[2; 32], 500, 481), Err(CpSwapError::NotEnoughTokens));
    assert_eq!(swap_base_output_reserves(&p, &[1; 32], 1000, &[2; 32], 500, 480), Ok((985, 480)));
    assert_eq!(swap_base_output_quote(None), Err(CpSwapError::CannotSwap));
    let c = CurveSwapResult { source_amount_swapped: 100, destination_amount_swapped: 50, trade_fee: 2, protocol_fee: 1, fund_fee: 0 };
    assert_eq!(swap_base_output_quote(Some(c)), Ok((103, 50, 3)));
}
