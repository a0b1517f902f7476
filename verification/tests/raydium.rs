use autobahn_dex::raydium_math::{AmmError, AmmInfo, CalcError, Calculator, CheckedCeilDiv, Fees, StateData, SwapDirection};
use autobahn_dex::raydium_pool::{
    raydium_quote, raydium_quote_exact_out, simulate_swap_base_in, simulate_swap_base_out, AmmStatus,
};

fn pool(status: u64) -> AmmInfo {
    AmmInfo {
        status,
        state_data: StateData { need_take_pnl_coin: 0, need_take_pnl_pc: 0, pool_open_time: 0 },
        fees: Fees { swap_fee_numerator: 25, swap_fee_denominator: 10000 },
    }
}

#[test]
fn fibonacci_first_ten() {
    assert_eq!(Calculator::fibonacci(10), vec![0, 1, 2, 3, 5, 8, 13, 21, 34, 55]);
    assert_eq!(Calculator::fibonacci(0), Vec::<u64>::new());
    assert_eq!(Calculator::fibonacci(1), vec![0]);
}

#[test]
fn ceil_div_adjusts_the_divisor() {
    assert_eq!(400u128.checked_ceil_div(32), Some((13, 31)));
    assert_eq!(100000u128.checked_ceil_div(900), Some((112, 893)));
    assert_eq!(64u128.checked_ceil_div(8), Some((8, 8)));
    // A divisor larger than the dividend fails rather than give 1 / 1000 = 1.
    assert_eq!(1u128.checked_ceil_div(1000), None);
    assert_eq!(600u128.checked_ceil_div(1000), None);
    assert_eq!(1000u128.checked_ceil_div(1000), Some((1, 1000)));
    assert_eq!(5u128.checked_ceil_div(0), None);
}

#[test]
fn conversions() {
    assert_eq!(Calculator::to_u128(7), Ok(7u128));
    assert_eq!(Calculator::to_u64(u64::MAX as u128), Ok(u64::MAX));
    assert_eq!(Calculator::to_u64(u64::MAX as u128 + 1), Err(AmmError::ConversionFailure));
}

#[test]
fn decimals_round_trip() {
    assert_eq!(Calculator::normalize_decimal(5, 6, 1_000_000_000), Ok(5000));
    assert_eq!(Calculator::restore_decimal(5000, 6, 1_000_000_000), Ok(5));
    assert_eq!(Calculator::restore_decimal(1, 6, 0), Err(CalcError::Div));
    assert_eq!(Calculator::normalize_decimal(u64::MAX, 0, u64::MAX), Err(CalcError::Amm(AmmError::ConversionFailure)));
    assert_eq!(Calculator::normalize_decimal(1, 40, 1), Err(CalcError::Pow));
}

#[test]
fn pc_lot_size() {
    assert_eq!(Calculator::convert_in_pc_lot_size(6, 9, 100, 1_000_000, 1_000_000_000), Ok(100_000_000));
    assert_eq!(Calculator::convert_in_pc_lot_size(6, 9, 100, 0, 1_000_000_000), Err(CalcError::Div));
}

#[test]
fn token_amounts() {
    assert_eq!(Calculator::swap_token_amount_base_in(100, 1000, 1000, SwapDirection::Coin2PC), Ok(90));
    assert_eq!(Calculator::swap_token_amount_base_in(0, 0, 1000, SwapDirection::PC2Coin), Err(CalcError::Div));
    assert_eq!(Calculator::swap_token_amount_base_out(100, 1000, 1000, SwapDirection::Coin2PC), Ok(112));
    assert_eq!(Calculator::swap_token_amount_base_out(1001, 1000, 1000, SwapDirection::PC2Coin), Err(CalcError::Sub));
    assert_eq!(Calculator::swap_token_amount_base_out(1, 1000, 1, SwapDirection::Coin2PC), Err(CalcError::CeilDiv));
    assert_eq!(CalcError::CeilDiv.message(), "ceil div error");
}

#[test]
fn totals_without_pnl() {
    let mut amm = pool(6);
    amm.state_data.need_take_pnl_pc = 10;
    amm.state_data.need_take_pnl_coin = 3;
    assert_eq!(Calculator::calc_total_without_take_pnl_no_orderbook(100, 50, &amm), Ok((90, 47)));
    assert_eq!(Calculator::calc_total_without_take_pnl_no_orderbook(5, 50, &amm), Err(CalcError::Sub));
}

#[test]
fn status_permissions() {
    assert!(AmmStatus::from_u64(1).swap_permission());
    assert!(AmmStatus::from_u64(6).swap_permission());
    assert!(AmmStatus::from_u64(7).swap_permission());
    assert!(!AmmStatus::from_u64(2).swap_permission());
    assert!(!AmmStatus::from_u64(5).swap_permission());
}

#[test]
fn simulate_by_input() {
    let amm = pool(6);
    assert_eq!(simulate_swap_base_in(&amm, 1_000_000, 2_000_000, SwapDirection::Coin2PC, 10_000), Ok((19752, 25)));
    assert_eq!(
        simulate_swap_base_in(&pool(2), 1_000_000, 2_000_000, SwapDirection::Coin2PC, 10_000),
        Err(CalcError::Amm(AmmError::InvalidStatus))
    );
    assert_eq!(raydium_quote(&amm, 1_000_000, 2_000_000, false, 10_000), Ok((10_000, 19752, 25)));
}

#[test]
fn simulate_by_output() {
    let amm = pool(6);
    assert_eq!(simulate_swap_base_out(&amm, 1_000_000, 2_000_000, SwapDirection::Coin2PC, 10_000), Ok((5026, 13)));
    assert_eq!(raydium_quote_exact_out(&amm, 1_000_000, 2_000_000, false, 10_000), Ok((5039, 10_000, 13)));
}

#[test]
fn raydium_swap_by_input_keeps_the_product() {
    let (coin, pc) = (1_000_000u128, 2_000_000u128);
    for amount in [1u128, 77, 10_000, 999_999, 5_000_000] {
        let out = Calculator::swap_token_amount_base_in(amount, pc, coin, SwapDirection::Coin2PC).unwrap();
        assert!((coin + amount) * (pc - out) >= coin * pc);
    }
}

#[test]
fn restoring_a_normalized_amount_gives_at_most_the_amount() {
    for &(val, native, sys) in &[(5u64, 6u64, 1_000_000_000u64), (123_456_789, 9, 1_000_000), (7, 3, 9), (999, 0, 7)] {
        let r = Calculator::normalize_decimal(val, native, sys).unwrap();
        let x = Calculator::restore_decimal(r as u128, native, sys).unwrap();
        assert!(x <= val as u128);
        assert_eq!(x, (r as u128) * 10u128.pow(native as u32) / (sys as u128));
    }
    // 7 with 3 decimals at a system scale of 9: 7 * 9 / 1000 = 0, restored as 0.
    assert_eq!(Calculator::normalize_decimal(7, 3, 9), Ok(0));
    assert_eq!(Calculator::restore_decimal(123_456, 9, 1_000_000), Ok(123_456_000));
}
