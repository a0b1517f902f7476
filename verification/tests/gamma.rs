use autobahn_dex::gamma::{
    ceil_div, closed_pool_quote, floor_div, ConstantProductCurve, CurveCalculator, DynamicFee, GammaError, Observation, ObservationState,
    PoolState, PoolStatusBitIndex, StaticFee, TradeDirection,
};

#[test]
fn status_bits() {
    let open = PoolState { status: 0, open_time: 0 };
    assert!(open.get_status_by_bit(PoolStatusBitIndex::Swap));
    let no_swap = PoolState { status: 4, open_time: 0 };
    assert!(!no_swap.get_status_by_bit(PoolStatusBitIndex::Swap));
    assert!(no_swap.get_status_by_bit(PoolStatusBitIndex::Deposit));
    assert!(no_swap.get_status_by_bit(PoolStatusBitIndex::Withdraw));
    let no_deposit = PoolState { status: 1, open_time: 0 };
    assert!(!no_deposit.get_status_by_bit(PoolStatusBitIndex::Deposit));
}

#[test]
fn opposite_direction() {
    assert_eq!(TradeDirection::ZeroForOne.opposite(), TradeDirection::OneForZero);
    assert_eq!(TradeDirection::OneForZero.opposite(), TradeDirection::ZeroForOne);
}

#[test]
fn fee_divisions() {
    assert_eq!(ceil_div(10, 3, 4), Some(8));
    assert_eq!(floor_div(10, 3, 4), Some(7));
    assert_eq!(ceil_div(1, 1, 0), None);
    assert_eq!(floor_div(u128::MAX, 2, 1), None);
    assert_eq!(StaticFee::trading_fee(1_000_000, 2500), Some(2500));
    assert_eq!(StaticFee::protocol_fee(1000, 120000), Some(120));
    assert_eq!(StaticFee::fund_fee(1000, 40000), Some(40));
    assert_eq!(DynamicFee::dynamic_fee(1000, 10000), Ok(10));
    assert_eq!(DynamicFee::dynamic_fee(u128::MAX, 2), Err(GammaError::MathOverflow));
    assert_eq!(DynamicFee::calculate_pre_fee_amount(501, 10000), Ok(507));
    assert_eq!(DynamicFee::calculate_pre_fee_amount(501, 0), Ok(501));
    assert_eq!(DynamicFee::calculate_pre_fee_amount(501, 1_000_000), Err(GammaError::MathOverflow));
}

#[test]
fn curve_without_fees() {
    assert_eq!(ConstantProductCurve::swap_base_input_without_fees(990, 1_000_000, 2_000_000), Ok(1978));
    assert_eq!(ConstantProductCurve::swap_base_output_without_fees(1000, 1_000_000, 2_000_000), Ok(501));
    assert_eq!(ConstantProductCurve::swap_base_output_without_fees(3_000_000, 1_000_000, 2_000_000), Err(GammaError::MathOverflow));
    assert_eq!(ConstantProductCurve::swap_base_output_without_fees(1, 1, 100), Err(GammaError::MathOverflow));
}

#[test]
fn swap_by_input() {
    let r = CurveCalculator::swap_base_input(1000, 1_000_000, 2_000_000, 10000, 120000, 40000).unwrap();
    assert_eq!(r.new_swap_source_amount, 1_001_000);
    assert_eq!(r.new_swap_destination_amount, 1_998_022);
    assert_eq!(r.source_amount_swapped, 1000);
    assert_eq!(r.destination_amount_swapped, 1978);
    assert_eq!(r.dynamic_fee, 10);
    assert_eq!(r.protocol_fee, 1);
    assert_eq!(r.fund_fee, 0);
}

#[test]
fn swap_by_output() {
    let r = CurveCalculator::swap_base_output(1000, 1_000_000, 2_000_000, 10000, 120000, 40000).unwrap();
    assert_eq!(r.new_swap_source_amount, 1_000_507);
    assert_eq!(r.new_swap_destination_amount, 1_999_000);
    assert_eq!(r.source_amount_swapped, 507);
    assert_eq!(r.destination_amount_swapped, 1000);
    assert_eq!(r.dynamic_fee, 6);
    assert_eq!(r.protocol_fee, 0);
    assert_eq!(r.fund_fee, 0);
}

#[test]
fn gamma_swap_by_input_keeps_the_product() {
    for amount in [1u128, 999, 10_000, 777_777, 50_000_000] {
        let r = CurveCalculator::swap_base_input(amount, 1_000_000, 2_000_000, 2500, 120000, 40000).unwrap();
        assert!(r.new_swap_source_amount * r.new_swap_destination_amount >= 1_000_000u128 * 2_000_000);
        assert!(r.protocol_fee + r.fund_fee <= r.dynamic_fee);
    }
}

fn observation(ts: u64, p0: u128) -> Observation {
    Observation { block_timestamp: ts, cumulative_token0_price_x32: p0, cumulative_token1_price_x32: 1 }
}

#[test]
fn price_range_of_observations() {
    let mut state = ObservationState { observations: [Observation::default(); 100] };
    state.observations[0] = observation(1000, 10_000);
    state.observations[1] = observation(1010, 10_500);
    state.observations[2] = observation(1020, 11_200);
    assert_eq!(DynamicFee::get_price_range(&state, 1030, 3600), Ok((50, 70, 60)));
    // Only the newest two lie in the window; each is still compared with the one before it.
    assert_eq!(DynamicFee::get_price_range(&state, 1020, 10), Ok((50, 70, 70)));
}

#[test]
fn price_range_needs_two_observations() {
    let mut state = ObservationState { observations: [Observation::default(); 100] };
    assert_eq!(DynamicFee::get_price_range(&state, 1030, 3600), Ok((0, 0, 0)));
    state.observations[5] = observation(1000, 10_000);
    assert_eq!(DynamicFee::get_price_range(&state, 1030, 3600), Ok((0, 0, 0)));
}

#[test]
fn gamma_swap_by_output_keeps_the_product() {
    // Below two units out the input would round to nothing, which the curve refuses.
    assert_eq!(CurveCalculator::swap_base_output(1, 1_000_000, 2_000_000, 2500, 120000, 40000), Err(GammaError::MathOverflow));
    for amount in [2u128, 999, 10_000, 777_777, 1_999_999] {
        let r = CurveCalculator::swap_base_output(amount, 1_000_000, 2_000_000, 2500, 120000, 40000).unwrap();
        assert!(r.new_swap_source_amount * r.new_swap_destination_amount >= 1_000_000u128 * 2_000_000);
    }
}

#[test]
fn quotes_of_closed_pools() {
    let open = PoolState { status: 0, open_time: 100 };
    assert_eq!(closed_pool_quote(&open, 100, false), None);
    assert_eq!(closed_pool_quote(&open, 99, false), Some((0, 0, 0)));
    assert_eq!(closed_pool_quote(&open, 99, true), Some((u64::MAX, 0, 0)));
    let no_swap = PoolState { status: 4, open_time: 0 };
    assert_eq!(closed_pool_quote(&no_swap, 99, false), Some((0, 0, 0)));
}

#[test]
fn the_fee_on_the_pre_fee_amount_leaves_the_post_fee_amount() {
    for &(post, rate) in &[(501u128, 10000u64), (1u128, 999_999u64), (1_000_000u128, 2500u64), (7u128, 1u64)] {
        let pre = DynamicFee::calculate_pre_fee_amount(post, rate).unwrap();
        assert!(pre >= post);
        let fee = DynamicFee::dynamic_fee(pre, rate).unwrap();
        assert!(pre - fee >= post);
    }
    assert_eq!(DynamicFee::dynamic_fee(507, 10000), Ok(6));
}
