use autobahn_dex::openbook::{input_lots, market_order, order_quote, plan_quote, MarketOrder, QuotePlan};

#[test]
fn lots_of_an_input() {
    assert_eq!(input_lots(1050, 10), (105, 1050));
    assert_eq!(input_lots(1050, 100), (10, 1000));
    assert_eq!(input_lots(99, 100), (0, 0));
    assert_eq!(input_lots(1050, -10), (-105, 1050));
    // Amounts above i64::MAX read as negative numbers.
    assert_eq!(input_lots(u64::MAX, 10), (0, 0));
    assert_eq!(input_lots((1u64 << 63) + 5, 10), (-922337203685477580, 9223372036854775816));
    assert_eq!(input_lots(1u64 << 63, 1), (i64::MIN, 1u64 << 63));
}

#[test]
fn orders_of_a_quote() {
    let (bid, native) = market_order(true, 1050, 100, 10, 77, 88);
    assert_eq!(bid, MarketOrder { is_bid: true, max_base_lots: 77, max_quote_lots_including_fees: 105 });
    assert_eq!(native, 1050);
    let (ask, native) = market_order(false, 1050, 100, 10, 77, 88);
    assert_eq!(ask, MarketOrder { is_bid: false, max_base_lots: 10, max_quote_lots_including_fees: 88 });
    assert_eq!(native, 1000);
    assert_eq!(order_quote(true, 1050, 7, 9, 1), (1050, 7, 1));
    assert_eq!(order_quote(false, 1050, 7, 9, 1), (1050, 9, 1));
}

#[test]
fn quote_by_output_is_refused() {
    assert_eq!(autobahn_dex::openbook::order_quote_exact_out(5), (u64::MAX, 0, 0, [0u8; 32]));
}

#[test]
fn quotes_before_matching() {
    assert_eq!(plan_quote(false, true, true, 1050, 100, 10, 77, 88), QuotePlan::Quote(0, 0, 0));
    assert_eq!(plan_quote(true, false, false, 1050, 100, 10, 77, 88), QuotePlan::Quote(0, 0, 0));
    assert_eq!(plan_quote(true, true, false, 99, 100, 10, 77, 88), QuotePlan::Quote(0, 0, 0));
    assert_eq!(
        plan_quote(true, true, true, 1050, 100, 10, 77, 88),
        QuotePlan::Match(MarketOrder { is_bid: true, max_base_lots: 77, max_quote_lots_including_fees: 105 }, 1050)
    );
}
