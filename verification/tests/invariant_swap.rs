use autobahn_dex::decimals::{FeeGrowth, FixedPoint, Liquidity, Price, TokenAmount, PRICE_ONE};
use autobahn_dex::errors::ErrorCause;
use autobahn_dex::invariant_dex::{closest_tick_indexes, find_closest_tick_indexes, tick_indexes_around, PriceDirection};
use autobahn_dex::invariant_math::{
    calculate_price_sqrt, compute_swap_step, get_closer_limit, Pool, MAX_SQRT_PRICE, MIN_SQRT_PRICE,
};
use autobahn_dex::invariant_swap::{InvariantEdge, InvariantSimulationParams, InvariantSwapResult};
use autobahn_dex::tickmap::{get_search_limit, Tickmap};

fn pool() -> Pool {
    Pool {
        liquidity: Liquidity { v: 1_000_000_000_000 },
        sqrt_price: Price { v: PRICE_ONE },
        current_tick_index: 0,
        fee_growth_global_x: FeeGrowth { v: 0 },
        fee_growth_global_y: FeeGrowth { v: 0 },
        fee: FixedPoint { v: 3_000_000_000 },
        tick_spacing: 10,
    }
}

fn edge() -> InvariantEdge {
    InvariantEdge { ticks: vec![], pool: pool(), tickmap: Tickmap::new() }
}

#[test]
fn one_step_swap_by_input() {
    let params = InvariantSimulationParams {
        x_to_y: true,
        in_amount: 1000,
        sqrt_price_limit: Price { v: MIN_SQRT_PRICE },
        by_amount_in: true,
    };
    let r: InvariantSwapResult = edge().simulate_invariant_swap(&params).unwrap();
    assert_eq!(r.in_amount, 1000);
    assert_eq!(r.out_amount, 996);
    assert_eq!(r.fee_amount, 3);
    assert_eq!(r.starting_sqrt_price, Price { v: PRICE_ONE });
    assert_eq!(r.ending_sqrt_price, Price { v: 999003993018960096783507 });
    assert!(r.used_ticks.is_empty());
    assert!(!r.global_insufficient_liquidity);
    assert!(!r.ticks_accounts_outdated);
}

#[test]
fn quote_of_an_edge() {
    assert_eq!(edge().quote(true, 1000), Ok((1000, 996, 3)));
    assert_eq!(edge().quote(true, 0), Ok((0, 0, 0)));
    assert_eq!(edge().quote(false, 0), Ok((0, 0, 0)));
}

#[test]
fn quote_never_takes_more_than_offered() {
    for amount in [1u64, 10, 1000, 123_456] {
        let (i, _, f) = edge().quote(false, amount).unwrap();
        assert!(f <= i && i <= amount);
    }
}

#[test]
fn loop_break_limits() {
    assert_eq!(InvariantSwapResult::break_swap_loop_early(0, 0), Ok(false));
    assert!(InvariantSwapResult::break_swap_loop_early(u16::MAX, 1).is_err());
}

#[test]
fn closer_limit_finds_the_next_tick() {
    let mut tickmap = Tickmap::new();
    tickmap.flip(true, 50, 10);
    let r = get_closer_limit(Price { v: MAX_SQRT_PRICE }, false, 0, 10, &tickmap);
    assert_eq!(r, Ok((calculate_price_sqrt(50), Some((50, true)))));
    let limit = get_search_limit(0, 10, false);
    let r = get_closer_limit(Price { v: MIN_SQRT_PRICE }, true, 0, 10, &tickmap);
    assert_eq!(r, Ok((calculate_price_sqrt(limit), Some((limit, false)))));
    // A limit closer than the tick wins.
    let near = Price { v: PRICE_ONE + 1 };
    assert_eq!(get_closer_limit(near, false, 0, 10, &tickmap), Ok((near, None)));
}

#[test]
fn closer_limit_at_the_edge() {
    let tickmap = Tickmap::new();
    let r = get_closer_limit(Price { v: MAX_SQRT_PRICE }, false, 221_810, 10, &tickmap);
    assert_eq!(r, Err(ErrorCause::LimitReached));
}

#[test]
fn closest_ticks_each_way() {
    let mut tickmap = Tickmap::new();
    for t in [50, 100, 150, -30, -60] {
        tickmap.flip(true, t, 10);
    }
    assert_eq!(find_closest_tick_indexes(&pool(), &tickmap, 2, PriceDirection::UP), vec![50, 100]);
    assert_eq!(find_closest_tick_indexes(&pool(), &tickmap, 10, PriceDirection::UP), vec![50, 100, 150]);
    assert_eq!(find_closest_tick_indexes(&pool(), &tickmap, 2, PriceDirection::DOWN), vec![-30, -60]);
    assert_eq!(find_closest_tick_indexes(&pool(), &tickmap, 0, PriceDirection::DOWN), Vec::<i32>::new());
}

#[test]
fn steps_never_move_the_price_against_the_trade() {
    let cur = Price { v: PRICE_ONE };
    let fee = FixedPoint { v: 3_000_000_000 };
    for (target, by_in) in [(PRICE_ONE / 2, true), (PRICE_ONE / 2, false), (PRICE_ONE * 2, true), (PRICE_ONE * 2, false)] {
        for amount in [0u64, 1, 1000, 1_000_000_000] {
            let r = compute_swap_step(cur, Price { v: target }, Liquidity { v: 1_000_000_000_000 }, TokenAmount(amount), by_in, fee)
                .unwrap();
            if target < PRICE_ONE {
                assert!(target <= r.next_price_sqrt.v && r.next_price_sqrt.v <= PRICE_ONE);
            } else {
                assert!(PRICE_ONE <= r.next_price_sqrt.v && r.next_price_sqrt.v <= target);
            }
        }
    }
}

#[test]
fn ticks_around_the_pool() {
    let mut tickmap = Tickmap::new();
    for t in [50, 100, 150, -30, -60] {
        tickmap.flip(true, t, 10);
    }
    assert_eq!(closest_tick_indexes(&pool(), &tickmap, PriceDirection::UP), vec![50, 100, 150]);
    assert_eq!(closest_tick_indexes(&pool(), &tickmap, PriceDirection::DOWN), vec![-30, -60]);
    assert_eq!(tick_indexes_around(&pool(), &tickmap), vec![-30, -60, 50, 100, 150]);
}

#[test]
fn a_step_selling_x_may_stop_just_below_its_target() {
    let r = compute_swap_step(
        Price { v: 625110398875199032261 },
        Price { v: 623836230584859323451 },
        Liquidity { v: 715225753902612482626209 },
        TokenAmount(2343945240226586204),
        true,
        FixedPoint { v: 3_000_000_000 },
    )
    .unwrap();
    assert_eq!(r.next_price_sqrt.v, 623836230584859323450);
    assert_eq!(r.amount_in, TokenAmount(2336913404505906448));
    assert_eq!(r.amount_out, TokenAmount(911317976057));
    assert_eq!(r.fee_amount, TokenAmount(7031835720679756));
}

#[test]
fn quote_by_output_quotes_the_amount_as_input() {
    assert_eq!(edge().quote_exact_out(true, 1000), Ok((1000, 996, 3)));
    assert_eq!(edge().quote_exact_out(true, 1000), edge().quote(true, 1000));
}

#[test]
fn a_fee_above_one_fails_only_when_a_step_fee_overflows() {
    let mut e = edge();
    e.pool.fee = FixedPoint { v: 1_000_000_000_000_000_000_000_000_000_000 };
    let by_output = |amount: u64| InvariantSimulationParams {
        x_to_y: true,
        in_amount: amount,
        sqrt_price_limit: Price { v: MIN_SQRT_PRICE },
        by_amount_in: false,
    };
    let r = e.simulate_invariant_swap(&by_output(0)).unwrap();
    assert_eq!((r.in_amount, r.out_amount, r.fee_amount), (0, 0, 0));
    assert_eq!(r.ending_sqrt_price, Price { v: PRICE_ONE });
    assert_eq!(e.simulate_invariant_swap(&by_output(1000)).err(), Some("fee amount overflow".to_string()));
}

#[test]
fn swaps_move_the_price_in_their_direction() {
    for x_to_y in [true, false] {
        for by_amount_in in [true, false] {
            for amount in [1u64, 1000, 1_000_000, 1_000_000_000] {
                let mut tickmap = Tickmap::new();
                for t in [50, 100, 150, -30, -60] {
                    tickmap.flip(true, t, 10);
                }
                let e = InvariantEdge { ticks: vec![], pool: pool(), tickmap };
                let params = InvariantSimulationParams {
                    x_to_y,
                    in_amount: amount,
                    sqrt_price_limit: Price { v: if x_to_y { MIN_SQRT_PRICE } else { MAX_SQRT_PRICE } },
                    by_amount_in,
                };
                // By output, a step that costs more input than the amount left fails.
                let r = match e.simulate_invariant_swap(&params) {
                    Ok(r) => r,
                    Err(_) => {
                        assert!(!by_amount_in);
                        continue;
                    }
                };
                if x_to_y {
                    assert!(r.ending_sqrt_price.v <= r.starting_sqrt_price.v);
                } else {
                    assert!(r.ending_sqrt_price.v >= r.starting_sqrt_price.v);
                }
            }
        }
    }
}

#[test]
fn selling_x_from_below_the_tick_limit_first_moves_toward_it() {
    let mut e = edge();
    e.pool.tick_spacing = 1;
    e.pool.current_tick_index = -44_364;
    e.pool.sqrt_price = calculate_price_sqrt(-44_364);
    let params = InvariantSimulationParams {
        x_to_y: true,
        in_amount: 1000,
        sqrt_price_limit: Price { v: MIN_SQRT_PRICE },
        by_amount_in: true,
    };
    let r = e.simulate_invariant_swap(&params).unwrap();
    assert!(r.ending_sqrt_price.v > r.starting_sqrt_price.v);
    assert!(r.global_insufficient_liquidity);
}

#[test]
fn a_step_by_input_spends_at_most_its_amount() {
    let cur = Price { v: PRICE_ONE };
    let fee = FixedPoint { v: 3_000_000_000 };
    let l = Liquidity { v: 1_000_000_000_000 };
    // Short of the target: input and fee make up the whole amount.
    for target in [PRICE_ONE / 2, PRICE_ONE * 2] {
        let r = compute_swap_step(cur, Price { v: target }, l, TokenAmount(1000), true, fee).unwrap();
        assert!(r.next_price_sqrt.v != target);
        assert_eq!(r.amount_in.0 + r.fee_amount.0, 1000);
    }
    // At the target: input and fee stay within the amount.
    for target in [PRICE_ONE - 1_000_000_000_000_000_000, PRICE_ONE + 1_000_000_000_000_000_000] {
        let r = compute_swap_step(cur, Price { v: target }, l, TokenAmount(1_000_000), true, fee).unwrap();
        assert_eq!(r.next_price_sqrt.v, target);
        assert!(r.amount_in.0 + r.fee_amount.0 <= 1_000_000);
    }
}
