use autobahn_dex::cp_swap::CpPoolState;
use autobahn_dex::gobbler::{
    gobbler_fee_rates, gobbler_reserves, gobbler_swap_base_input_call, gobbler_swap_base_input_quote,
    gobbler_swap_base_output_call, gobbler_swap_base_output_quote, pool_edges, pool_is_routed, pool_needed_accounts,
    vault_amount_without_fee, CurveCall, Direction, GobblerAmmConfig, GobblerEdgeIdentifier, GobblerError,
    GobblerPoolKeys, Operation,
};

fn edge(operation: Operation, direction: Direction) -> GobblerEdgeIdentifier {
    GobblerEdgeIdentifier { pool: [9; 32], mint_a: [1; 32], mint_b: [2; 32], lp_mint: [3; 32], operation, direction }
}

fn pool() -> CpPoolState {
    CpPoolState {
        status: 0,
        open_time: 5,
        token_0_vault: [1; 32],
        token_1_vault: [2; 32],
        protocol_fees_token_0: 10,
        fund_fees_token_0: 5,
        protocol_fees_token_1: 0,
        fund_fees_token_1: 20,
    }
}

fn config() -> GobblerAmmConfig {
    GobblerAmmConfig { token_0_creator_rate: 100, token_1_creator_rate: 200, token_0_lp_rate: 300, token_1_lp_rate: 400 }
}

#[test]
fn mints_of_edges() {
    assert_eq!(edge(Operation::Swap, Direction::AtoB).input_mint(), [1; 32]);
    assert_eq!(edge(Operation::Swap, Direction::AtoB).output_mint(), [2; 32]);
    assert_eq!(edge(Operation::Swap, Direction::BtoA).input_mint(), [2; 32]);
    assert_eq!(edge(Operation::Swap, Direction::BtoA).output_mint(), [1; 32]);
    assert_eq!(edge(Operation::Swap, Direction::AandBtoLP).input_mint(), [1; 32]);
    assert_eq!(edge(Operation::Deposit, Direction::AandBtoLP).input_mint(), [1; 32]);
    assert_eq!(edge(Operation::Deposit, Direction::AandBtoLP).output_mint(), [3; 32]);
    assert_eq!(edge(Operation::Withdraw, Direction::LPtoAandB).input_mint(), [3; 32]);
    assert_eq!(edge(Operation::Withdraw, Direction::LPtoAandB).output_mint(), [1; 32]);
    assert_eq!(edge(Operation::Withdraw, Direction::LPtoAandB).key(), [9; 32]);
    assert_eq!(edge(Operation::Swap, Direction::AtoB).accounts_needed(), 11);
}

#[test]
fn names_of_edges() {
    assert_eq!(edge(Operation::Swap, Direction::AtoB).operation_string(), "Swap");
    assert_eq!(edge(Operation::Deposit, Direction::AandBtoLP).operation_string(), "Deposit");
    assert_eq!(edge(Operation::Withdraw, Direction::LPtoAandB).operation_string(), "Withdraw");
    assert_eq!(edge(Operation::Swap, Direction::BtoA).direction_string(), "BtoA");
    assert_eq!(edge(Operation::Deposit, Direction::AandBtoLP).direction_string(), "AandBtoLP");
    assert_eq!(edge(Operation::Withdraw, Direction::LPtoAandB).direction_string(), "LPtoAandB");
}

#[test]
fn edges_and_accounts_of_a_pool() {
    let keys = GobblerPoolKeys {
        pool: [9; 32],
        amm_config: [8; 32],
        token_0_vault: [7; 32],
        token_1_vault: [6; 32],
        lp_mint: [5; 32],
        token_0_mint: [4; 32],
        token_1_mint: [3; 32],
    };
    let edges = pool_edges(&keys);
    assert_eq!(edges.len(), 4);
    assert_eq!(edges[0].operation, Operation::Swap);
    assert_eq!(edges[0].direction, Direction::AtoB);
    assert_eq!((edges[1].mint_a, edges[1].mint_b), ([3; 32], [4; 32]));
    assert_eq!(edges[2].output_mint(), [5; 32]);
    assert_eq!(edges[3].input_mint(), [5; 32]);
    assert!(edges.iter().all(|e| e.pool == [9; 32] && e.lp_mint == [5; 32]));
    assert_eq!(pool_needed_accounts(&keys), vec![[9; 32], [8; 32], [7; 32], [6; 32], [5; 32], [4; 32], [3; 32]]);
    assert!(pool_is_routed(&[1; 32], &[1; 32], &[1; 32], false, false));
    assert!(!pool_is_routed(&[1; 32], &[2; 32], &[1; 32], false, false));
    assert!(!pool_is_routed(&[1; 32], &[1; 32], &[1; 32], false, true));
}

#[test]
fn reserves_of_a_swap() {
    assert_eq!(vault_amount_without_fee(&pool(), 1000, 500), Ok((985, 480)));
    assert_eq!(vault_amount_without_fee(&pool(), 14, 500), Err(GobblerError::InvalidSubVault0));
    assert_eq!(vault_amount_without_fee(&pool(), 1000, 19), Err(GobblerError::InvalidSubVault1));
    let mut p = pool();
    p.protocol_fees_token_0 = u64::MAX;
    assert_eq!(vault_amount_without_fee(&p, 1000, 500), Err(GobblerError::Panicked));
    assert_eq!(gobbler_reserves(&pool(), &[2; 32], 1000, &[1; 32], 500), Ok((980, 485)));
    assert_eq!(gobbler_reserves(&pool(), &[2; 32], 1000, &[2; 32], 500), Err(GobblerError::InvalidVaultConfiguration));
}

#[test]
fn fee_rates() {
    assert_eq!(gobbler_fee_rates(&config(), true), Some((400, 100, 300)));
    assert_eq!(gobbler_fee_rates(&config(), false), Some((600, 200, 400)));
    let c = GobblerAmmConfig { token_0_creator_rate: 20000, token_1_creator_rate: 0, token_0_lp_rate: 0, token_1_lp_rate: 0 };
    assert_eq!(gobbler_fee_rates(&c, true), Some((20002, 20000, 0)));
    let o = GobblerAmmConfig { token_0_creator_rate: u64::MAX, token_1_creator_rate: 1, token_0_lp_rate: 0, token_1_lp_rate: 0 };
    assert_eq!(gobbler_fee_rates(&o, true), None);
}

#[test]
fn quote_by_input() {
    let call = CurveCall { amount: 90, input_reserve: 985, output_reserve: 480, trade_fee_rate: 400, creator_rate: 100, lp_rate: 300 };
    assert_eq!(gobbler_swap_base_input_call(&pool(), &config(), &[1; 32], 1000, &[2; 32], 500, 100, 10, 10), Ok(call));
    assert_eq!(gobbler_swap_base_input_call(&pool(), &config(), &[1; 32], 1000, &[2; 32], 500, 100, 1, 10), Err(GobblerError::NotTrading));
    assert_eq!(gobbler_swap_base_input_call(&pool(), &config(), &[1; 32], 1000, &[2; 32], 500, 100, 10, 100), Err(GobblerError::AmountTooLow));
    assert_eq!(gobbler_swap_base_input_call(&pool(), &config(), &[3; 32], 1000, &[2; 32], 500, 100, 10, 0), Err(GobblerError::InvalidVaultConfiguration));
    assert_eq!(gobbler_swap_base_input_quote(100, 400, None, 0), Err(GobblerError::SwapCalculationFailed));
    assert_eq!(gobbler_swap_base_input_quote(100, 400, Some(50), 5), Ok((100, 45, 400)));
    assert_eq!(gobbler_swap_base_input_quote(100, 400, Some(50), 60), Ok((100, 0, 400)));
    assert_eq!(gobbler_swap_base_input_quote(100, 400, Some(u64::MAX as u128 + 1), 0), Err(GobblerError::OutOfRange));
}

#[test]
fn quote_by_output() {
    let call = CurveCall { amount: 480, input_reserve: 980, output_reserve: 485, trade_fee_rate: 600, creator_rate: 200, lp_rate: 400 };
    assert_eq!(gobbler_swap_base_output_call(&pool(), &config(), &[2; 32], 1000, &[1; 32], 500, 470, 10, 10), Ok(call));
    assert_eq!(gobbler_swap_base_output_call(&pool(), &config(), &[2; 32], 1000, &[1; 32], 500, 476, 10, 10), Err(GobblerError::InsufficientLiquidity));
    assert_eq!(gobbler_swap_base_output_call(&pool(), &config(), &[2; 32], 1000, &[1; 32], 500, 0, 10, 10), Err(GobblerError::OutputAmountZero));
    assert_eq!(gobbler_swap_base_output_call(&pool(), &config(), &[2; 32], 1000, &[1; 32], 500, u64::MAX, 10, 1), Err(GobblerError::OutputAmountOverflow));
    assert_eq!(gobbler_swap_base_output_quote(470, None, 0), Err(GobblerError::SwapCalculationFailed));
    assert_eq!(gobbler_swap_base_output_quote(470, Some((100, 3)), 2), Ok((102, 470, 3)));
    assert_eq!(gobbler_swap_base_output_quote(470, Some((100, u64::MAX as u128 + 1)), 2), Err(GobblerError::FeeConversion));
    assert_eq!(gobbler_swap_base_output_quote(470, Some((u64::MAX as u128, 0)), 2), Err(GobblerError::OutOfRange));
    assert_eq!(GobblerError::NotTrading.message(), "Pool is not trading");
}

#[test]
fn quotes_of_edges_are_empty() {
    assert_eq!(edge(Operation::Swap, Direction::AtoB).quote(1000), (0, 0, 0, [1; 32]));
    assert_eq!(edge(Operation::Withdraw, Direction::LPtoAandB).quote(7), (0, 0, 0, [1; 32]));
}
