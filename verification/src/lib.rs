//! Verified arithmetic and pool logic of a Solana DEX router: wide integers,
//! fixed-point decimals, concentrated-liquidity and constant-product swap math.
pub mod u256;
pub mod int_ops;
pub mod errors;
pub mod decimals;
pub mod invariant_math;
pub mod tickmap;
pub mod invariant_log;
pub mod invariant_swap;
pub mod invariant_dex;
pub mod raydium_math;
pub mod raydium_pool;
pub mod gamma;
pub mod orca;
pub mod config;
pub mod cp_swap;
pub mod gobbler;
pub mod openbook;
pub mod invariant_accounts;
pub mod ix_data;
