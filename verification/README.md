# autobahn_dex

The pool math and edge logic of a Solana DEX router, verified with Verus.

`src/` is the verified library:

- `u256`, `int_ops`, `decimals`, `errors`: 256-bit arithmetic, truncating
  signed division, the fixed-point decimal types of the concentrated-liquidity
  pools and their error traces.
- `invariant_math`, `invariant_log`, `tickmap`, `invariant_swap`,
  `invariant_dex`, `invariant_accounts`: prices at ticks and ticks at prices,
  the tickmap and its searches, swap steps, the simulated swap loop and quotes,
  the tick accounts a swap needs and the accounts of its instruction.
- `raydium_math`, `raydium_pool`: the order-book AMM's calculator and its
  simulated swaps.
- `gamma`, `cp_swap`, `gobbler`: constant-product pools with dynamic,
  static and creator/LP fee rates, and the steps of their quotes.
- `orca`: the tick arrays a whirlpool swap walks through.
- `openbook`: the market order of an order-book quote.
- `ix_data`: the data and account lists of the swap instructions.
- `config`: the router's configuration values.

`app/` holds what is not verified: reading the configuration file and the
environment, and the volatility fee of the dynamic-fee pools, which is
computed in floating point.
