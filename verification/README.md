# arb_bot

The verified core of a Uniswap V2 cross-pool arbitrage bot, written in Verus.

- `src/` is the library, every function of it verified:
  - `uint`: 256- and 512-bit integers held as limbs; their arithmetic is
    delegated to `alloy`'s `ruint` through small trusted wrappers whose
    contracts state the result over the mathematical value.
  - `math`: the constant-product price with the 0.3% fee and the trade size
    that maximises a two-pool round trip.
  - `profit`: the net profit of a round trip after gas.
  - `types`: tokens, pools, reserve states, sync events and actions.
  - `strategy`: the book of pool states and the search for opportunities.
  - `collector`: the index from log addresses to pools.
  - `executor`: the call data, legacy transaction and signature of a
    flash-swap bundle, and the nonce counter.
  - `gas`: the latest base fee and block number, and the next base fee.
- `app/` holds the I/O: configuration, the RPC provider, log and block
  subscriptions, bundle submission to the relay, and the asynchronous wiring.
- `tests/` runs the library on concrete values.
