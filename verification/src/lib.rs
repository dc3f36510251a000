//! Verified core of a Uniswap V2 cross-pool arbitrage bot: constant-product
//! pricing, optimal trade sizing, profit accounting, the strategy's pool book,
//! the sync-event collector's index, the bundle executor's transaction
//! planning and the shared chain-state view.
pub mod uint;
pub mod math;
pub mod profit;
pub mod types;
pub mod strategy;
pub mod gas;
pub mod collector;
pub mod executor;
