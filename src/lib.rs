//! Quote estimation for single-hop swaps against a concentrated-liquidity
//! pool: pool resolution from a cached catalog, tick-array address
//! derivation around the current price, and slippage-bounded quotes.

pub mod address;
pub mod catalog;
pub mod quote;
pub mod tick;
