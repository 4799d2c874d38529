//! Merging of order-book snapshots from several exchanges into one ranked,
//! depth-limited view of a currency pair.
//!
//! Prices and amounts are fixed-point decimals: an `i64` counts units of
//! 10^-8, so every comparison and the spread are exact.

pub mod asset;
pub mod decimal;
pub mod exchange;
pub mod market;
pub mod order_book;
pub mod publisher;
