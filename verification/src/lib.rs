//! Limit order book and matching engine of a perpetual-futures market.
//!
//! Two price-time ordered, fixed-capacity stores of resting orders (bids and
//! asks) are matched against incoming orders. Matching emits settlement events,
//! charges fees and keeps the taker's account in step with the book.

pub mod error;
pub mod side;
pub mod key;
pub mod fixed_point;
pub mod node;
pub mod bookside;
pub mod iter;
pub mod event;
pub mod market;
pub mod order;
pub mod account;
pub mod fees;
pub mod matching;
pub mod match_laws;
pub mod book;
pub mod placement;
pub mod laws;
pub mod liquidation;
pub mod funding;
