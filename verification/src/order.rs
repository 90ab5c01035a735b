//! Incoming orders.

use vstd::prelude::*;
use crate::error::Error;
use crate::key::{oracle_pegged_price_data, peg_bias};
use crate::side::{BookSideOrderTree, Side};

verus! {

/// How an order that may rest treats the book.
#[derive(Clone, Copy, Debug, PartialEq, Eq, Structural)]
pub enum PostOrderType {
    /// Takes what crosses and rests with the remainder.
    Limit,
    /// Must not take: it rests unmatched or is dropped.
    PostOnly,
}

/// The price specification of an order.
#[derive(Clone, Copy, Debug, PartialEq, Eq, Structural)]
pub enum OrderParams {
    /// Takes at any price at once; what is not matched is cancelled.
    Market,
    /// Takes up to a limit price at once; what is not matched is cancelled.
    ImmediateOrCancel { price_lots: i64 },
    /// Rests at a fixed price.
    Fixed { price_lots: i64, order_type: PostOrderType },
    /// Rests at an offset from the oracle price, up to an optional limit.
    OraclePegged { price_offset_lots: i64, order_type: PostOrderType, peg_limit: Option<i64> },
}

/// A request to trade. It lives for one call of the matching engine.
#[derive(Clone, Copy, Debug, PartialEq, Eq, Structural)]
pub struct Order {
    pub side: Side,
    /// Most base lots to buy or sell.
    pub max_base_lots: i64,
    /// Most quote lots to pay or receive, fees apart.
    pub max_quote_lots: i64,
    /// Identifier chosen by the owner.
    pub client_order_id: u64,
    /// Seconds that the order shall rest; 0 means forever.
    pub time_in_force: u16,
    pub params: OrderParams,
}

/// The limit of an order that takes at any price.
pub open spec fn market_order_limit(side: Side) -> i64 {
    match side {
        Side::Bid => i64::MAX,
        Side::Ask => 1,
    }
}

impl Order {
    pub open spec fn spec_needs_penalty_fee(&self) -> bool {
        self.params is ImmediateOrCancel || self.params is Market
    }

    pub open spec fn spec_is_post_only(&self) -> bool {
        match self.params {
            OrderParams::Fixed { order_type, .. } => order_type == PostOrderType::PostOnly,
            OrderParams::OraclePegged { order_type, .. } => order_type == PostOrderType::PostOnly,
            _ => false,
        }
    }

    pub open spec fn spec_post_target(&self) -> Option<BookSideOrderTree> {
        match self.params {
            OrderParams::Fixed { .. } => Some(BookSideOrderTree::Fixed),
            OrderParams::OraclePegged { .. } => Some(BookSideOrderTree::OraclePegged),
            _ => None,
        }
    }

    pub open spec fn spec_peg_limit(&self) -> Option<i64> {
        match self.params {
            OrderParams::OraclePegged { peg_limit, .. } => peg_limit,
            _ => None,
        }
    }

    /// The order's limit price in lots under the given oracle price, as a
    /// number without bound.
    pub open spec fn limit_price(&self, oracle_price_lots: i64) -> int {
        match self.params {
            OrderParams::Market => market_order_limit(self.side) as int,
            OrderParams::ImmediateOrCancel { price_lots } => price_lots as int,
            OrderParams::Fixed { price_lots, .. } => price_lots as int,
            OrderParams::OraclePegged { price_offset_lots, .. } => oracle_price_lots
                + price_offset_lots,
        }
    }

    /// The order's limit price in lots and the price word of its key. The
    /// price is refused where it is below one lot or above `i64::MAX`.
    pub open spec fn spec_price(&self, oracle_price_lots: i64) -> Result<(i64, u64), Error> {
        let price = self.limit_price(oracle_price_lots);
        if price < 1 || price > i64::MAX {
            Err(Error::InvalidPrice)
        } else {
            match self.params {
                OrderParams::OraclePegged { price_offset_lots, .. } => Ok(
                    (price as i64, (price_offset_lots + peg_bias()) as u64),
                ),
                _ => Ok((price as i64, price as u64)),
            }
        }
    }

    /// Is the order charged the penalty fee? The orders that never rest
    /// are: they take at once or are cancelled.
    #[verifier::when_used_as_spec(spec_needs_penalty_fee)]
    pub fn needs_penalty_fee(&self) -> (r: bool)
        ensures
            r == self.spec_needs_penalty_fee(),
    {
        match self.params {
            OrderParams::ImmediateOrCancel { .. } => true,
            OrderParams::Market => true,
            _ => false,
        }
    }

    /// Must the order rest without taking?
    #[verifier::when_used_as_spec(spec_is_post_only)]
    pub fn is_post_only(&self) -> (r: bool)
        ensures
            r == self.spec_is_post_only(),
    {
        match self.params {
            OrderParams::Fixed { order_type, .. } => order_type == PostOrderType::PostOnly,
            OrderParams::OraclePegged { order_type, .. } => order_type == PostOrderType::PostOnly,
            _ => false,
        }
    }

    /// The collection in which the order's remainder rests, if it may rest.
    #[verifier::when_used_as_spec(spec_post_target)]
    pub fn post_target(&self) -> (r: Option<BookSideOrderTree>)
        ensures
            r == self.spec_post_target(),
    {
        match self.params {
            OrderParams::Fixed { .. } => Some(BookSideOrderTree::Fixed),
            OrderParams::OraclePegged { .. } => Some(BookSideOrderTree::OraclePegged),
            _ => None,
        }
    }

    /// The peg limit of a pegged order.
    #[verifier::when_used_as_spec(spec_peg_limit)]
    pub fn peg_limit(&self) -> (r: Option<i64>)
        ensures
            r == self.spec_peg_limit(),
    {
        match self.params {
            OrderParams::OraclePegged { peg_limit, .. } => peg_limit,
            _ => None,
        }
    }

    /// Computes the order's limit price in lots and the price word that its
    /// key gets if it rests.
    pub fn price(&self, oracle_price_lots: i64) -> (r: Result<(i64, u64), Error>)
        ensures
            r == self.spec_price(oracle_price_lots),
    {
        match self.params {
            OrderParams::Market => {
                let price_lots = match self.side {
                    Side::Bid => i64::MAX,
                    Side::Ask => 1,
                };
                Ok((price_lots, price_lots as u64))
            },
            OrderParams::ImmediateOrCancel { price_lots } => {
                if price_lots < 1 {
                    Err(Error::InvalidPrice)
                } else {
                    Ok((price_lots, price_lots as u64))
                }
            },
            OrderParams::Fixed { price_lots, .. } => {
                if price_lots < 1 {
                    Err(Error::InvalidPrice)
                } else {
                    Ok((price_lots, price_lots as u64))
                }
            },
            OrderParams::OraclePegged { price_offset_lots, .. } => {
                match oracle_price_lots.checked_add(price_offset_lots) {
                    Some(price_lots) => {
                        if price_lots < 1 {
                            Err(Error::InvalidPrice)
                        } else {
                            Ok((price_lots, oracle_pegged_price_data(price_offset_lots)))
                        }
                    },
                    None => Err(Error::InvalidPrice),
                }
            },
        }
    }
}

} // verus!
