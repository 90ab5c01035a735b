//! Sides of the book and the collections of a side.

use vstd::prelude::*;

verus! {

/// Side of the book an order is on.
#[derive(Clone, Copy, Debug, PartialEq, Eq, Structural)]
pub enum Side {
    Bid,
    Ask,
}

impl Side {
    /// The opposite side.
    pub open spec fn inverted(self) -> Side {
        match self {
            Side::Bid => Side::Ask,
            Side::Ask => Side::Bid,
        }
    }

    /// `lhs` is a strictly better price than `rhs` for an order on this side:
    /// higher for a bid, lower for an ask.
    pub open spec fn price_better(self, lhs: int, rhs: int) -> bool {
        match self {
            Side::Bid => lhs > rhs,
            Side::Ask => lhs < rhs,
        }
    }

    /// A resting order at `price` on the opposite side is acceptable to a
    /// taker on this side whose limit is `limit`.
    pub open spec fn price_within_limit(self, price: int, limit: int) -> bool {
        match self {
            Side::Bid => price <= limit,
            Side::Ask => price >= limit,
        }
    }

    pub fn invert_side(&self) -> (r: Side)
        ensures
            r == self.inverted(),
    {
        match self {
            Side::Bid => Side::Ask,
            Side::Ask => Side::Bid,
        }
    }

    /// Is `lhs` a better price data word than `rhs` for this side?
    pub fn is_price_data_better(&self, lhs: u64, rhs: u64) -> (r: bool)
        ensures
            r == self.price_better(lhs as int, rhs as int),
    {
        match self {
            Side::Bid => lhs > rhs,
            Side::Ask => lhs < rhs,
        }
    }

    /// Is `lhs` a better price than `rhs` for this side?
    pub fn is_price_better(&self, lhs: i64, rhs: i64) -> (r: bool)
        ensures
            r == self.price_better(lhs as int, rhs as int),
    {
        match self {
            Side::Bid => lhs > rhs,
            Side::Ask => lhs < rhs,
        }
    }

    /// Is `price` acceptable for a taker on this side with limit `limit`?
    pub fn is_price_within_limit(&self, price: i64, limit: i64) -> (r: bool)
        ensures
            r == self.price_within_limit(price as int, limit as int),
    {
        match self {
            Side::Bid => price <= limit,
            Side::Ask => price >= limit,
        }
    }
}

/// The two ordered collections that make up one side of the book.
#[derive(Clone, Copy, Debug, PartialEq, Eq, Structural)]
pub enum BookSideOrderTree {
    /// Orders at a fixed price.
    Fixed,
    /// Orders whose price is an offset from the oracle price.
    OraclePegged,
}

impl BookSideOrderTree {
    /// The other collection of the same side.
    pub open spec fn other(self) -> BookSideOrderTree {
        match self {
            BookSideOrderTree::Fixed => BookSideOrderTree::OraclePegged,
            BookSideOrderTree::OraclePegged => BookSideOrderTree::Fixed,
        }
    }

    pub fn other_tree(&self) -> (r: BookSideOrderTree)
        ensures
            r == self.other(),
    {
        match self {
            BookSideOrderTree::Fixed => BookSideOrderTree::OraclePegged,
            BookSideOrderTree::OraclePegged => BookSideOrderTree::Fixed,
        }
    }
}

/// A side together with one of its collections.
#[derive(Clone, Copy, Debug, PartialEq, Eq, Structural)]
pub enum SideAndOrderTree {
    BidFixed,
    BidOraclePegged,
    AskFixed,
    AskOraclePegged,
}

impl SideAndOrderTree {
    pub open spec fn make(side: Side, order_tree: BookSideOrderTree) -> SideAndOrderTree {
        match (side, order_tree) {
            (Side::Bid, BookSideOrderTree::Fixed) => SideAndOrderTree::BidFixed,
            (Side::Bid, BookSideOrderTree::OraclePegged) => SideAndOrderTree::BidOraclePegged,
            (Side::Ask, BookSideOrderTree::Fixed) => SideAndOrderTree::AskFixed,
            (Side::Ask, BookSideOrderTree::OraclePegged) => SideAndOrderTree::AskOraclePegged,
        }
    }

    pub open spec fn spec_side(&self) -> Side {
        match self {
            SideAndOrderTree::BidFixed | SideAndOrderTree::BidOraclePegged => Side::Bid,
            SideAndOrderTree::AskFixed | SideAndOrderTree::AskOraclePegged => Side::Ask,
        }
    }

    pub open spec fn spec_order_tree(&self) -> BookSideOrderTree {
        match self {
            SideAndOrderTree::BidFixed | SideAndOrderTree::AskFixed => BookSideOrderTree::Fixed,
            SideAndOrderTree::BidOraclePegged | SideAndOrderTree::AskOraclePegged =>
                BookSideOrderTree::OraclePegged,
        }
    }

    pub fn new(side: Side, order_tree: BookSideOrderTree) -> (r: SideAndOrderTree)
        ensures
            r == Self::make(side, order_tree),
            r.spec_side() == side,
            r.spec_order_tree() == order_tree,
    {
        match (side, order_tree) {
            (Side::Bid, BookSideOrderTree::Fixed) => SideAndOrderTree::BidFixed,
            (Side::Bid, BookSideOrderTree::OraclePegged) => SideAndOrderTree::BidOraclePegged,
            (Side::Ask, BookSideOrderTree::Fixed) => SideAndOrderTree::AskFixed,
            (Side::Ask, BookSideOrderTree::OraclePegged) => SideAndOrderTree::AskOraclePegged,
        }
    }

    #[verifier::when_used_as_spec(spec_side)]
    pub fn side(&self) -> (r: Side)
        ensures
            r == self.spec_side(),
    {
        match self {
            SideAndOrderTree::BidFixed | SideAndOrderTree::BidOraclePegged => Side::Bid,
            SideAndOrderTree::AskFixed | SideAndOrderTree::AskOraclePegged => Side::Ask,
        }
    }

    #[verifier::when_used_as_spec(spec_order_tree)]
    pub fn order_tree(&self) -> (r: BookSideOrderTree)
        ensures
            r == self.spec_order_tree(),
    {
        match self {
            SideAndOrderTree::BidFixed | SideAndOrderTree::AskFixed => BookSideOrderTree::Fixed,
            SideAndOrderTree::BidOraclePegged | SideAndOrderTree::AskOraclePegged =>
                BookSideOrderTree::OraclePegged,
        }
    }
}

} // verus!
