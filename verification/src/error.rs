//! The errors of the order book.

use vstd::prelude::*;

verus! {

/// Why a call on the order book was refused.
#[derive(Clone, Copy, Debug, PartialEq, Eq, Structural)]
pub enum Error {
    /// No resting order with the given key is in the indicated store.
    OrderNotFound,
    /// The store is full and the new order does not beat its worst order.
    CapacityExceeded,
    /// The order belongs to another owner than the caller expected.
    AuthorizationMismatch,
    /// A quantity or fee invariant is broken: negative order quantities, a
    /// negative taker fee, a duplicate order key or a malformed resting order.
    InvariantViolation,
    /// The order's price in lots is below one or cannot be represented.
    InvalidPrice,
    /// The account holds no position for the market.
    PositionNotFound,
    /// Every open-order slot of the account is taken.
    NoFreeOrderSlot,
    /// The event queue cannot hold every event that the call may emit.
    EventQueueFull,
    /// An accumulator or a price conversion left its numeric range.
    MathOverflow,
    /// The account's orders may be cancelled by force only while its health
    /// is negative.
    HealthMustBeNegative,
}

} // verus!
