//! Cancelling the orders of an account that is being liquidated.

use vstd::prelude::*;
use crate::account::Account;
use crate::book::{cancel_all_outcome, Orderbook};
use crate::error::Error;
use crate::market::PerpMarket;

verus! {

/// What the health check says of an account that is up for liquidation.
#[derive(Clone, Copy, Debug, PartialEq, Eq, Structural)]
pub enum HealthCheck {
    /// The account can be liquidated.
    Liquidatable,
    /// The account is being liquidated no longer or not yet.
    NotLiquidatable,
    /// The check failed because the account's health is not negative.
    HealthNotNegative,
}

/// What a forced cancellation does, given the health check.
#[derive(Clone, Copy, Debug, PartialEq, Eq, Structural)]
pub enum ForceCancel {
    /// The orders are cancelled.
    Proceed,
    /// Nothing is done and the call succeeds.
    Skip,
    /// The call fails with the health check's error.
    Fail,
}

/// Whether the orders of an account are cancelled by force.
///
/// An account that is operational has its orders cancelled only if it is
/// liquidatable; a failed health check fails the call. An account that is
/// frozen can always have its orders cancelled.
pub open spec fn force_cancel_decision(is_operational: bool, health: HealthCheck) -> ForceCancel {
    if !is_operational {
        ForceCancel::Proceed
    } else {
        match health {
            HealthCheck::Liquidatable => ForceCancel::Proceed,
            HealthCheck::NotLiquidatable => ForceCancel::Skip,
            HealthCheck::HealthNotNegative => ForceCancel::Fail,
        }
    }
}

/// Decides whether the orders of an account are cancelled by force.
pub fn decide_force_cancel(is_operational: bool, health: HealthCheck) -> (r: ForceCancel)
    ensures
        r == force_cancel_decision(is_operational, health),
{
    if !is_operational {
        ForceCancel::Proceed
    } else {
        match health {
            HealthCheck::Liquidatable => ForceCancel::Proceed,
            HealthCheck::NotLiquidatable => ForceCancel::Skip,
            HealthCheck::HealthNotNegative => ForceCancel::Fail,
        }
    }
}

/// Cancels up to `limit` of the orders of an account that is being
/// liquidated, in the given market.
///
/// Returns whether orders were cancelled: the caller has to look at the
/// account's health again only then. Where the health check decides against
/// it, nothing is changed.
pub fn perp_liq_force_cancel_orders(
    book: &mut Orderbook,
    account: &mut Account,
    perp_market: &mut PerpMarket,
    limit: u8,
    is_operational: bool,
    health: HealthCheck,
) -> (r: Result<bool, Error>)
    requires
        old(book).wf(),
    ensures
        final(book).wf(),
        *final(perp_market) == *old(perp_market),
        match force_cancel_decision(is_operational, health) {
            ForceCancel::Skip => r == Ok::<bool, Error>(false) && final(book)@ == old(book)@
                && final(account)@ == old(account)@,
            ForceCancel::Fail => r == Err::<bool, Error>(Error::HealthMustBeNegative)
                && final(book)@ == old(book)@ && final(account)@ == old(account)@,
            ForceCancel::Proceed => {
                let outcome = cancel_all_outcome(
                    old(book)@,
                    old(account)@,
                    old(perp_market).perp_market_index,
                    limit as nat,
                    None,
                    0,
                    old(account)@.perp_open_orders.len(),
                );
                &&& r == match outcome.0 {
                    Ok(()) => Ok::<bool, Error>(true),
                    Err(e) => Err::<bool, Error>(e),
                }
                &&& final(book)@ == outcome.1
                &&& final(account)@ == outcome.2
            },
        },
{
    match decide_force_cancel(is_operational, health) {
        ForceCancel::Skip => Ok(false),
        ForceCancel::Fail => Err(Error::HealthMustBeNegative),
        ForceCancel::Proceed => {
            match book.cancel_all_orders(account, perp_market, limit, None) {
                Ok(()) => Ok(true),
                Err(e) => Err(e),
            }
        },
    }
}

} // verus!
