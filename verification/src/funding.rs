//! What the funding computation reads from the book.

use vstd::prelude::*;
use crate::book::{Orderbook, OrderbookView};
use crate::error::Error;
use crate::fixed_point::I80F48;
use crate::market::PerpMarket;
use crate::side::Side;

verus! {

/// What the funding computation reads from the order book.
#[derive(Clone, Copy, Debug, PartialEq, Eq, Structural)]
pub struct FundingInputs {
    /// The oracle price in lots.
    pub oracle_price_lots: i64,
    /// The price of the best valid bid, in lots.
    pub best_bid: Option<i64>,
    /// The price of the best valid ask, in lots.
    pub best_ask: Option<i64>,
}

/// The best bid and the best ask under the given oracle price; an error
/// where the oracle price has no value in lots.
pub open spec fn funding_inputs(
    book: OrderbookView,
    market: PerpMarket,
    oracle_price: I80F48,
    now_ts: u64,
) -> Result<FundingInputs, Error> {
    match market.spec_native_price_to_lot(oracle_price) {
        None => Err(Error::MathOverflow),
        Some(oracle_price_lots) => Ok(
            FundingInputs {
                oracle_price_lots,
                best_bid: book.side(Side::Bid).best_price(now_ts, oracle_price_lots),
                best_ask: book.side(Side::Ask).best_price(now_ts, oracle_price_lots),
            },
        ),
    }
}

/// Reads from the book what an update of the market's funding needs: the
/// best bid and the best ask at `now_ts` under `oracle_price`. The book is
/// not changed.
pub fn perp_update_funding(
    book: &Orderbook,
    perp_market: &PerpMarket,
    oracle_price: I80F48,
    now_ts: u64,
) -> (r: Result<FundingInputs, Error>)
    requires
        book.wf(),
    ensures
        r == funding_inputs(book@, *perp_market, oracle_price, now_ts),
{
    let oracle_price_lots = match perp_market.native_price_to_lot(oracle_price) {
        Some(lots) => lots,
        None => {
            return Err(Error::MathOverflow);
        },
    };
    Ok(
        FundingInputs {
            oracle_price_lots,
            best_bid: book.bookside(Side::Bid).best_price(now_ts, oracle_price_lots),
            best_ask: book.bookside(Side::Ask).best_price(now_ts, oracle_price_lots),
        },
    )
}

} // verus!
