//! The market state that the order book reads and updates.

use vstd::prelude::*;
use crate::fixed_point::I80F48;
use crate::key::{new_node_key, node_key};
use crate::side::Side;

verus! {

/// The state of one perpetual-futures market that the order book reads and
/// updates.
#[derive(Clone, Copy, Debug, PartialEq, Eq, Structural)]
pub struct PerpMarket {
    pub perp_market_index: u16,
    /// Native base units in one base lot.
    pub base_lot_size: i64,
    /// Native quote units in one quote lot.
    pub quote_lot_size: i64,
    /// Fee rate charged to makers; negative for a rebate.
    pub maker_fee: I80F48,
    /// Fee rate charged to takers.
    pub taker_fee: I80F48,
    /// Fixed fee, in native quote units, charged for an immediate-or-cancel
    /// order.
    pub fee_penalty: I80F48,
    /// Fees that the market has collected, in native quote units.
    pub fees_accrued: I80F48,
    /// Sequence number of the order placed last.
    pub seq_num: u64,
    /// A bid may rest only at a native price of at most this multiple of the
    /// oracle price.
    pub price_band_upper: I80F48,
    /// An ask may rest only at a native price of at least this multiple of
    /// the oracle price.
    pub price_band_lower: I80F48,
}

impl PerpMarket {
    /// A native price in lots: the price times the base lot size, divided by
    /// the quote lot size, rounded down to an integer.
    pub open spec fn spec_native_price_to_lot(&self, price: I80F48) -> Option<i64> {
        match price.spec_checked_mul(I80F48::of_int(self.base_lot_size as int)) {
            Some(scaled) => match scaled.spec_checked_div(
                I80F48::of_int(self.quote_lot_size as int),
            ) {
                Some(lots) => lots.spec_checked_to_i64(),
                None => None,
            },
            None => None,
        }
    }

    /// A price in lots as a native price: the price times the quote lot size,
    /// divided by the base lot size.
    pub open spec fn spec_lot_to_native_price(&self, price_lots: i64) -> Option<I80F48> {
        match I80F48::of_int(price_lots as int).spec_checked_mul(
            I80F48::of_int(self.quote_lot_size as int),
        ) {
            Some(scaled) => scaled.spec_checked_div(I80F48::of_int(self.base_lot_size as int)),
            None => None,
        }
    }

    /// Whether an order on `side` at `native_price` may rest, given the
    /// oracle price: a bid not above the upper band, an ask not below the
    /// lower band.
    pub open spec fn spec_inside_price_limit(
        &self,
        side: Side,
        native_price: I80F48,
        oracle_price: I80F48,
    ) -> Option<bool> {
        match side {
            Side::Bid => match self.price_band_upper.spec_checked_mul(oracle_price) {
                Some(bound) => Some(native_price.bits <= bound.bits),
                None => None,
            },
            Side::Ask => match self.price_band_lower.spec_checked_mul(oracle_price) {
                Some(bound) => Some(native_price.bits >= bound.bits),
                None => None,
            },
        }
    }

    /// Whether an order on `side` at `price_lots` may rest, given the oracle
    /// price; nothing where a conversion leaves the numeric range.
    pub open spec fn spec_may_rest(
        &self,
        side: Side,
        price_lots: i64,
        oracle_price: I80F48,
    ) -> Option<bool> {
        match self.spec_lot_to_native_price(price_lots) {
            Some(native_price) => self.spec_inside_price_limit(side, native_price, oracle_price),
            None => None,
        }
    }

    /// Takes the next sequence number and builds the key of a new order.
    pub fn gen_order_id(&mut self, side: Side, price_data: u64) -> (key: u128)
        requires
            old(self).seq_num < u64::MAX,
        ensures
            *final(self) == (PerpMarket { seq_num: (old(self).seq_num + 1) as u64, ..*old(self) }),
            key == node_key(side, price_data, final(self).seq_num),
    {
        self.seq_num = self.seq_num + 1;
        new_node_key(side, price_data, self.seq_num)
    }

    /// Converts a native price to lots; nothing where the lot sizes make the
    /// conversion leave the numeric range, or the quote lot size is zero.
    pub fn native_price_to_lot(&self, price: I80F48) -> (r: Option<i64>)
        ensures
            r == self.spec_native_price_to_lot(price),
    {
        match price.checked_mul(I80F48::from_num(self.base_lot_size)) {
            Some(scaled) => match scaled.checked_div(I80F48::from_num(self.quote_lot_size)) {
                Some(lots) => lots.checked_to_i64(),
                None => None,
            },
            None => None,
        }
    }

    /// Converts a price in lots to a native price; nothing where the lot
    /// sizes make the conversion leave the numeric range, or the base lot
    /// size is zero.
    pub fn lot_to_native_price(&self, price_lots: i64) -> (r: Option<I80F48>)
        ensures
            r == self.spec_lot_to_native_price(price_lots),
    {
        match I80F48::from_num(price_lots).checked_mul(I80F48::from_num(self.quote_lot_size)) {
            Some(scaled) => scaled.checked_div(I80F48::from_num(self.base_lot_size)),
            None => None,
        }
    }

    /// Is `native_price` acceptable for a resting order on `side`, given
    /// `oracle_price`? Nothing where the band's bound is out of range.
    pub fn inside_price_limit(&self, side: Side, native_price: I80F48, oracle_price: I80F48) -> (r:
        Option<bool>)
        ensures
            r == self.spec_inside_price_limit(side, native_price, oracle_price),
    {
        match side {
            Side::Bid => match self.price_band_upper.checked_mul(oracle_price) {
                Some(bound) => Some(native_price.bits <= bound.bits),
                None => None,
            },
            Side::Ask => match self.price_band_lower.checked_mul(oracle_price) {
                Some(bound) => Some(native_price.bits >= bound.bits),
                None => None,
            },
        }
    }

    /// May an order on `side` at `price_lots` rest, given `oracle_price`?
    pub fn may_rest(&self, side: Side, price_lots: i64, oracle_price: I80F48) -> (r: Option<bool>)
        ensures
            r == self.spec_may_rest(side, price_lots, oracle_price),
    {
        match self.lot_to_native_price(price_lots) {
            Some(native_price) => self.inside_price_limit(side, native_price, oracle_price),
            None => None,
        }
    }
}

} // verus!
