//! The positions and open-order slots of a trading account.

use vstd::prelude::*;
use crate::error::Error;
use crate::fixed_point::I80F48;
use crate::node::LeafNode;
use crate::side::{BookSideOrderTree, Side, SideAndOrderTree};

verus! {

/// Market index that marks an open-order slot, or a position, as unused.
pub const FREE_ORDER_SLOT: u16 = 0xffff;

/// Number of open-order slots that an order can refer to: a resting order
/// names its slot in one byte.
pub const MAX_ORDER_SLOTS: usize = 256;

/// An account's position in one perpetual-futures market.
#[derive(Clone, Copy, Debug, PartialEq, Eq, Structural)]
pub struct PerpPosition {
    pub market_index: u16,
    /// Base lots in the account's resting bids.
    pub bids_base_lots: i64,
    /// Base lots in the account's resting asks.
    pub asks_base_lots: i64,
    /// Base lots taken in matches that are not settled yet.
    pub taker_base_lots: i64,
    /// Quote lots taken in matches that are not settled yet.
    pub taker_quote_lots: i64,
    /// Quote position in native units; trading fees are taken from it.
    pub quote_position_native: I80F48,
    /// Taker fees paid so far, in whole native quote units.
    pub taker_volume: u64,
}

impl PerpPosition {
    /// A position that is not in use.
    pub open spec fn spec_unused() -> PerpPosition {
        PerpPosition {
            market_index: FREE_ORDER_SLOT,
            bids_base_lots: 0,
            asks_base_lots: 0,
            taker_base_lots: 0,
            taker_quote_lots: 0,
            quote_position_native: I80F48 { bits: 0 },
            taker_volume: 0,
        }
    }

    pub fn unused() -> (r: PerpPosition)
        ensures
            r == Self::spec_unused(),
    {
        PerpPosition {
            market_index: FREE_ORDER_SLOT,
            bids_base_lots: 0,
            asks_base_lots: 0,
            taker_base_lots: 0,
            taker_quote_lots: 0,
            quote_position_native: I80F48::zero(),
            taker_volume: 0,
        }
    }

    pub open spec fn spec_is_active_for_market(&self, market_index: u16) -> bool {
        self.market_index == market_index && market_index != FREE_ORDER_SLOT
    }

    /// The position after a taker trade: a bid gains base and owes quote, an
    /// ask the reverse. Nothing where a total leaves the range of `i64`.
    pub open spec fn with_taker_trade(self, side: Side, base_lots: i64, quote_lots: i64) -> Option<
        PerpPosition,
    > {
        let (base, quote) = match side {
            Side::Bid => (self.taker_base_lots + base_lots, self.taker_quote_lots - quote_lots),
            Side::Ask => (self.taker_base_lots - base_lots, self.taker_quote_lots + quote_lots),
        };
        if i64::MIN <= base <= i64::MAX && i64::MIN <= quote <= i64::MAX {
            Some(
                PerpPosition {
                    taker_base_lots: base as i64,
                    taker_quote_lots: quote as i64,
                    ..self
                },
            )
        } else {
            None
        }
    }

    /// The position after paying `fee` from its quote position.
    pub open spec fn with_trading_fee(self, fee: I80F48) -> Option<PerpPosition> {
        match self.quote_position_native.spec_checked_sub(fee) {
            Some(quote) => Some(PerpPosition { quote_position_native: quote, ..self }),
            None => None,
        }
    }

    /// The position with `lots` more base lots in resting orders on `side`;
    /// fewer where `lots` is negative.
    pub open spec fn with_resting_lots(self, side: Side, lots: int) -> Option<PerpPosition> {
        match side {
            Side::Bid => if i64::MIN <= self.bids_base_lots + lots <= i64::MAX {
                Some(PerpPosition { bids_base_lots: (self.bids_base_lots + lots) as i64, ..self })
            } else {
                None
            },
            Side::Ask => if i64::MIN <= self.asks_base_lots + lots <= i64::MAX {
                Some(PerpPosition { asks_base_lots: (self.asks_base_lots + lots) as i64, ..self })
            } else {
                None
            },
        }
    }

    #[verifier::when_used_as_spec(spec_is_active_for_market)]
    pub fn is_active_for_market(&self, market_index: u16) -> (r: bool)
        ensures
            r == self.spec_is_active_for_market(market_index),
    {
        self.market_index == market_index && market_index != FREE_ORDER_SLOT
    }

    /// Records a taker trade that will be settled later. On overflow the
    /// position is left as it was.
    pub fn add_taker_trade(&mut self, side: Side, base_lots: i64, quote_lots: i64) -> (r: Result<
        (),
        Error,
    >)
        ensures
            match old(self).with_taker_trade(side, base_lots, quote_lots) {
                Some(p) => r.is_ok() && *final(self) == p,
                None => r == Err::<(), Error>(Error::MathOverflow) && *final(self) == *old(self),
            },
    {
        let (base, quote) = match side {
            Side::Bid => (
                self.taker_base_lots.checked_add(base_lots),
                self.taker_quote_lots.checked_sub(quote_lots),
            ),
            Side::Ask => (
                self.taker_base_lots.checked_sub(base_lots),
                self.taker_quote_lots.checked_add(quote_lots),
            ),
        };
        match (base, quote) {
            (Some(b), Some(q)) => {
                self.taker_base_lots = b;
                self.taker_quote_lots = q;
                Ok(())
            },
            _ => Err(Error::MathOverflow),
        }
    }

    /// Takes a trading fee from the quote position. On overflow the position
    /// is left as it was.
    pub fn record_trading_fee(&mut self, fee: I80F48) -> (r: Result<(), Error>)
        ensures
            match old(self).with_trading_fee(fee) {
                Some(p) => r.is_ok() && *final(self) == p,
                None => r == Err::<(), Error>(Error::MathOverflow) && *final(self) == *old(self),
            },
    {
        match self.quote_position_native.checked_sub(fee) {
            Some(quote) => {
                self.quote_position_native = quote;
                Ok(())
            },
            None => Err(Error::MathOverflow),
        }
    }

    /// Adds `lots` base lots to the resting orders on `side`. On overflow
    /// the position is left as it was.
    pub fn add_resting_lots(&mut self, side: Side, lots: i64) -> (r: Result<(), Error>)
        ensures
            match old(self).with_resting_lots(side, lots as int) {
                Some(p) => r.is_ok() && *final(self) == p,
                None => r == Err::<(), Error>(Error::MathOverflow) && *final(self) == *old(self),
            },
    {
        match side {
            Side::Bid => match self.bids_base_lots.checked_add(lots) {
                Some(total) => {
                    self.bids_base_lots = total;
                    Ok(())
                },
                None => Err(Error::MathOverflow),
            },
            Side::Ask => match self.asks_base_lots.checked_add(lots) {
                Some(total) => {
                    self.asks_base_lots = total;
                    Ok(())
                },
                None => Err(Error::MathOverflow),
            },
        }
    }

    /// Takes `lots` base lots from the resting orders on `side`. On overflow
    /// the position is left as it was.
    pub fn remove_resting_lots(&mut self, side: Side, lots: i64) -> (r: Result<(), Error>)
        ensures
            match old(self).with_resting_lots(side, -(lots as int)) {
                Some(p) => r.is_ok() && *final(self) == p,
                None => r == Err::<(), Error>(Error::MathOverflow) && *final(self) == *old(self),
            },
    {
        match side {
            Side::Bid => match self.bids_base_lots.checked_sub(lots) {
                Some(total) => {
                    self.bids_base_lots = total;
                    Ok(())
                },
                None => Err(Error::MathOverflow),
            },
            Side::Ask => match self.asks_base_lots.checked_sub(lots) {
                Some(total) => {
                    self.asks_base_lots = total;
                    Ok(())
                },
                None => Err(Error::MathOverflow),
            },
        }
    }
}

/// One open-order slot of an account: which resting order, if any, it
/// records.
#[derive(Clone, Copy, Debug, PartialEq, Eq, Structural)]
pub struct PerpOpenOrder {
    /// The market of the order, or `FREE_ORDER_SLOT`.
    pub market: u16,
    pub side_and_tree: SideAndOrderTree,
    /// The order key.
    pub id: u128,
    pub client_id: u64,
}

impl PerpOpenOrder {
    pub open spec fn spec_is_active_for_market(&self, market_index: u16) -> bool {
        self.market == market_index && market_index != FREE_ORDER_SLOT
    }

    /// A slot that records no order.
    pub open spec fn spec_free() -> PerpOpenOrder {
        PerpOpenOrder {
            market: FREE_ORDER_SLOT,
            side_and_tree: SideAndOrderTree::BidFixed,
            id: 0,
            client_id: 0,
        }
    }

    pub fn free() -> (r: PerpOpenOrder)
        ensures
            r == Self::spec_free(),
    {
        PerpOpenOrder {
            market: FREE_ORDER_SLOT,
            side_and_tree: SideAndOrderTree::BidFixed,
            id: 0,
            client_id: 0,
        }
    }

    #[verifier::when_used_as_spec(spec_is_active_for_market)]
    pub fn is_active_for_market(&self, market_index: u16) -> (r: bool)
        ensures
            r == self.spec_is_active_for_market(market_index),
    {
        self.market == market_index && market_index != FREE_ORDER_SLOT
    }
}

/// Index of the first position from `from` on that is active for
/// `market_index`.
pub open spec fn first_position(s: Seq<PerpPosition>, market_index: u16, from: int) -> Option<int>
    decreases s.len() - from,
{
    if from < 0 || from >= s.len() {
        None
    } else if s[from].spec_is_active_for_market(market_index) {
        Some(from)
    } else {
        first_position(s, market_index, from + 1)
    }
}

/// Index of the first free open-order slot from `from` on, among those that
/// an order can refer to.
pub open spec fn first_free_slot(s: Seq<PerpOpenOrder>, from: int) -> Option<int>
    decreases s.len() - from,
{
    if from < 0 || from >= s.len() || from >= MAX_ORDER_SLOTS {
        None
    } else if s[from].market == FREE_ORDER_SLOT {
        Some(from)
    } else {
        first_free_slot(s, from + 1)
    }
}

pub proof fn lemma_first_position(s: Seq<PerpPosition>, market_index: u16, from: int)
    requires
        0 <= from,
    ensures
        match first_position(s, market_index, from) {
            Some(i) => from <= i < s.len() && s[i].spec_is_active_for_market(market_index),
            None => true,
        },
    decreases s.len() - from,
{
    if from < s.len() && !s[from].spec_is_active_for_market(market_index) {
        lemma_first_position(s, market_index, from + 1);
    }
}

/// Replacing a position by one that is active for the same market leaves
/// the first active position where it was.
pub proof fn lemma_first_position_update(
    s: Seq<PerpPosition>,
    market_index: u16,
    p: int,
    position: PerpPosition,
    from: int,
)
    requires
        0 <= p < s.len(),
        0 <= from,
        position.spec_is_active_for_market(market_index) == s[p].spec_is_active_for_market(
            market_index,
        ),
    ensures
        first_position(s.update(p, position), market_index, from) == first_position(
            s,
            market_index,
            from,
        ),
    decreases s.len() - from,
{
    if from < s.len() {
        lemma_first_position_update(s, market_index, p, position, from + 1);
    }
}

pub proof fn lemma_first_free_slot(s: Seq<PerpOpenOrder>, from: int)
    requires
        0 <= from,
    ensures
        match first_free_slot(s, from) {
            Some(i) => from <= i < s.len() && i < MAX_ORDER_SLOTS && s[i].market
                == FREE_ORDER_SLOT,
            None => true,
        },
    decreases s.len() - from,
{
    if from < s.len() && from < MAX_ORDER_SLOTS && s[from].market != FREE_ORDER_SLOT {
        lemma_first_free_slot(s, from + 1);
    }
}

/// What the order book reads and updates of a trading account.
#[derive(Clone, Debug)]
pub struct Account {
    /// Fees that count towards the protocol's buy-back, in whole native
    /// quote units.
    pub buyback_fees_accrued: u64,
    pub perp_positions: Vec<PerpPosition>,
    pub perp_open_orders: Vec<PerpOpenOrder>,
}

/// The mathematical value of an [`Account`].
#[verifier::ext_equal]
pub struct AccountView {
    pub buyback_fees_accrued: u64,
    pub perp_positions: Seq<PerpPosition>,
    pub perp_open_orders: Seq<PerpOpenOrder>,
}

impl View for Account {
    type V = AccountView;

    open spec fn view(&self) -> AccountView {
        AccountView {
            buyback_fees_accrued: self.buyback_fees_accrued,
            perp_positions: self.perp_positions@,
            perp_open_orders: self.perp_open_orders@,
        }
    }
}

impl AccountView {
    pub open spec fn position_index(self, market_index: u16) -> Option<int> {
        first_position(self.perp_positions, market_index, 0)
    }

    pub open spec fn next_order_slot(self) -> Option<int> {
        first_free_slot(self.perp_open_orders, 0)
    }

    /// The account with `amount` more buy-back fees, held at `u64::MAX`.
    pub open spec fn with_buyback_fees(self, amount: u64) -> AccountView {
        AccountView {
            buyback_fees_accrued: if self.buyback_fees_accrued + amount > u64::MAX {
                u64::MAX
            } else {
                (self.buyback_fees_accrued + amount) as u64
            },
            ..self
        }
    }

    /// The account after registering the resting order `order`, placed on
    /// `side` in collection `order_tree` of market `market_index`: the
    /// position for the market counts its base lots, and the slot that the
    /// order names records it.
    pub open spec fn with_order(
        self,
        market_index: u16,
        side: Side,
        order_tree: BookSideOrderTree,
        order: LeafNode,
        client_order_id: u64,
    ) -> Result<AccountView, Error> {
        match self.position_index(market_index) {
            None => Err(Error::PositionNotFound),
            Some(p) => if order.owner_slot >= self.perp_open_orders.len() {
                Err(Error::InvariantViolation)
            } else {
                match self.perp_positions[p].with_resting_lots(side, order.quantity as int) {
                    None => Err(Error::MathOverflow),
                    Some(position) => Ok(
                        AccountView {
                            perp_positions: self.perp_positions.update(p, position),
                            perp_open_orders: self.perp_open_orders.update(
                                order.owner_slot as int,
                                PerpOpenOrder {
                                    market: market_index,
                                    side_and_tree: SideAndOrderTree::make(side, order_tree),
                                    id: order.key,
                                    client_id: client_order_id,
                                },
                            ),
                            ..self
                        },
                    ),
                }
            },
        }
    }

    /// The account after the resting order recorded in slot `slot` left the
    /// book with `quantity` base lots unmatched: the position for the slot's
    /// market no longer counts them, and the slot is free.
    pub open spec fn without_order(self, slot: int, quantity: i64) -> Result<AccountView, Error> {
        if slot < 0 || slot >= self.perp_open_orders.len() || self.perp_open_orders[slot].market
            == FREE_ORDER_SLOT {
            Err(Error::InvariantViolation)
        } else {
            let oo = self.perp_open_orders[slot];
            match self.position_index(oo.market) {
                None => Err(Error::PositionNotFound),
                Some(p) => match self.perp_positions[p].with_resting_lots(
                    oo.side_and_tree.spec_side(),
                    -(quantity as int),
                ) {
                    None => Err(Error::MathOverflow),
                    Some(position) => Ok(
                        AccountView {
                            perp_positions: self.perp_positions.update(p, position),
                            perp_open_orders: self.perp_open_orders.update(
                                slot,
                                PerpOpenOrder::spec_free(),
                            ),
                            ..self
                        },
                    ),
                },
            }
        }
    }
}

impl Account {
    /// An account with `positions` unused positions and `slots` free
    /// open-order slots.
    pub fn new(positions: usize, slots: usize) -> (account: Account)
        ensures
            account@.buyback_fees_accrued == 0,
            account@.perp_positions.len() == positions,
            account@.perp_open_orders.len() == slots,
            forall|i: int|
                0 <= i < positions ==> #[trigger] account@.perp_positions[i]
                    == PerpPosition::spec_unused(),
            forall|i: int|
                0 <= i < slots ==> #[trigger] account@.perp_open_orders[i]
                    == PerpOpenOrder::spec_free(),
    {
        let mut perp_positions: Vec<PerpPosition> = Vec::new();
        let mut i: usize = 0;
        while i < positions
            invariant
                i <= positions,
                perp_positions@.len() == i,
                forall|j: int|
                    0 <= j < i ==> #[trigger] perp_positions@[j] == PerpPosition::spec_unused(),
            decreases positions - i,
        {
            perp_positions.push(PerpPosition::unused());
            i += 1;
        }
        let mut perp_open_orders: Vec<PerpOpenOrder> = Vec::new();
        let mut k: usize = 0;
        while k < slots
            invariant
                k <= slots,
                perp_open_orders@.len() == k,
                forall|j: int|
                    0 <= j < k ==> #[trigger] perp_open_orders@[j] == PerpOpenOrder::spec_free(),
            decreases slots - k,
        {
            perp_open_orders.push(PerpOpenOrder::free());
            k += 1;
        }
        Account { buyback_fees_accrued: 0, perp_positions, perp_open_orders }
    }

    /// Number of open-order slots.
    pub fn perp_oo_count(&self) -> (r: usize)
        ensures
            r == self@.perp_open_orders.len(),
    {
        self.perp_open_orders.len()
    }

    /// The open-order slot at `index`.
    pub fn perp_order_by_raw_index(&self, index: usize) -> (r: Option<PerpOpenOrder>)
        ensures
            index < self@.perp_open_orders.len() ==> r == Some(
                self@.perp_open_orders[index as int],
            ),
            index >= self@.perp_open_orders.len() ==> r.is_none(),
    {
        if index < self.perp_open_orders.len() {
            Some(self.perp_open_orders[index])
        } else {
            None
        }
    }

    /// Index of the account's position in market `market_index`.
    pub fn perp_position_index(&self, market_index: u16) -> (r: Result<usize, Error>)
        ensures
            match self@.position_index(market_index) {
                Some(i) => r.is_ok() && r.unwrap() as int == i && 0 <= i
                    < self@.perp_positions.len(),
                None => r == Err::<usize, Error>(Error::PositionNotFound),
            },
    {
        let mut i: usize = 0;
        while i < self.perp_positions.len()
            invariant
                i <= self.perp_positions@.len(),
                first_position(self.perp_positions@, market_index, 0) == first_position(
                    self.perp_positions@,
                    market_index,
                    i as int,
                ),
            decreases self.perp_positions@.len() - i,
        {
            if self.perp_positions[i].is_active_for_market(market_index) {
                return Ok(i);
            }
            i += 1;
        }
        Err(Error::PositionNotFound)
    }

    /// The account's position in market `market_index`.
    pub fn perp_position(&self, market_index: u16) -> (r: Result<PerpPosition, Error>)
        ensures
            match self@.position_index(market_index) {
                Some(i) => r == Ok::<PerpPosition, Error>(self@.perp_positions[i]),
                None => r == Err::<PerpPosition, Error>(Error::PositionNotFound),
            },
    {
        match self.perp_position_index(market_index) {
            Ok(i) => Ok(self.perp_positions[i]),
            Err(e) => Err(e),
        }
    }

    /// The account's position in market `market_index`, to change it.
    pub fn perp_position_mut(&mut self, market_index: u16) -> (r: Result<
        &mut PerpPosition,
        Error,
    >)
        ensures
            match old(self)@.position_index(market_index) {
                Some(i) => {
                    &&& r.is_ok()
                    &&& *r->Ok_0 == old(self)@.perp_positions[i]
                    &&& final(self)@ == (AccountView {
                        perp_positions: old(self)@.perp_positions.update(i, *final(r->Ok_0)),
                        ..old(self)@
                    })
                },
                None => r.is_err() && r->Err_0 == Error::PositionNotFound
                    && final(self)@ == old(self)@,
            },
    {
        match self.perp_position_index(market_index) {
            Ok(i) => Ok(&mut self.perp_positions[i]),
            Err(e) => Err(e),
        }
    }

    /// Index of the first free open-order slot.
    pub fn perp_next_order_slot(&self) -> (r: Result<usize, Error>)
        ensures
            match self@.next_order_slot() {
                Some(i) => r.is_ok() && r.unwrap() as int == i && 0 <= i
                    < self@.perp_open_orders.len() && i < MAX_ORDER_SLOTS,
                None => r == Err::<usize, Error>(Error::NoFreeOrderSlot),
            },
    {
        let mut i: usize = 0;
        while i < self.perp_open_orders.len() && i < MAX_ORDER_SLOTS
            invariant
                i <= self.perp_open_orders@.len(),
                first_free_slot(self.perp_open_orders@, 0) == first_free_slot(
                    self.perp_open_orders@,
                    i as int,
                ),
            decreases self.perp_open_orders@.len() - i,
        {
            if self.perp_open_orders[i].market == FREE_ORDER_SLOT {
                return Ok(i);
            }
            i += 1;
        }
        Err(Error::NoFreeOrderSlot)
    }

    /// Adds `amount` to the buy-back fees, holding them at `u64::MAX`.
    pub fn accrue_buyback_fees(&mut self, amount: u64)
        ensures
            final(self)@ == old(self)@.with_buyback_fees(amount),
    {
        self.buyback_fees_accrued = self.buyback_fees_accrued.saturating_add(amount);
    }

    /// Registers a new resting order with the account. On an error the
    /// account is left as it was.
    pub fn add_perp_order(
        &mut self,
        market_index: u16,
        side: Side,
        order_tree: BookSideOrderTree,
        order: &LeafNode,
        client_order_id: u64,
    ) -> (r: Result<(), Error>)
        ensures
            match old(self)@.with_order(market_index, side, order_tree, *order, client_order_id) {
                Ok(after) => r.is_ok() && final(self)@ == after,
                Err(e) => r == Err::<(), Error>(e) && final(self)@ == old(self)@,
            },
    {
        let p = match self.perp_position_index(market_index) {
            Ok(p) => p,
            Err(e) => {
                return Err(e);
            },
        };
        let slot = order.owner_slot as usize;
        if slot >= self.perp_open_orders.len() {
            return Err(Error::InvariantViolation);
        }
        let mut position = self.perp_positions[p];
        match position.add_resting_lots(side, order.quantity) {
            Ok(()) => {},
            Err(e) => {
                return Err(e);
            },
        }
        self.perp_positions.set(p, position);
        self.perp_open_orders.set(
            slot,
            PerpOpenOrder {
                market: market_index,
                side_and_tree: SideAndOrderTree::new(side, order_tree),
                id: order.key,
                client_id: client_order_id,
            },
        );
        Ok(())
    }

    /// Releases the open-order slot `slot` of a resting order that left the
    /// book with `quantity` base lots unmatched. On an error the account is
    /// left as it was.
    pub fn remove_perp_order(&mut self, slot: usize, quantity: i64) -> (r: Result<(), Error>)
        ensures
            match old(self)@.without_order(slot as int, quantity) {
                Ok(after) => r.is_ok() && final(self)@ == after,
                Err(e) => r == Err::<(), Error>(e) && final(self)@ == old(self)@,
            },
    {
        if slot >= self.perp_open_orders.len() {
            return Err(Error::InvariantViolation);
        }
        let oo = self.perp_open_orders[slot];
        if oo.market == FREE_ORDER_SLOT {
            return Err(Error::InvariantViolation);
        }
        let p = match self.perp_position_index(oo.market) {
            Ok(p) => p,
            Err(e) => {
                return Err(e);
            },
        };
        let mut position = self.perp_positions[p];
        match position.remove_resting_lots(oo.side_and_tree.side(), quantity) {
            Ok(()) => {},
            Err(e) => {
                return Err(e);
            },
        }
        self.perp_positions.set(p, position);
        self.perp_open_orders.set(slot, PerpOpenOrder::free());
        Ok(())
    }
}

} // verus!
