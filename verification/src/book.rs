//! The order book of a market, and the cancelling of orders.

use vstd::prelude::*;
use crate::account::{Account, AccountView};
use crate::bookside::{has_key, key_position, BookSide, BookSideView};
use crate::error::Error;
use crate::market::PerpMarket;
use crate::node::{AccountId, LeafNode};
use crate::side::{Side, SideAndOrderTree};

verus! {

/// The order book of one market: a store of resting bids and one of resting
/// asks.
#[derive(Clone, Debug)]
pub struct Orderbook {
    pub bids: BookSide,
    pub asks: BookSide,
}

/// The mathematical value of an [`Orderbook`].
#[verifier::ext_equal]
pub struct OrderbookView {
    pub bids: BookSideView,
    pub asks: BookSideView,
}

impl View for Orderbook {
    type V = OrderbookView;

    open spec fn view(&self) -> OrderbookView {
        OrderbookView { bids: self.bids@, asks: self.asks@ }
    }
}

impl OrderbookView {
    /// The store of one side.
    pub open spec fn side(self, side: Side) -> BookSideView {
        match side {
            Side::Bid => self.bids,
            Side::Ask => self.asks,
        }
    }

    /// The book with `store` as the store of `side`.
    pub open spec fn with_side(self, side: Side, store: BookSideView) -> OrderbookView {
        match side {
            Side::Bid => OrderbookView { bids: store, ..self },
            Side::Ask => OrderbookView { asks: store, ..self },
        }
    }

    /// The book with its stores marked as bids and asks, every order where
    /// it was.
    pub open spec fn initialized(self) -> OrderbookView {
        OrderbookView {
            bids: BookSideView { side: Side::Bid, ..self.bids },
            asks: BookSideView { side: Side::Ask, ..self.asks },
        }
    }

    /// Both stores are well formed, and each is marked for its side
    /// already or holds no order.
    pub open spec fn keeps_order_when_initialized(self) -> bool {
        &&& self.bids.wf()
        &&& self.asks.wf()
        &&& self.bids.side == Side::Bid || self.bids.len() == 0
        &&& self.asks.side == Side::Ask || self.asks.len() == 0
    }

    /// The book's invariant: both stores are well formed, and each is the
    /// store of its side.
    pub open spec fn wf(self) -> bool {
        &&& self.bids.wf()
        &&& self.asks.wf()
        &&& self.bids.side == Side::Bid
        &&& self.asks.side == Side::Ask
    }
}

/// What cancelling the order `order_id` does to the book and to the account
/// that holds its open-order slot.
///
/// Where the order is not in the indicated collection, where it belongs to
/// another owner than expected, or where the account cannot release the
/// order's slot, the call fails and nothing changes. Otherwise the order
/// leaves the book and its slot is released.
pub open spec fn cancel_outcome(
    book: OrderbookView,
    account: AccountView,
    order_id: u128,
    side_and_tree: SideAndOrderTree,
    expected_owner: Option<AccountId>,
) -> (Result<LeafNode, Error>, OrderbookView, AccountView) {
    let side = side_and_tree.spec_side();
    let t = side_and_tree.spec_order_tree();
    let tree = book.side(side).tree(t);
    if !has_key(tree, order_id) {
        (Err(Error::OrderNotFound), book, account)
    } else {
        let index = key_position(tree, order_id);
        let leaf = tree[index];
        if expected_owner.is_some() && expected_owner.unwrap() != leaf.owner {
            (Err(Error::AuthorizationMismatch), book, account)
        } else {
            match account.without_order(leaf.owner_slot as int, leaf.quantity) {
                Err(e) => (Err(e), book, account),
                Ok(released) => (
                    Ok(leaf),
                    book.with_side(side, book.side(side).with_tree(t, tree.remove(index))),
                    released,
                ),
            }
        }
    }
}

/// What cancelling the account's orders in market `market_index` does, from
/// open-order slot `i` on, while `limit` orders may still be dealt with.
///
/// The slots are gone through in order. A slot counts if it records an
/// order of the market, on the side asked for where one is given. For each
/// slot that counts the order is cancelled; that the order is no longer in
/// the book is passed over; any other failure ends the call with that error.
/// Each slot that counts uses up one of `limit`.
pub open spec fn cancel_all_outcome(
    book: OrderbookView,
    account: AccountView,
    market_index: u16,
    limit: nat,
    side_to_cancel: Option<Side>,
    i: int,
    slots: nat,
) -> (Result<(), Error>, OrderbookView, AccountView)
    decreases slots - i,
{
    if limit == 0 || i < 0 || i >= slots || i >= account.perp_open_orders.len() {
        (Ok(()), book, account)
    } else {
        let oo = account.perp_open_orders[i];
        if !oo.spec_is_active_for_market(market_index) || (side_to_cancel.is_some()
            && side_to_cancel.unwrap() != oo.side_and_tree.spec_side()) {
            cancel_all_outcome(book, account, market_index, limit, side_to_cancel, i + 1, slots)
        } else {
            let (result, book_after, account_after) = cancel_outcome(
                book,
                account,
                oo.id,
                oo.side_and_tree,
                None,
            );
            match result {
                Ok(_) | Err(Error::OrderNotFound) => cancel_all_outcome(
                    book_after,
                    account_after,
                    market_index,
                    (limit - 1) as nat,
                    side_to_cancel,
                    i + 1,
                    slots,
                ),
                Err(e) => (Err(e), book, account),
            }
        }
    }
}

impl Orderbook {
    /// The book's invariant.
    pub open spec fn wf(&self) -> bool {
        self@.wf()
    }

    /// Marks the first store as that of the bids and the second as that of
    /// the asks. No order is added, removed or changed, and a second call
    /// changes nothing. A book of well-formed stores is well formed
    /// afterwards if each store was marked for its side already or holds no
    /// order.
    pub fn init(&mut self)
        ensures
            final(self)@ == old(self)@.initialized(),
            old(self)@.keeps_order_when_initialized() ==> final(self).wf(),
    {
        self.bids.set_side(Side::Bid);
        self.asks.set_side(Side::Ask);
    }

    /// The store of `side`, to change it.
    pub fn bookside_mut(&mut self, side: Side) -> (r: &mut BookSide)
        ensures
            r@ == old(self)@.side(side),
            final(self)@ == old(self)@.with_side(side, final(r)@),
    {
        match side {
            Side::Bid => &mut self.bids,
            Side::Ask => &mut self.asks,
        }
    }

    /// The store of `side`.
    pub fn bookside(&self, side: Side) -> (r: &BookSide)
        ensures
            r@ == self@.side(side),
    {
        match side {
            Side::Bid => &self.bids,
            Side::Ask => &self.asks,
        }
    }

    /// Cancels an order on a side, removing it from the book and from the
    /// account's open orders.
    ///
    /// Fails with `OrderNotFound` if no order with the key `order_id` is in
    /// the indicated collection, with `AuthorizationMismatch` if
    /// `expected_owner` is given and is not the order's owner, and with the
    /// account's error if the account cannot release the order's slot. On
    /// every failure the book and the account are left as they were.
    pub fn cancel_order(
        &mut self,
        account: &mut Account,
        order_id: u128,
        side_and_tree: SideAndOrderTree,
        expected_owner: Option<AccountId>,
    ) -> (r: Result<LeafNode, Error>)
        requires
            old(self).wf(),
        ensures
            final(self).wf(),
            r == cancel_outcome(
                old(self)@,
                old(account)@,
                order_id,
                side_and_tree,
                expected_owner,
            ).0,
            final(self)@ == cancel_outcome(
                old(self)@,
                old(account)@,
                order_id,
                side_and_tree,
                expected_owner,
            ).1,
            final(account)@ == cancel_outcome(
                old(self)@,
                old(account)@,
                order_id,
                side_and_tree,
                expected_owner,
            ).2,
            r.is_err() ==> final(self)@ == old(self)@ && final(account)@ == old(account)@,
    {
        let side = side_and_tree.side();
        let book_component = side_and_tree.order_tree();
        let index = match self.bookside(side).position_of_key(book_component, order_id) {
            Some(index) => index,
            None => {
                return Err(Error::OrderNotFound);
            },
        };
        let leaf_node = self.bookside(side).node_at(book_component, index).unwrap();
        if let Some(owner) = expected_owner {
            if leaf_node.owner != owner {
                return Err(Error::AuthorizationMismatch);
            }
        }
        match account.remove_perp_order(leaf_node.owner_slot as usize, leaf_node.quantity) {
            Ok(()) => {},
            Err(e) => {
                return Err(e);
            },
        }
        match side {
            Side::Bid => {
                self.bids.remove_at(book_component, index);
            },
            Side::Ask => {
                self.asks.remove_at(book_component, index);
            },
        }
        Ok(leaf_node)
    }

    /// Cancels up to `limit` orders that are listed on the account for the
    /// given market, optionally only those on `side_to_cancel_option`. The
    /// orders are removed from the book and from the account's open orders.
    ///
    /// An order that is listed but no longer in the book is passed over: it
    /// was filled or has expired, and its slot is released when the event is
    /// settled. Any other failure ends the call with that error; what was
    /// cancelled before stays cancelled.
    pub fn cancel_all_orders(
        &mut self,
        account: &mut Account,
        perp_market: &mut PerpMarket,
        limit: u8,
        side_to_cancel_option: Option<Side>,
    ) -> (r: Result<(), Error>)
        requires
            old(self).wf(),
        ensures
            final(self).wf(),
            *final(perp_market) == *old(perp_market),
            r == cancel_all_outcome(
                old(self)@,
                old(account)@,
                old(perp_market).perp_market_index,
                limit as nat,
                side_to_cancel_option,
                0,
                old(account)@.perp_open_orders.len(),
            ).0,
            final(self)@ == cancel_all_outcome(
                old(self)@,
                old(account)@,
                old(perp_market).perp_market_index,
                limit as nat,
                side_to_cancel_option,
                0,
                old(account)@.perp_open_orders.len(),
            ).1,
            final(account)@ == cancel_all_outcome(
                old(self)@,
                old(account)@,
                old(perp_market).perp_market_index,
                limit as nat,
                side_to_cancel_option,
                0,
                old(account)@.perp_open_orders.len(),
            ).2,
    {
        let market_index = perp_market.perp_market_index;
        let slots = account.perp_oo_count();
        let ghost outcome = cancel_all_outcome(
            self@,
            account@,
            market_index,
            limit as nat,
            side_to_cancel_option,
            0,
            slots as nat,
        );
        let mut remaining = limit;
        let mut i: usize = 0;
        while i < slots && remaining > 0
            invariant
                self.wf(),
                i <= slots,
                slots == account@.perp_open_orders.len(),
                *perp_market == *old(perp_market),
                outcome == cancel_all_outcome(
                    old(self)@,
                    old(account)@,
                    old(perp_market).perp_market_index,
                    limit as nat,
                    side_to_cancel_option,
                    0,
                    old(account)@.perp_open_orders.len(),
                ),
                cancel_all_outcome(
                    self@,
                    account@,
                    market_index,
                    remaining as nat,
                    side_to_cancel_option,
                    i as int,
                    slots as nat,
                ) == outcome,
            decreases slots - i,
        {
            let oo = account.perp_order_by_raw_index(i).unwrap();
            let skip = !oo.is_active_for_market(market_index) || match side_to_cancel_option {
                Some(side_to_cancel) => side_to_cancel != oo.side_and_tree.side(),
                None => false,
            };
            let ghost book_before = self@;
            let ghost account_before = account@;
            if !skip {
                match self.cancel_order(account, oo.id, oo.side_and_tree, None) {
                    Ok(_) => {},
                    Err(Error::OrderNotFound) => {},
                    Err(e) => {
                        assert(self@ == book_before && account@ == account_before);
                        assert(outcome == (Err::<(), Error>(e), book_before, account_before));
                        return Err(e);
                    },
                }
                remaining = remaining - 1;
            }
            i += 1;
        }
        Ok(())
    }
}

} // verus!
