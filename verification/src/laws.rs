//! What holds of the order book as a whole, proved from the contracts of its
//! operations.

use vstd::prelude::*;
use crate::account::{
    lemma_first_free_slot, lemma_first_position, lemma_first_position_update, AccountView,
};
use crate::book::{cancel_outcome, OrderbookView};
use crate::bookside::{
    earliest_expired, has_key, insertion_index, key_goes_before, key_position, leaf_ok,
    lemma_earliest_expired, lemma_insert_keeps_sorted, lemma_key_position_unique, BookSideView,
};
use crate::error::Error;
use crate::event::{AnyEvent, EventQueue};
use crate::fees::{ledger_after_fees, ledger_after_penalty, taker_fees, FeeLedger};
use crate::fixed_point::I80F48;
use crate::iter::{last_valid, lemma_last_valid_in_range};
use crate::market::PerpMarket;
use crate::matching::{
    event_ok, fill_count, filled_base, filled_quote, fills_of, lemma_filled_push,
    lemma_fills_of_push, lemma_match_outcome_ok, match_outcome, DROP_EXPIRED_ORDER_LIMIT,
};
use crate::node::{AccountId, LeafNode};
use crate::order::Order;
use crate::placement::{
    lemma_order_plan_ok, match_context, max_events_per_order, new_order_outcome, order_plan,
    out_for, placement, resting_quantity, side_has_room, with_leaf, Resting,
};
use crate::side::{BookSideOrderTree, Side, SideAndOrderTree};

verus! {

/// Events that are all `Out` events add nothing to the matched quantities
/// of the events before them.
pub proof fn lemma_outs_fill_nothing(events: Seq<AnyEvent>, outs: Seq<AnyEvent>)
    requires
        forall|k: int| 0 <= k < outs.len() ==> #[trigger] outs[k] is Out,
    ensures
        filled_base(events + outs) == filled_base(events),
        filled_quote(events + outs) == filled_quote(events),
        fill_count(events + outs) == fill_count(events),
        fills_of(events + outs) == fills_of(events),
    decreases outs.len(),
{
    if outs.len() == 0 {
        assert(events + outs =~= events);
    } else {
        lemma_outs_fill_nothing(events, outs.drop_last());
        assert(events + outs =~= (events + outs.drop_last()).push(outs.last()));
        lemma_filled_push(events + outs.drop_last(), outs.last());
        lemma_fills_of_push(events + outs.drop_last(), outs.last());
    }
}

/// Taker fees are never negative, and the buy-back part of a fee is zero
/// where the maker rebate is at least the taker fee: it does not go below
/// zero.
pub proof fn lemma_taker_fee_not_negative(market: PerpMarket, quote_lots: i64)
    ensures
        taker_fees(market, quote_lots) matches Ok(fees) ==> {
            &&& fees.taker.bits >= 0
            &&& fees.buyback >= 0
            &&& fees.taker.bits + fees.maker.bits <= 0 ==> fees.buyback == 0
            &&& fees.maker.bits >= 0 ==> fees.buyback == fees.volume
        },
{
}

/// Charging fees or the penalty never lowers the buy-back fees of the
/// account.
pub proof fn lemma_buyback_fees_never_fall(ledger: FeeLedger, quote_lots: i64)
    ensures
        ledger_after_fees(ledger, quote_lots) matches Ok(after) ==> after.buyback_fees_accrued
            >= ledger.buyback_fees_accrued,
        ledger_after_penalty(ledger) matches Ok(after) ==> after.buyback_fees_accrued
            >= ledger.buyback_fees_accrued,
{
}

/// Cancelling by a key that is not in the book reports `OrderNotFound` and
/// leaves the book and the account exactly as they were.
pub proof fn lemma_cancel_unknown_key(
    book: OrderbookView,
    account: AccountView,
    order_id: u128,
    side_and_tree: SideAndOrderTree,
    expected_owner: Option<AccountId>,
)
    requires
        !has_key(
            book.side(side_and_tree.spec_side()).tree(side_and_tree.spec_order_tree()),
            order_id,
        ),
    ensures
        cancel_outcome(book, account, order_id, side_and_tree, expected_owner) == (
            Err::<LeafNode, Error>(Error::OrderNotFound),
            book,
            account,
        ),
{
}

/// Cancelling is idempotent: once an order was cancelled, cancelling it
/// again reports `OrderNotFound` and changes nothing.
pub proof fn lemma_cancel_twice(
    book: OrderbookView,
    account: AccountView,
    order_id: u128,
    side_and_tree: SideAndOrderTree,
    expected_owner: Option<AccountId>,
)
    requires
        book.wf(),
        cancel_outcome(book, account, order_id, side_and_tree, expected_owner).0.is_ok(),
    ensures
        ({
            let first = cancel_outcome(book, account, order_id, side_and_tree, expected_owner);
            cancel_outcome(first.1, first.2, order_id, side_and_tree, expected_owner) == (
                Err::<LeafNode, Error>(Error::OrderNotFound),
                first.1,
                first.2,
            )
        }),
{
    let side = side_and_tree.spec_side();
    let t = side_and_tree.spec_order_tree();
    let tree = book.side(side).tree(t);
    let index = key_position(tree, order_id);
    let first = cancel_outcome(book, account, order_id, side_and_tree, expected_owner);
    let after = first.1.side(side).tree(t);
    assert(after == tree.remove(index));
    if has_key(after, order_id) {
        let j = key_position(after, order_id);
        let k = if j < index {
            j
        } else {
            j + 1
        };
        assert(tree[k].key == order_id);
        lemma_key_position_unique(book.side(side).side, tree, k);
    }
}

/// A side stays well formed when a well-formed order with a new key is put
/// at its place, as long as the side has room for it.
pub proof fn lemma_with_leaf_wf(own: BookSideView, t: BookSideOrderTree, leaf: LeafNode)
    requires
        own.wf(),
        own.len() < own.capacity,
        leaf_ok(t, leaf),
        !has_key(own.tree(t), leaf.key),
    ensures
        with_leaf(own, t, leaf).wf(),
        with_leaf(own, t, leaf).len() == own.len() + 1,
        has_key(with_leaf(own, t, leaf).tree(t), leaf.key),
{
    lemma_insert_keeps_sorted(own.side, own.tree(t), leaf);
    let pos = insertion_index(own.side, own.tree(t), leaf.key, 0);
    let after = own.tree(t).insert(pos, leaf);
    assert(after[pos] == leaf);
    assert forall|i: int| 0 <= i < after.len() implies leaf_ok(t, #[trigger] after[i]) by {
        if i < pos {
            assert(after[i] == own.tree(t)[i]);
        } else if i > pos {
            assert(after[i] == own.tree(t)[i - 1]);
        }
    }
}

/// A side stays well formed when an order is removed from it, and it then
/// has room for one more.
pub proof fn lemma_removal_wf(own: BookSideView, t: BookSideOrderTree, index: int)
    requires
        own.wf(),
        0 <= index < own.tree(t).len(),
    ensures
        own.with_tree(t, own.tree(t).remove(index)).wf(),
        own.with_tree(t, own.tree(t).remove(index)).len() == own.len() - 1,
        forall|key: u128|
            !has_key(own.tree(t), key) ==> !has_key(
                #[trigger] own.with_tree(t, own.tree(t).remove(index)).tree(t),
                key,
            ),
        !has_key(own.with_tree(t, own.tree(t).remove(index)).tree(t), own.tree(t)[index].key),
{
    let before = own.tree(t);
    let after = before.remove(index);
    assert forall|i: int, j: int| 0 <= i < j < after.len() implies key_goes_before(
        own.side,
        #[trigger] after[i].key,
        #[trigger] after[j].key,
    ) by {
        let bi = if i < index {
            i
        } else {
            i + 1
        };
        let bj = if j < index {
            j
        } else {
            j + 1
        };
        assert(key_goes_before(own.side, before[bi].key, before[bj].key));
    }
    assert forall|i: int| 0 <= i < after.len() implies leaf_ok(t, #[trigger] after[i]) by {
        let bi = if i < index {
            i
        } else {
            i + 1
        };
        assert(after[i] == before[bi]);
    }
    assert forall|key: u128| has_key(after, key) implies has_key(before, key) by {
        let j = key_position(after, key);
        let bj = if j < index {
            j
        } else {
            j + 1
        };
        assert(before[bj].key == key);
    }
    if has_key(after, before[index].key) {
        let j = key_position(after, before[index].key);
        let bj = if j < index {
            j
        } else {
            j + 1
        };
        assert(before[bj].key == before[index].key);
        lemma_key_position_unique(own.side, before, bj);
        lemma_key_position_unique(own.side, before, index);
    }
}

/// The capacity invariant. Placing an order never leaves a side with more
/// orders than its capacity, and the side stays well formed. At most one
/// order leaves the side to make room, with one event.
///
/// Into a full side whose collection holds no expired order an order is
/// placed only if
/// its price is strictly better than the price of the worst valid resting
/// order. That order is then evicted, exactly one `Out` event is emitted,
/// for that order, and the side holds as many orders as before, the new one
/// among them and the evicted one no longer. Otherwise the side is left as
/// it was and no event is emitted.
pub proof fn lemma_placement_keeps_capacity(
    own: BookSideView,
    t: BookSideOrderTree,
    leaf: LeafNode,
    price_lots: i64,
    now_ts: u64,
    oracle_price_lots: i64,
    first_seq_num: u64,
)
    requires
        own.wf(),
        leaf_ok(t, leaf),
        !has_key(own.tree(t), leaf.key),
    ensures
        ({
            let placed = placement(
                own,
                t,
                leaf,
                price_lots,
                now_ts,
                oracle_price_lots,
                first_seq_num,
            );
            let full = own.len() >= own.capacity;
            let none_expired = own.without_one_expired(t, now_ts).1.is_none();
            &&& placed.side.wf()
            &&& placed.side.len() <= own.capacity
            &&& placed.side.capacity == own.capacity
            &&& placed.side.side == own.side
            &&& placed.events.len() <= 1
            &&& placed.placed ==> has_key(placed.side.tree(t), leaf.key)
            &&& !placed.placed ==> placed.side == own && placed.events.len() == 0 && full
            &&& full && none_expired ==> match own.worst(now_ts, oracle_price_lots) {
                Some(worst) => {
                    &&& placed.placed == own.side.price_better(
                        price_lots as int,
                        worst.price_lots as int,
                    )
                    &&& placed.placed ==> {
                        &&& placed.events == seq![
                            out_for(own.side, worst.node, now_ts, first_seq_num as int),
                        ]
                        &&& placed.side.len() == own.len()
                        &&& placed.side == with_leaf(own.without_item(worst), t, leaf)
                        &&& !has_key(
                            own.without_item(worst).tree(worst.handle.order_tree),
                            worst.node.key,
                        )
                    }
                },
                None => !placed.placed,
            }
        }),
{
    let (swept, expired) = own.without_one_expired(t, now_ts);
    lemma_earliest_expired(own.tree(t), now_ts, own.tree(t).len());
    match earliest_expired(own.tree(t), now_ts, own.tree(t).len()) {
        Some(i) => {
            lemma_removal_wf(own, t, i);
        },
        None => {},
    }
    assert(swept.wf());
    assert(!has_key(swept.tree(t), leaf.key));
    if swept.len() < swept.capacity {
        lemma_with_leaf_wf(swept, t, leaf);
    } else {
        assert(swept == own);
        match swept.worst(now_ts, oracle_price_lots) {
            None => {},
            Some(worst) => {
                lemma_last_valid_in_range(swept.ordered(now_ts, oracle_price_lots), swept.len());
                let i = last_valid(swept.ordered(now_ts, oracle_price_lots), swept.len()).unwrap();
                swept.lemma_item_is_resting_order(now_ts, oracle_price_lots, i);
                lemma_removal_wf(swept, worst.handle.order_tree, worst.handle.node as int);
                let evicted = swept.without_item(worst);
                if own.side.price_better(price_lots as int, worst.price_lots as int) {
                    assert(!has_key(evicted.tree(t), leaf.key)) by {
                        if worst.handle.order_tree != t {
                            assert(evicted.tree(t) == swept.tree(t));
                        }
                    }
                    lemma_with_leaf_wf(evicted, t, leaf);
                    assert(Seq::<AnyEvent>::empty().push(
                        out_for(own.side, worst.node, now_ts, first_seq_num + 0),
                    ) =~= seq![out_for(own.side, worst.node, now_ts, first_seq_num as int)]);
                }
            },
        }
    }
}

/// Conservation of quantities. Whenever a call of `new_order` has matched,
/// whether it then succeeds or fails with `CapacityExceeded`, what the
/// `Fill` events it emitted take and what remains of the order add up to
/// what the order allowed, in base lots and in quote lots, and nothing
/// negative is taken. The taker's position records exactly what was taken.
pub proof fn lemma_new_order_conserves(
    book: OrderbookView,
    order: Order,
    market: PerpMarket,
    queue: EventQueue,
    oracle_price: I80F48,
    account: AccountView,
    taker: AccountId,
    now_ts: u64,
    limit: u8,
)
    requires
        book.wf(),
        queue.wf(),
    ensures
        order_plan(
            book,
            order,
            market,
            queue,
            oracle_price,
            account,
            taker,
            now_ts,
            limit,
        ) matches Ok(plan) ==> {
            let outcome = new_order_outcome(
                book,
                order,
                market,
                queue,
                oracle_price,
                account,
                taker,
                now_ts,
                limit,
            );
            let base_taken = filled_base(outcome.events);
            let quote_taken = filled_quote(outcome.events);
            &&& order.max_base_lots == base_taken + plan.matched.remaining_base_lots
            &&& order.max_quote_lots == quote_taken + plan.matched.remaining_quote_lots
            &&& 0 <= base_taken <= order.max_base_lots
            &&& 0 <= quote_taken <= order.max_quote_lots
            &&& plan.resting matches Resting::Place { order_tree: t, leaf } ==> 1 <= leaf.quantity
                <= plan.matched.remaining_base_lots
            &&& account.position_index(market.perp_market_index) matches Some(p) && p
                < outcome.account.perp_positions.len() && match order.side {
                Side::Bid => {
                    &&& outcome.account.perp_positions[p].taker_base_lots
                        == account.perp_positions[p].taker_base_lots + base_taken
                    &&& outcome.account.perp_positions[p].taker_quote_lots
                        == account.perp_positions[p].taker_quote_lots - quote_taken
                },
                Side::Ask => {
                    &&& outcome.account.perp_positions[p].taker_base_lots
                        == account.perp_positions[p].taker_base_lots - base_taken
                    &&& outcome.account.perp_positions[p].taker_quote_lots
                        == account.perp_positions[p].taker_quote_lots + quote_taken
                },
            }
        },
{
    let planned = order_plan(
        book,
        order,
        market,
        queue,
        oracle_price,
        account,
        taker,
        now_ts,
        limit,
    );
    if planned.is_ok() {
        let plan = planned->Ok_0;
        let oracle_price_lots = plan.oracle_price_lots;
        lemma_order_plan_ok(
            book,
            order,
            market,
            queue,
            oracle_price,
            account,
            taker,
            now_ts,
            limit,
        );
        let ctx = match_context(
            order,
            market,
            plan.price_lots,
            taker,
            now_ts,
            queue.spec_seq_num(),
        );
        lemma_match_outcome_ok(
            book.side(order.side.inverted()),
            ctx,
            oracle_price_lots,
            order.max_base_lots,
            order.max_quote_lots,
            limit,
        );
        lemma_placement_events_are_outs(
            book,
            order,
            plan.price_lots,
            now_ts,
            oracle_price_lots,
            plan.resting,
            (queue.spec_seq_num() + plan.matched.events.len()) as u64,
        );
        let p = account.position_index(market.perp_market_index).unwrap();
        lemma_first_position(account.perp_positions, market.perp_market_index, 0);
        lemma_first_position_update(
            account.perp_positions,
            market.perp_market_index,
            p,
            plan.ledger.position,
            0,
        );
        if plan.resting is Place {
            let t = plan.resting->order_tree;
            let leaf = plan.resting->leaf;
            let placed = placement(
                book.side(order.side),
                t,
                leaf,
                plan.price_lots,
                now_ts,
                oracle_price_lots,
                (queue.spec_seq_num() + plan.matched.events.len()) as u64,
            );
            lemma_outs_fill_nothing(plan.matched.events, placed.events);
            assert(0 <= plan.matched.remaining_quote_lots as int / plan.price_lots as int)
                by (nonlinear_arith)
                requires
                    0 <= plan.matched.remaining_quote_lots,
                    1 <= plan.price_lots,
            ;
        }
    }
}

/// The events that placing a remainder emits are all `Out` events.
proof fn lemma_placement_events_are_outs(
    book: OrderbookView,
    order: Order,
    price_lots: i64,
    now_ts: u64,
    oracle_price_lots: i64,
    resting: Resting,
    first_seq_num: u64,
)
    ensures
        resting matches Resting::Place { order_tree: t, leaf } ==> forall|k: int|
            0 <= k < placement(
                book.side(order.side),
                t,
                leaf,
                price_lots,
                now_ts,
                oracle_price_lots,
                first_seq_num,
            ).events.len() ==> #[trigger] placement(
                book.side(order.side),
                t,
                leaf,
                price_lots,
                now_ts,
                oracle_price_lots,
                first_seq_num,
            ).events[k] is Out,
{
}

/// The limit price is respected, and post-only orders never take. Every
/// `Fill` event that a call of `new_order` emits is at a price within the
/// order's limit: not above it for a bid, not below it for an ask. A
/// post-only order causes no `Fill` event at all.
pub proof fn lemma_new_order_respects_limit(
    book: OrderbookView,
    order: Order,
    market: PerpMarket,
    queue: EventQueue,
    oracle_price: I80F48,
    account: AccountView,
    taker: AccountId,
    now_ts: u64,
    limit: u8,
)
    requires
        book.wf(),
        queue.wf(),
    ensures
        ({
            let outcome = new_order_outcome(
                book,
                order,
                market,
                queue,
                oracle_price,
                account,
                taker,
                now_ts,
                limit,
            );
            forall|k: int|
                0 <= k < outcome.events.len() ==> match #[trigger] outcome.events[k] {
                    AnyEvent::Fill(fill) => {
                        &&& !order.spec_is_post_only()
                        &&& fill.price >= 1
                        &&& fill.quantity >= 0
                        &&& fill.taker == taker
                        &&& order_plan(
                            book,
                            order,
                            market,
                            queue,
                            oracle_price,
                            account,
                            taker,
                            now_ts,
                            limit,
                        ) matches Ok(plan) && order.side.price_within_limit(
                            fill.price as int,
                            plan.price_lots as int,
                        )
                    },
                    AnyEvent::Out(_) => true,
                }
        }),
{
    let planned = order_plan(
        book,
        order,
        market,
        queue,
        oracle_price,
        account,
        taker,
        now_ts,
        limit,
    );
    if planned.is_ok() {
        let plan = planned->Ok_0;
        let ctx = match_context(
            order,
            market,
            plan.price_lots,
            taker,
            now_ts,
            queue.spec_seq_num(),
        );
        lemma_match_outcome_ok(
            book.side(order.side.inverted()),
            ctx,
            plan.oracle_price_lots,
            order.max_base_lots,
            order.max_quote_lots,
            limit,
        );
        lemma_placement_events_are_outs(
            book,
            order,
            plan.price_lots,
            now_ts,
            plan.oracle_price_lots,
            plan.resting,
            (queue.spec_seq_num() + plan.matched.events.len()) as u64,
        );
        let outcome = new_order_outcome(
            book,
            order,
            market,
            queue,
            oracle_price,
            account,
            taker,
            now_ts,
            limit,
        );
        assert forall|k: int| 0 <= k < outcome.events.len() && outcome.events[k] is Fill implies k
            < plan.matched.events.len() && #[trigger] outcome.events[k] == plan.matched.events[k]
            && event_ok(ctx, plan.matched.events[k]) by {}
    }
}

/// When placing an order succeeds, and what every outcome leaves behind.
///
/// The book is well formed after every call. A call that `order_plan`
/// refuses fails with that error, which is never `CapacityExceeded`, and
/// changes nothing. Every other call takes the market's next sequence
/// number and emits no more events than the queue was asked to have room
/// for. Where a remainder is to rest, room on its side is decided before
/// anything is asked of the account. The call fails with `CapacityExceeded`
/// exactly if the side has no room; the order's own side and the account's
/// open orders are then as they were before, and only the events of
/// matching were emitted. It returns the key of the new order exactly if
/// the side has room and the account can take the order; the order is then
/// in its collection and in the account's open-order slot.
pub proof fn lemma_new_order_result(
    book: OrderbookView,
    order: Order,
    market: PerpMarket,
    queue: EventQueue,
    oracle_price: I80F48,
    account: AccountView,
    taker: AccountId,
    now_ts: u64,
    limit: u8,
)
    requires
        book.wf(),
        queue.wf(),
    ensures
        ({
            let planned = order_plan(
                book,
                order,
                market,
                queue,
                oracle_price,
                account,
                taker,
                now_ts,
                limit,
            );
            let outcome = new_order_outcome(
                book,
                order,
                market,
                queue,
                oracle_price,
                account,
                taker,
                now_ts,
                limit,
            );
            &&& outcome.book.wf()
            &&& planned matches Err(e) ==> {
                &&& outcome.result == Err::<Option<u128>, Error>(e)
                &&& e != Error::CapacityExceeded
                &&& outcome.book == book
                &&& outcome.market == market
                &&& outcome.events.len() == 0
                &&& outcome.account == account
            }
            &&& planned matches Ok(plan) ==> {
                &&& outcome.market.seq_num == market.seq_num + 1
                &&& outcome.events.len() <= max_events_per_order(limit)
                &&& match plan.resting {
                    Resting::Nothing => {
                        &&& outcome.result == Ok::<Option<u128>, Error>(None)
                        &&& outcome.book.side(order.side) == book.side(order.side)
                        &&& outcome.account.perp_open_orders == account.perp_open_orders
                    },
                    Resting::NoRoom => {
                        &&& outcome.result == Err::<Option<u128>, Error>(Error::CapacityExceeded)
                        &&& order.spec_post_target() matches Some(t) && !side_has_room(
                            book.side(order.side),
                            t,
                            plan.price_lots,
                            now_ts,
                            plan.oracle_price_lots,
                        )
                        &&& outcome.book.side(order.side) == book.side(order.side)
                        &&& outcome.events == plan.matched.events
                        &&& outcome.account.perp_open_orders == account.perp_open_orders
                    },
                    Resting::Place { order_tree: t, leaf } => {
                        &&& outcome.result == Ok::<Option<u128>, Error>(Some(leaf.key))
                        &&& side_has_room(
                            book.side(order.side),
                            t,
                            plan.price_lots,
                            now_ts,
                            plan.oracle_price_lots,
                        )
                        &&& leaf.owner == taker
                        &&& leaf.quantity == resting_quantity(plan.matched, plan.price_lots)
                        &&& has_key(outcome.book.side(order.side).tree(t), leaf.key)
                        &&& leaf.owner_slot < outcome.account.perp_open_orders.len()
                        &&& outcome.account.perp_open_orders[leaf.owner_slot as int].id
                            == leaf.key
                    },
                }
            }
        }),
{
    let planned = order_plan(
        book,
        order,
        market,
        queue,
        oracle_price,
        account,
        taker,
        now_ts,
        limit,
    );
    if planned.is_ok() {
        let plan = planned->Ok_0;
        lemma_order_plan_ok(
            book,
            order,
            market,
            queue,
            oracle_price,
            account,
            taker,
            now_ts,
            limit,
        );
        let ctx = match_context(
            order,
            market,
            plan.price_lots,
            taker,
            now_ts,
            queue.spec_seq_num(),
        );
        lemma_match_outcome_ok(
            book.side(order.side.inverted()),
            ctx,
            plan.oracle_price_lots,
            order.max_base_lots,
            order.max_quote_lots,
            limit,
        );
        if plan.resting is Place {
            let t = plan.resting->order_tree;
            let leaf = plan.resting->leaf;
            lemma_placement_keeps_capacity(
                book.side(order.side),
                t,
                leaf,
                plan.price_lots,
                now_ts,
                plan.oracle_price_lots,
                (queue.spec_seq_num() + plan.matched.events.len()) as u64,
            );
            lemma_first_free_slot(account.perp_open_orders, 0);
        }
    }
}

/// Initialising a book twice is the same as initialising it once, and it
/// changes nothing of a well-formed book.
pub proof fn lemma_init_is_idempotent(book: OrderbookView)
    ensures
        book.initialized().initialized() == book.initialized(),
        book.wf() ==> book.initialized() == book,
        book.initialized().bids.fixed == book.bids.fixed,
        book.initialized().bids.oracle_pegged == book.bids.oracle_pegged,
        book.initialized().asks.fixed == book.asks.fixed,
        book.initialized().asks.oracle_pegged == book.asks.oracle_pegged,
{
}

/// A call of `new_order` matches as the matching run does. Whenever the
/// call is not refused, the run it makes is the run of `match_outcome` over
/// the opposing side, for the order's side, limit price and quantities; the
/// opposing side is afterwards what the run leaves of it; and the `Fill`
/// events that the call appends are those of the run, in their order. So
/// what is proved of every run holds of every call: quantities are
/// conserved, makers are matched in the order of traversal and each keeps
/// what the match did not take, an earlier maker at one price is taken
/// completely before a later one gives anything, and no order priced
/// beyond the limit is touched.
pub proof fn lemma_new_order_runs_the_match(
    book: OrderbookView,
    order: Order,
    market: PerpMarket,
    queue: EventQueue,
    oracle_price: I80F48,
    account: AccountView,
    taker: AccountId,
    now_ts: u64,
    limit: u8,
)
    requires
        book.wf(),
        queue.wf(),
    ensures
        order_plan(
            book,
            order,
            market,
            queue,
            oracle_price,
            account,
            taker,
            now_ts,
            limit,
        ) matches Ok(plan) ==> {
            let outcome = new_order_outcome(
                book,
                order,
                market,
                queue,
                oracle_price,
                account,
                taker,
                now_ts,
                limit,
            );
            let opposing = book.side(order.side.inverted());
            let ctx = match_context(
                order,
                market,
                plan.price_lots,
                taker,
                now_ts,
                queue.spec_seq_num(),
            );
            &&& opposing.wf()
            &&& order.max_base_lots >= 0
            &&& order.max_quote_lots >= 0
            &&& ctx.first_seq_num + limit + DROP_EXPIRED_ORDER_LIMIT <= u64::MAX
            &&& order.spec_price(plan.oracle_price_lots) matches Ok(priced) && priced.0
                == plan.price_lots
            &&& plan.matched == match_outcome(
                opposing,
                ctx,
                plan.oracle_price_lots,
                order.max_base_lots,
                order.max_quote_lots,
                limit,
            )
            &&& outcome.book.side(order.side.inverted()) == plan.matched.applied_to(opposing)
            &&& fills_of(outcome.events) == fills_of(plan.matched.events)
        },
{
    let planned = order_plan(
        book,
        order,
        market,
        queue,
        oracle_price,
        account,
        taker,
        now_ts,
        limit,
    );
    if planned.is_ok() {
        let plan = planned->Ok_0;
        lemma_placement_events_are_outs(
            book,
            order,
            plan.price_lots,
            now_ts,
            plan.oracle_price_lots,
            plan.resting,
            (queue.spec_seq_num() + plan.matched.events.len()) as u64,
        );
        if plan.resting is Place {
            let placed = placement(
                book.side(order.side),
                plan.resting->order_tree,
                plan.resting->leaf,
                plan.price_lots,
                now_ts,
                plan.oracle_price_lots,
                (queue.spec_seq_num() + plan.matched.events.len()) as u64,
            );
            lemma_outs_fill_nothing(plan.matched.events, placed.events);
        }
    }
}

/// An order is placed exactly if its side has room for it or can make
/// room: the decision does not depend on the order itself, only on its
/// collection and its price.
pub proof fn lemma_placed_iff_room(
    own: BookSideView,
    t: BookSideOrderTree,
    leaf: LeafNode,
    price_lots: i64,
    now_ts: u64,
    oracle_price_lots: i64,
    first_seq_num: u64,
)
    ensures
        placement(own, t, leaf, price_lots, now_ts, oracle_price_lots, first_seq_num).placed
            == side_has_room(own, t, price_lots, now_ts, oracle_price_lots),
{
}

} // verus!
