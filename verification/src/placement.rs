//! Placing an order: planning, matching, charging and resting.

use vstd::prelude::*;
use crate::account::{
    lemma_first_free_slot, lemma_first_position, lemma_first_position_update, Account,
    AccountView,
};
use crate::book::{Orderbook, OrderbookView};
use crate::bookside::{
    has_key, insertion_index, key_position, leaf_ok, lemma_earliest_expired, BookSide,
    BookSideView,
};
use crate::iter::{last_valid, lemma_last_valid_in_range};
use crate::error::Error;
use crate::event::{AnyEvent, EventQueue, OutEvent};
use crate::fees::{
    account_with_ledger, charge_fees, charge_penalty, close_ledger, ledger_after_fees,
    ledger_after_penalty, ledger_of, open_ledger, FeeLedger,
};
use crate::fixed_point::I80F48;
use crate::key::{lemma_node_key_parts, new_node_key, node_key};
use crate::market::PerpMarket;
use crate::matching::{
    kept_ok, lemma_match_outcome_ok, match_orders, match_outcome, state_ok, MatchContext,
    MatchPlan, MatchState, DROP_EXPIRED_ORDER_LIMIT,
};
use crate::node::{AccountId, LeafNode};
use crate::order::Order;
use crate::side::{BookSideOrderTree, Side};

verus! {

/// Most events that placing one order emits: one for each match, one for
/// each expired order removed while matching, and one for the order that
/// makes room for the remainder, an expired order or the evicted one.
pub open spec fn max_events_per_order(limit: u8) -> nat {
    limit as nat + DROP_EXPIRED_ORDER_LIMIT as nat + 1
}

/// What the matching run of an incoming order knows.
pub open spec fn match_context(
    order: Order,
    market: PerpMarket,
    price_lots: i64,
    taker: AccountId,
    now_ts: u64,
    first_seq_num: u64,
) -> MatchContext {
    MatchContext {
        side: order.side,
        price_lots,
        post_only: order.spec_is_post_only(),
        now_ts,
        taker,
        taker_client_order_id: order.client_order_id,
        maker_fee: market.maker_fee,
        taker_fee: market.taker_fee,
        first_seq_num,
    }
}

/// The ledger after the taker took `base_lots` base lots for `quote_lots`
/// quote lots: the position records the trade and the fees are charged.
/// Nothing changes where nothing was taken.
pub open spec fn ledger_after_trade(
    ledger: FeeLedger,
    side: Side,
    base_lots: i64,
    quote_lots: i64,
) -> Result<FeeLedger, Error> {
    if base_lots > 0 || quote_lots > 0 {
        match ledger.position.with_taker_trade(side, base_lots, quote_lots) {
            None => Err(Error::MathOverflow),
            Some(position) => ledger_after_fees(FeeLedger { position, ..ledger }, quote_lots),
        }
    } else {
        Ok(ledger)
    }
}

/// Base lots of an order's remainder that can rest at `price_lots`: what
/// remains in base lots, but no more than the remaining quote lots pay for.
pub open spec fn resting_quantity(matched: MatchState, price_lots: i64) -> int {
    let by_quote = matched.remaining_quote_lots as int / price_lots as int;
    if matched.remaining_base_lots <= by_quote {
        matched.remaining_base_lots as int
    } else {
        by_quote
    }
}

/// What becomes of the remainder of an incoming order.
#[derive(Clone, Copy, Debug, PartialEq, Eq, Structural)]
pub enum Resting {
    /// No remainder rests.
    Nothing,
    /// A remainder was to rest, but its side has no room for it.
    NoRoom,
    /// The remainder rests as `leaf` in collection `order_tree`.
    Place { order_tree: BookSideOrderTree, leaf: LeafNode },
}

/// The side `own` has room for a new order in collection `t` at the price
/// `price_lots`, or can make room for it.
///
/// It has room once an expired order of the collection is removed, if
/// there is one. If it is full even then, it makes room only for an order
/// whose price is strictly better than that of the worst valid resting
/// order; for a price that ties with it, and where no order is valid, it
/// has none.
pub open spec fn side_has_room(
    own: BookSideView,
    t: BookSideOrderTree,
    price_lots: i64,
    now_ts: u64,
    oracle_price_lots: i64,
) -> bool {
    let swept = own.without_one_expired(t, now_ts).0;
    swept.len() < swept.capacity || match swept.worst(now_ts, oracle_price_lots) {
        Some(worst) => own.side.price_better(price_lots as int, worst.price_lots as int),
        None => false,
    }
}

/// What becomes of the remainder of an incoming order after matching.
///
/// No remainder rests where the order is of a kind that never rests, where
/// matching has withdrawn the permission, where nothing remains, or where
/// the price is outside the market's band around the oracle price. The
/// call fails where the band cannot be computed. Whether the order's side
/// has room is decided next, before anything is asked of the account: where
/// it has none, the remainder finds no room. Only an order that can be
/// placed needs a free open-order slot, a key that is new to its
/// collection, and resting lots that the account can count; the call fails
/// where one of these is missing.
pub open spec fn resting_order(
    own: BookSideView,
    order: Order,
    market: PerpMarket,
    oracle_price: I80F48,
    oracle_price_lots: i64,
    account: AccountView,
    taker: AccountId,
    now_ts: u64,
    matched: MatchState,
    price_lots: i64,
    order_id: u128,
    ledger: FeeLedger,
) -> Result<Resting, Error> {
    let quantity = resting_quantity(matched, price_lots);
    if !matched.post_allowed || quantity <= 0 || order.spec_post_target().is_none() {
        Ok(Resting::Nothing)
    } else {
        let t = order.spec_post_target().unwrap();
        match market.spec_may_rest(order.side, price_lots, oracle_price) {
            None => Err(Error::MathOverflow),
            Some(inside) => if !inside {
                Ok(Resting::Nothing)
            } else if !side_has_room(own, t, price_lots, now_ts, oracle_price_lots) {
                Ok(Resting::NoRoom)
            } else {
                match account.next_order_slot() {
                    None => Err(Error::NoFreeOrderSlot),
                    Some(slot) => if has_key(own.tree(t), order_id) {
                        Err(Error::InvariantViolation)
                    } else if ledger.position.with_resting_lots(order.side, quantity).is_none() {
                        Err(Error::MathOverflow)
                    } else {
                        Ok(
                            Resting::Place {
                                order_tree: t,
                                leaf: LeafNode {
                                    owner_slot: slot as u8,
                                    time_in_force: order.time_in_force,
                                    key: order_id,
                                    owner: taker,
                                    quantity: quantity as i64,
                                    timestamp: now_ts,
                                    peg_limit: order.spec_peg_limit(),
                                    client_order_id: order.client_order_id,
                                },
                            },
                        )
                    },
                }
            },
        }
    }
}

/// Everything that placing an order decides before anything changes.
#[verifier::ext_equal]
pub struct OrderPlan {
    /// The oracle price in lots.
    pub oracle_price_lots: i64,
    /// The order's limit price in lots.
    pub price_lots: i64,
    /// The price word of the new order's key.
    pub price_data: u64,
    /// The key of the new order.
    pub order_id: u128,
    /// The outcome of matching against the opposing side.
    pub matched: MatchState,
    /// The ledger after the penalty fee, the taker trade and its fees.
    pub ledger: FeeLedger,
    /// What becomes of the order's remainder.
    pub resting: Resting,
}

/// The plan for placing `order`, or the error with which the call is
/// refused before anything changes.
///
/// The call is refused with `InvariantViolation` for a negative quantity,
/// with `EventQueueFull` where the queue has no room for
/// `max_events_per_order(limit)` events, with `MathOverflow` where the
/// market's sequence counter is exhausted or the oracle price has no value
/// in lots, with `InvalidPrice` where the order's price is below one lot,
/// with `PositionNotFound` where the account has no position in the
/// market, and with the error of the fee ledger or of `resting_order`.
pub open spec fn order_plan(
    book: OrderbookView,
    order: Order,
    market: PerpMarket,
    queue: EventQueue,
    oracle_price: I80F48,
    account: AccountView,
    taker: AccountId,
    now_ts: u64,
    limit: u8,
) -> Result<OrderPlan, Error> {
    if order.max_base_lots < 0 || order.max_quote_lots < 0 {
        Err(Error::InvariantViolation)
    } else if !queue.spec_has_room(max_events_per_order(limit)) {
        Err(Error::EventQueueFull)
    } else if market.seq_num == u64::MAX {
        Err(Error::MathOverflow)
    } else {
        match market.spec_native_price_to_lot(oracle_price) {
            None => Err(Error::MathOverflow),
            Some(oracle_price_lots) => match order.spec_price(oracle_price_lots) {
                Err(e) => Err(e),
                Ok((price_lots, price_data)) => match ledger_of(market, account) {
                    Err(e) => Err(e),
                    Ok(opened) => match (if order.spec_needs_penalty_fee() {
                        ledger_after_penalty(opened)
                    } else {
                        Ok(opened)
                    }) {
                        Err(e) => Err(e),
                        Ok(penalised) => {
                            let order_id = node_key(
                                order.side,
                                price_data,
                                (market.seq_num + 1) as u64,
                            ) as u128;
                            let matched = match_outcome(
                                book.side(order.side.inverted()),
                                match_context(
                                    order,
                                    market,
                                    price_lots,
                                    taker,
                                    now_ts,
                                    queue.spec_seq_num(),
                                ),
                                oracle_price_lots,
                                order.max_base_lots,
                                order.max_quote_lots,
                                limit,
                            );
                            match ledger_after_trade(
                                penalised,
                                order.side,
                                (order.max_base_lots - matched.remaining_base_lots) as i64,
                                (order.max_quote_lots - matched.remaining_quote_lots) as i64,
                            ) {
                                Err(e) => Err(e),
                                Ok(ledger) => match resting_order(
                                    book.side(order.side),
                                    order,
                                    market,
                                    oracle_price,
                                    oracle_price_lots,
                                    account,
                                    taker,
                                    now_ts,
                                    matched,
                                    price_lots,
                                    order_id,
                                    ledger,
                                ) {
                                    Err(e) => Err(e),
                                    Ok(resting) => Ok(
                                        OrderPlan {
                                            oracle_price_lots,
                                            price_lots,
                                            price_data,
                                            order_id,
                                            matched,
                                            ledger,
                                            resting,
                                        },
                                    ),
                                },
                            }
                        },
                    },
                },
            },
        }
    }
}

/// The event for a resting order on `side` that leaves the book unmatched.
pub open spec fn out_for(side: Side, node: LeafNode, now_ts: u64, seq_num: int) -> AnyEvent {
    AnyEvent::Out(
        OutEvent {
            side,
            owner_slot: node.owner_slot,
            timestamp: now_ts,
            seq_num: seq_num as u64,
            owner: node.owner,
            quantity: node.quantity,
        },
    )
}

/// What placing a resting order does to its side of the book.
#[verifier::ext_equal]
pub struct Placement {
    /// The order was placed; otherwise the side had no room for it.
    pub placed: bool,
    /// The side afterwards.
    pub side: BookSideView,
    /// The events emitted, oldest first.
    pub events: Seq<AnyEvent>,
}

/// The side `own` with `leaf` at its place in collection `t`.
pub open spec fn with_leaf(
    own: BookSideView,
    t: BookSideOrderTree,
    leaf: LeafNode,
) -> BookSideView {
    own.with_tree(
        t,
        own.tree(t).insert(insertion_index(own.side, own.tree(t), leaf.key, 0), leaf),
    )
}

/// The outcome of placing the order `leaf`, priced at `price_lots`, in
/// collection `t` of the side `own`.
///
/// First one expired order of the collection is removed, if there is one,
/// with an `Out` event. If the side is full after that, the worst valid order is evicted
/// with an `Out` event, but only if the new order's price is strictly
/// better than that order's; if it is not, or no order is valid, the order
/// is not placed: the side stays as it was and no event is emitted.
pub open spec fn placement(
    own: BookSideView,
    t: BookSideOrderTree,
    leaf: LeafNode,
    price_lots: i64,
    now_ts: u64,
    oracle_price_lots: i64,
    first_seq_num: u64,
) -> Placement {
    let (swept, expired) = own.without_one_expired(t, now_ts);
    let swept_events = match expired {
        Some(node) => seq![out_for(own.side, node, now_ts, first_seq_num as int)],
        None => Seq::empty(),
    };
    if swept.len() < swept.capacity {
        Placement { placed: true, side: with_leaf(swept, t, leaf), events: swept_events }
    } else {
        match swept.worst(now_ts, oracle_price_lots) {
            None => Placement { placed: false, side: own, events: Seq::empty() },
            Some(worst) => if own.side.price_better(price_lots as int, worst.price_lots as int) {
                Placement {
                    placed: true,
                    side: with_leaf(swept.without_item(worst), t, leaf),
                    events: swept_events.push(
                        out_for(own.side, worst.node, now_ts, first_seq_num + swept_events.len()),
                    ),
                }
            } else {
                Placement { placed: false, side: own, events: Seq::empty() }
            },
        }
    }
}

/// What a call of `new_order` returns and leaves behind.
#[verifier::ext_equal]
pub struct NewOrderOutcome {
    pub result: Result<Option<u128>, Error>,
    pub book: OrderbookView,
    pub market: PerpMarket,
    /// The events appended to the queue, oldest first.
    pub events: Seq<AnyEvent>,
    pub account: AccountView,
}

/// What carrying out the plan `plan` for `order` returns and leaves
/// behind.
///
/// The matches are carried out: the market takes the next sequence number
/// and the ledger's fees, the account the ledger's position, the opposing
/// side loses what was matched or had expired, and the run's events are
/// appended. The order's remainder is then placed where the plan says so.
/// Where the plan finds no room for it on its side, the call fails with
/// `CapacityExceeded`, the side stays as it was, the account gets no new
/// open order, and what matching did stays done.
pub open spec fn outcome_of_plan(
    book: OrderbookView,
    order: Order,
    market: PerpMarket,
    queue: EventQueue,
    account: AccountView,
    now_ts: u64,
    plan: OrderPlan,
) -> NewOrderOutcome {
    let other = order.side.inverted();
    let matched = NewOrderOutcome {
        result: Ok(None),
        book: book.with_side(other, plan.matched.applied_to(book.side(other))),
        market: PerpMarket { seq_num: (market.seq_num + 1) as u64, ..plan.ledger.market },
        events: plan.matched.events,
        account: account_with_ledger(account, plan.ledger),
    };
    match plan.resting {
        Resting::Nothing => matched,
        Resting::NoRoom => NewOrderOutcome {
            result: Err(Error::CapacityExceeded),
            ..matched
        },
        Resting::Place { order_tree, leaf } => {
            let placed = placement(
                book.side(order.side),
                order_tree,
                leaf,
                plan.price_lots,
                now_ts,
                plan.oracle_price_lots,
                (queue.spec_seq_num() + plan.matched.events.len()) as u64,
            );
            NewOrderOutcome {
                result: Ok(Some(plan.order_id)),
                book: matched.book.with_side(order.side, placed.side),
                events: matched.events + placed.events,
                account: matched.account.with_order(
                    market.perp_market_index,
                    order.side,
                    order_tree,
                    leaf,
                    order.client_order_id,
                )->Ok_0,
                ..matched
            }
        },
    }
}

/// The outcome of placing `order`: where `order_plan` refuses the order,
/// nothing changes; otherwise the plan is carried out.
pub open spec fn new_order_outcome(
    book: OrderbookView,
    order: Order,
    market: PerpMarket,
    queue: EventQueue,
    oracle_price: I80F48,
    account: AccountView,
    taker: AccountId,
    now_ts: u64,
    limit: u8,
) -> NewOrderOutcome {
    match order_plan(book, order, market, queue, oracle_price, account, taker, now_ts, limit) {
        Err(e) => NewOrderOutcome { result: Err(e), book, market, events: Seq::empty(), account },
        Ok(plan) => outcome_of_plan(book, order, market, queue, account, now_ts, plan),
    }
}

/// The plan for placing an order as the engine holds it.
#[derive(Clone, Debug)]
pub struct PreparedOrder {
    pub oracle_price_lots: i64,
    pub price_lots: i64,
    /// The price word of the new order's key.
    pub price_data: u64,
    pub order_id: u128,
    pub matched: MatchPlan,
    pub ledger: FeeLedger,
    pub resting: Resting,
}

impl View for PreparedOrder {
    type V = OrderPlan;

    open spec fn view(&self) -> OrderPlan {
        OrderPlan {
            oracle_price_lots: self.oracle_price_lots,
            price_lots: self.price_lots,
            price_data: self.price_data,
            order_id: self.order_id,
            matched: self.matched@,
            ledger: self.ledger,
            resting: self.resting,
        }
    }
}

/// What holds of every plan that `order_plan` makes: the matching run obeys
/// its laws, the ledger is still that of the market and of the account's
/// position, and the order that is to rest is well formed, new to its
/// collection and can be registered with the account.
pub open spec fn plan_ok(
    book: OrderbookView,
    order: Order,
    market: PerpMarket,
    queue: EventQueue,
    account: AccountView,
    taker: AccountId,
    now_ts: u64,
    limit: u8,
    plan: OrderPlan,
) -> bool {
    let ctx = match_context(order, market, plan.price_lots, taker, now_ts, queue.spec_seq_num());
    &&& plan.price_lots >= 1
    &&& market.seq_num < u64::MAX
    &&& plan.order_id == node_key(order.side, plan.price_data, (market.seq_num + 1) as u64)
    &&& queue.spec_has_room(max_events_per_order(limit))
    &&& state_ok(ctx, order.max_base_lots, order.max_quote_lots, limit, plan.matched)
    &&& kept_ok(book.side(order.side.inverted()), plan.matched)
    &&& plan.ledger.market == PerpMarket { fees_accrued: plan.ledger.market.fees_accrued, ..market }
    &&& account.position_index(market.perp_market_index).is_some()
    &&& plan.ledger.position.market_index == market.perp_market_index
    &&& plan.resting matches Resting::Place { order_tree: t, leaf } ==> {
        &&& order.spec_post_target() == Some(t)
        &&& side_has_room(
            book.side(order.side),
            t,
            plan.price_lots,
            now_ts,
            plan.oracle_price_lots,
        )
        &&& leaf_ok(t, leaf)
        &&& leaf.key == plan.order_id
        &&& !has_key(book.side(order.side).tree(t), leaf.key)
        &&& account_with_ledger(account, plan.ledger).with_order(
            market.perp_market_index,
            order.side,
            t,
            leaf,
            order.client_order_id,
        ).is_ok()
    }
}

/// Every plan that `order_plan` makes satisfies `plan_ok`.
pub proof fn lemma_order_plan_ok(
    book: OrderbookView,
    order: Order,
    market: PerpMarket,
    queue: EventQueue,
    oracle_price: I80F48,
    account: AccountView,
    taker: AccountId,
    now_ts: u64,
    limit: u8,
)
    requires
        book.wf(),
        queue.wf(),
    ensures
        order_plan(
            book,
            order,
            market,
            queue,
            oracle_price,
            account,
            taker,
            now_ts,
            limit,
        ) matches Ok(plan) ==> plan_ok(
            book,
            order,
            market,
            queue,
            account,
            taker,
            now_ts,
            limit,
            plan,
        ),
{
    let planned = order_plan(
        book,
        order,
        market,
        queue,
        oracle_price,
        account,
        taker,
        now_ts,
        limit,
    );
    if planned.is_ok() {
        let plan = planned->Ok_0;
        let ctx = match_context(
            order,
            market,
            plan.price_lots,
            taker,
            now_ts,
            queue.spec_seq_num(),
        );
        lemma_match_outcome_ok(
            book.side(order.side.inverted()),
            ctx,
            plan.oracle_price_lots,
            order.max_base_lots,
            order.max_quote_lots,
            limit,
        );
        lemma_first_position(account.perp_positions, market.perp_market_index, 0);
        let p = account.position_index(market.perp_market_index).unwrap();
        lemma_first_position_update(
            account.perp_positions,
            market.perp_market_index,
            p,
            plan.ledger.position,
            0,
        );
        lemma_first_free_slot(account.perp_open_orders, 0);
        lemma_node_key_parts(order.side, plan.price_data, (market.seq_num + 1) as u64);
        if plan.resting is Place {
            assert(0 <= plan.matched.remaining_quote_lots as int / plan.price_lots as int)
                by (nonlinear_arith)
                requires
                    0 <= plan.matched.remaining_quote_lots,
                    1 <= plan.price_lots,
            ;
        }
    }
}

/// Appends `events` to the queue.
fn push_events(queue: &mut EventQueue, events: &Vec<AnyEvent>)
    requires
        old(queue).wf(),
        old(queue).spec_has_room(events@.len()),
        forall|k: int|
            0 <= k < events@.len() ==> (#[trigger] events@[k]).spec_seq_num()
                == old(queue).spec_seq_num() + k,
    ensures
        final(queue).wf(),
        final(queue).spec_capacity() == old(queue).spec_capacity(),
        final(queue).spec_seq_num() == old(queue).spec_seq_num() + events@.len(),
        final(queue).events() == old(queue).events() + events@,
{
    let mut i: usize = 0;
    while i < events.len()
        invariant
            i <= events@.len(),
            queue.wf(),
            queue.spec_capacity() == old(queue).spec_capacity(),
            queue.spec_seq_num() == old(queue).spec_seq_num() + i,
            queue.events() == old(queue).events() + events@.take(i as int),
            old(queue).spec_has_room(events@.len()),
            forall|k: int|
                0 <= k < events@.len() ==> (#[trigger] events@[k]).spec_seq_num()
                    == old(queue).spec_seq_num() + k,
        decreases events@.len() - i,
    {
        let pushed = queue.push_back(events[i]);
        assert(pushed.is_ok());
        assert(events@.take(i as int).push(events@[i as int]) =~= events@.take(i as int + 1));
        i += 1;
    }
    assert(events@.take(events@.len() as int) =~= events@);
}

/// Appends the event for a resting order on `side` that leaves the book
/// unmatched.
fn push_out(queue: &mut EventQueue, side: Side, node: &LeafNode, now_ts: u64)
    requires
        old(queue).wf(),
        old(queue).spec_has_room(1),
    ensures
        final(queue).wf(),
        final(queue).spec_capacity() == old(queue).spec_capacity(),
        final(queue).spec_seq_num() == old(queue).spec_seq_num() + 1,
        final(queue).events() == old(queue).events().push(
            out_for(side, *node, now_ts, old(queue).spec_seq_num() as int),
        ),
{
    let event = OutEvent::new(
        side,
        node.owner_slot,
        now_ts,
        queue.seq_num(),
        node.owner,
        node.quantity,
    );
    let pushed = queue.push_back(AnyEvent::Out(event));
    assert(pushed.is_ok());
}

/// Whether the side `own` has room, or can make room, for a new order in
/// collection `t` at the price `price_lots`. The side is not changed.
pub fn has_room_for(
    own: &BookSide,
    t: BookSideOrderTree,
    price_lots: i64,
    now_ts: u64,
    oracle_price_lots: i64,
) -> (r: bool)
    requires
        own.wf(),
    ensures
        r == side_has_room(own@, t, price_lots, now_ts, oracle_price_lots),
{
    proof {
        lemma_earliest_expired(own@.tree(t), now_ts, own@.tree(t).len());
    }
    if own.has_expired(t, now_ts) || !own.is_full() {
        return true;
    }
    // The side is full: a new order gets in only if it is better than the
    // worst resting one
    match own.worst(now_ts, oracle_price_lots) {
        Some(worst) => own.side().is_price_better(price_lots, worst.price_lots),
        None => false,
    }
}

/// Places the order `leaf`, priced at `price_lots`, in collection `t` of
/// its side, which has room for it or can make room: an expired order is
/// dropped if there is one, and the worst order is evicted if the side is
/// still full.
fn place(
    own: &mut BookSide,
    queue: &mut EventQueue,
    t: BookSideOrderTree,
    leaf: &LeafNode,
    price_lots: i64,
    now_ts: u64,
    oracle_price_lots: i64,
)
    requires
        old(own).wf(),
        old(queue).wf(),
        old(queue).spec_has_room(1),
        side_has_room(old(own)@, t, price_lots, now_ts, oracle_price_lots),
        leaf_ok(t, *leaf),
        !has_key(old(own).tree(t), leaf.key),
    ensures
        final(own).wf(),
        final(own).spec_side() == old(own).spec_side(),
        final(own).spec_capacity() == old(own).spec_capacity(),
        final(queue).wf(),
        final(queue).spec_capacity() == old(queue).spec_capacity(),
        ({
            let placed = placement(
                old(own)@,
                t,
                *leaf,
                price_lots,
                now_ts,
                oracle_price_lots,
                old(queue).spec_seq_num(),
            );
            &&& placed.placed
            &&& final(own)@ == placed.side
            &&& final(queue).events() == old(queue).events() + placed.events
            &&& final(queue).spec_seq_num() == old(queue).spec_seq_num() + placed.events.len()
        }),
{
    let side = own.side();
    let ghost before = own@;
    let ghost events_before = queue.events();
    // Drop an expired order if possible
    if let Some(expired_order) = own.remove_one_expired(t, now_ts) {
        push_out(queue, side, &expired_order, now_ts);
    }
    let ghost swept = own@;
    proof {
        lemma_earliest_expired(before.tree(t), now_ts, before.tree(t).len());
        lemma_removal_keeps_keys_out(before, swept, t, leaf.key);
    }
    if own.is_full() {
        // The new order is better than the worst resting one: boot that
        // one and insert the new one
        proof {
            lemma_last_valid_in_range(swept.ordered(now_ts, oracle_price_lots), swept.len());
        }
        if let Some(worst) = own.worst(now_ts, oracle_price_lots) {
            proof {
                let i = last_valid(swept.ordered(now_ts, oracle_price_lots), swept.len()).unwrap();
                swept.lemma_item_is_resting_order(now_ts, oracle_price_lots, i);
            }
            let worst_order = own.remove_at(worst.handle.order_tree, worst.handle.node);
            push_out(queue, side, &worst_order, now_ts);
            proof {
                lemma_removal_keeps_keys_out(swept, own@, t, leaf.key);
            }
        }
    }
    let inserted = own.insert_leaf(t, leaf);
    assert(inserted.is_ok());
    proof {
        let placed = placement(
            before,
            t,
            *leaf,
            price_lots,
            now_ts,
            oracle_price_lots,
            old(queue).spec_seq_num(),
        );
        assert(own@ =~= placed.side);
        assert(queue.events() =~= events_before + placed.events);
    }
}

/// An order key that is not in collection `t` of a side is not in it after
/// an order was removed from the side.
proof fn lemma_removal_keeps_keys_out(
    before: BookSideView,
    after: BookSideView,
    t: BookSideOrderTree,
    key: u128,
)
    requires
        !has_key(before.tree(t), key),
        after.tree(t) == before.tree(t) || exists|i: int|
            0 <= i < before.tree(t).len() && after.tree(t) == #[trigger] before.tree(t).remove(i),
    ensures
        !has_key(after.tree(t), key),
{
    if has_key(after.tree(t), key) {
        let j = key_position(after.tree(t), key);
        if after.tree(t) != before.tree(t) {
            let i = choose|i: int|
                0 <= i < before.tree(t).len() && after.tree(t) == #[trigger] before.tree(t).remove(
                    i,
                );
            if j < i {
                assert(before.tree(t)[j].key == key);
            } else {
                assert(before.tree(t)[j + 1].key == key);
            }
        } else {
            assert(before.tree(t)[j].key == key);
        }
    }
}

/// The ledger after the taker trade and its fees, computed.
fn charge_trade(ledger: &FeeLedger, side: Side, base_lots: i64, quote_lots: i64) -> (r: Result<
    FeeLedger,
    Error,
>)
    ensures
        r == ledger_after_trade(*ledger, side, base_lots, quote_lots),
{
    if base_lots > 0 || quote_lots > 0 {
        let mut position = ledger.position;
        match position.add_taker_trade(side, base_lots, quote_lots) {
            Ok(()) => {},
            Err(e) => {
                return Err(e);
            },
        }
        let traded = FeeLedger {
            market: ledger.market,
            position,
            buyback_fees_accrued: ledger.buyback_fees_accrued,
        };
        charge_fees(&traded, quote_lots)
    } else {
        Ok(*ledger)
    }
}

impl Orderbook {
    /// Applies what a matching run has decided to the side it ran over:
    /// the orders that were matched completely or had expired leave the
    /// side, and the others that the run passed get the quantities they
    /// are left with.
    fn apply_match(&mut self, matched_side: Side, matched: MatchPlan)
        requires
            old(self).wf(),
            kept_ok(old(self)@.side(matched_side), matched@),
        ensures
            final(self).wf(),
            final(self)@ == old(self)@.with_side(
                matched_side,
                matched@.applied_to(old(self)@.side(matched_side)),
            ),
    {
        let MatchPlan { kept_fixed, kept_pegged, visited_fixed, visited_pegged, .. } = matched;
        match matched_side {
            Side::Bid => {
                self.bids.replace_front(BookSideOrderTree::Fixed, visited_fixed, kept_fixed);
                self.bids.replace_front(
                    BookSideOrderTree::OraclePegged,
                    visited_pegged,
                    kept_pegged,
                );
            },
            Side::Ask => {
                self.asks.replace_front(BookSideOrderTree::Fixed, visited_fixed, kept_fixed);
                self.asks.replace_front(
                    BookSideOrderTree::OraclePegged,
                    visited_pegged,
                    kept_pegged,
                );
            },
        }
    }

    /// Decides what becomes of the remainder of `order` after matching:
    /// whether it rests, and as which resting order.
    fn plan_resting(
        &self,
        order: &Order,
        perp_market: &PerpMarket,
        oracle_price: I80F48,
        oracle_price_lots: i64,
        account: &Account,
        account_pk: &AccountId,
        now_ts: u64,
        matched: &MatchPlan,
        price_lots: i64,
        order_id: u128,
        ledger: &FeeLedger,
    ) -> (r: Result<Resting, Error>)
        requires
            self.wf(),
            price_lots >= 1,
            matched.remaining_base_lots >= 0,
            matched.remaining_quote_lots >= 0,
        ensures
            r == resting_order(
                self@.side(order.side),
                *order,
                *perp_market,
                oracle_price,
                oracle_price_lots,
                account@,
                *account_pk,
                now_ts,
                matched@,
                price_lots,
                order_id,
                *ledger,
            ),
    {
        let side = order.side;
        // What is still unmatched can rest on the book
        let by_quote = matched.remaining_quote_lots / price_lots;
        let book_base_quantity = if matched.remaining_base_lots <= by_quote {
            matched.remaining_base_lots
        } else {
            by_quote
        };
        let mut post_target = order.post_target();
        if !matched.post_allowed || book_base_quantity <= 0 {
            post_target = None;
        }
        let order_tree_target = match post_target {
            Some(order_tree_target) => order_tree_target,
            None => {
                return Ok(Resting::Nothing);
            },
        };
        // the price band is looked at only now: most orders never get here
        match perp_market.may_rest(side, price_lots, oracle_price) {
            None => {
                return Err(Error::MathOverflow);
            },
            Some(false) => {
                return Ok(Resting::Nothing);
            },
            Some(true) => {},
        }
        if !has_room_for(
            self.bookside(side),
            order_tree_target,
            price_lots,
            now_ts,
            oracle_price_lots,
        ) {
            return Ok(Resting::NoRoom);
        }
        let owner_slot = match account.perp_next_order_slot() {
            Ok(slot) => slot,
            Err(e) => {
                return Err(e);
            },
        };
        if self.bookside(side).contains_key(order_tree_target, order_id) {
            return Err(Error::InvariantViolation);
        }
        let mut position = ledger.position;
        match position.add_resting_lots(side, book_base_quantity) {
            Ok(()) => {},
            Err(e) => {
                return Err(e);
            },
        }
        let leaf = LeafNode::new(
            owner_slot as u8,
            order_id,
            *account_pk,
            book_base_quantity,
            now_ts,
            order.time_in_force,
            order.peg_limit(),
            order.client_order_id,
        );
        Ok(Resting::Place { order_tree: order_tree_target, leaf })
    }

    /// Decides, without changing anything, what placing `order` will do:
    /// prices the order, matches it against the opposing side, computes the
    /// fees and settles whether and how the remainder rests.
    pub fn plan_order(
        &self,
        order: &Order,
        perp_market: &PerpMarket,
        event_queue: &EventQueue,
        oracle_price: I80F48,
        account: &Account,
        account_pk: &AccountId,
        now_ts: u64,
        limit: u8,
    ) -> (r: Result<PreparedOrder, Error>)
        requires
            self.wf(),
            event_queue.wf(),
        ensures
            match order_plan(
                self@,
                *order,
                *perp_market,
                *event_queue,
                oracle_price,
                account@,
                *account_pk,
                now_ts,
                limit,
            ) {
                Ok(plan) => r.is_ok() && r->Ok_0@ == plan && plan_ok(
                    self@,
                    *order,
                    *perp_market,
                    *event_queue,
                    account@,
                    *account_pk,
                    now_ts,
                    limit,
                    plan,
                ),
                Err(e) => r.is_err() && r->Err_0 == e,
            },
    {
        let side = order.side;
        let other_side = side.invert_side();
        if order.max_base_lots < 0 || order.max_quote_lots < 0 {
            return Err(Error::InvariantViolation);
        }
        if !event_queue.has_room(limit as usize + DROP_EXPIRED_ORDER_LIMIT + 1) {
            return Err(Error::EventQueueFull);
        }
        if perp_market.seq_num == u64::MAX {
            return Err(Error::MathOverflow);
        }
        let oracle_price_lots = match perp_market.native_price_to_lot(oracle_price) {
            Some(lots) => lots,
            None => {
                return Err(Error::MathOverflow);
            },
        };
        let (price_lots, price_data) = match order.price(oracle_price_lots) {
            Ok(priced) => priced,
            Err(e) => {
                return Err(e);
            },
        };
        let opened = match open_ledger(perp_market, account) {
            Ok(ledger) => ledger,
            Err(e) => {
                return Err(e);
            },
        };
        // Immediate-or-cancel orders pay a fee penalty whether they match
        // or not
        let penalised = if order.needs_penalty_fee() {
            match charge_penalty(&opened) {
                Ok(ledger) => ledger,
                Err(e) => {
                    return Err(e);
                },
            }
        } else {
            opened
        };
        let order_id = new_node_key(side, price_data, perp_market.seq_num + 1);
        let ctx = MatchContext {
            side,
            price_lots,
            post_only: order.is_post_only(),
            now_ts,
            taker: *account_pk,
            taker_client_order_id: order.client_order_id,
            maker_fee: perp_market.maker_fee,
            taker_fee: perp_market.taker_fee,
            first_seq_num: event_queue.seq_num(),
        };
        let matched = match_orders(
            self.bookside(other_side),
            &ctx,
            oracle_price_lots,
            order.max_base_lots,
            order.max_quote_lots,
            limit,
        );
        let total_base_lots_taken = order.max_base_lots - matched.remaining_base_lots;
        let total_quote_lots_taken = order.max_quote_lots - matched.remaining_quote_lots;
        let ledger = match charge_trade(
            &penalised,
            side,
            total_base_lots_taken,
            total_quote_lots_taken,
        ) {
            Ok(ledger) => ledger,
            Err(e) => {
                return Err(e);
            },
        };
        let resting = match self.plan_resting(
            &order,
            perp_market,
            oracle_price,
            oracle_price_lots,
            account,
            account_pk,
            now_ts,
            &matched,
            price_lots,
            order_id,
            &ledger,
        ) {
            Ok(resting) => resting,
            Err(e) => {
                return Err(e);
            },
        };
        proof {
            lemma_order_plan_ok(
                self@,
                *order,
                *perp_market,
                *event_queue,
                oracle_price,
                account@,
                *account_pk,
                now_ts,
                limit,
            );
        }
        Ok(
            PreparedOrder {
                oracle_price_lots,
                price_lots,
                price_data,
                order_id,
                matched,
                ledger,
                resting,
            },
        )
    }

    /// Carries out a plan for placing `order`: commits the matches, the
    /// fees and the events, and puts the remainder on the book where the
    /// plan says so.
    #[allow(clippy::too_many_arguments)]
    fn carry_out(
        &mut self,
        order: &Order,
        perp_market: &mut PerpMarket,
        event_queue: &mut EventQueue,
        account: &mut Account,
        account_pk: &AccountId,
        now_ts: u64,
        limit: u8,
        prepared: PreparedOrder,
    ) -> (r: Result<Option<u128>, Error>)
        requires
            old(self).wf(),
            old(event_queue).wf(),
            plan_ok(
                old(self)@,
                *order,
                *old(perp_market),
                *old(event_queue),
                old(account)@,
                *account_pk,
                now_ts,
                limit,
                prepared@,
            ),
        ensures
            final(self).wf(),
            final(event_queue).wf(),
            final(event_queue).spec_capacity() == old(event_queue).spec_capacity(),
            ({
                let outcome = outcome_of_plan(
                    old(self)@,
                    *order,
                    *old(perp_market),
                    *old(event_queue),
                    old(account)@,
                    now_ts,
                    prepared@,
                );
                &&& r == outcome.result
                &&& final(self)@ == outcome.book
                &&& *final(perp_market) == outcome.market
                &&& final(event_queue).events() == old(event_queue).events() + outcome.events
                &&& final(event_queue).spec_seq_num() == old(event_queue).spec_seq_num()
                    + outcome.events.len()
                &&& final(account)@ == outcome.account
            }),
            r.is_ok() || r == Err::<Option<u128>, Error>(Error::CapacityExceeded),
    {
        let side = order.side;
        let other_side = side.invert_side();
        let ghost plan = prepared@;
        let ghost book_before = self@;
        let ghost account_before = account@;
        let PreparedOrder {
            oracle_price_lots,
            price_lots,
            price_data,
            order_id,
            matched,
            ledger,
            resting,
        } = prepared;

        // Record the taker trade and the fees in the account already, even
        // though the trade is settled only when the fill events are
        close_ledger(perp_market, account, &ledger);
        let generated = perp_market.gen_order_id(side, price_data);
        assert(generated == order_id);
        push_events(event_queue, &matched.events);

        self.apply_match(other_side, matched);

        // Place the remainder on the book if requested
        let (order_tree_target, new_order) = match resting {
            Resting::Place { order_tree, leaf } => (order_tree, leaf),
            Resting::NoRoom => {
                assert(event_queue.events() =~= old(event_queue).events() + plan.matched.events);
                return Err(Error::CapacityExceeded);
            },
            Resting::Nothing => {
                return Ok(None);
            },
        };
        match side {
            Side::Bid => place(
                &mut self.bids,
                event_queue,
                order_tree_target,
                &new_order,
                price_lots,
                now_ts,
                oracle_price_lots,
            ),
            Side::Ask => place(
                &mut self.asks,
                event_queue,
                order_tree_target,
                &new_order,
                price_lots,
                now_ts,
                oracle_price_lots,
            ),
        }
        let added = account.add_perp_order(
            perp_market.perp_market_index,
            side,
            order_tree_target,
            &new_order,
            order.client_order_id,
        );
        assert(added.is_ok());
        proof {
            let placement = placement(
                book_before.side(side),
                order_tree_target,
                new_order,
                price_lots,
                now_ts,
                oracle_price_lots,
                (old(event_queue).spec_seq_num() + plan.matched.events.len()) as u64,
            );
            assert(event_queue.events() =~= old(event_queue).events() + (plan.matched.events
                + placement.events));
        }
        Ok(Some(order_id))
    }

    /// Places an order: matches it against the opposing side of the book,
    /// charges the fees and puts what remains on the book where the order
    /// asks for that.
    ///
    /// Returns the key of the new resting order if, and only if, a
    /// remainder was placed on the book; nothing if the order was matched
    /// completely, may not rest or was kept from resting. A call that is
    /// refused before matching changes nothing. A call that fails with
    /// `CapacityExceeded` has matched and charged fees, and has left the
    /// order's own side as it was.
    #[allow(clippy::too_many_arguments)]
    pub fn new_order(
        &mut self,
        order: Order,
        perp_market: &mut PerpMarket,
        event_queue: &mut EventQueue,
        oracle_price: I80F48,
        account: &mut Account,
        account_pk: &AccountId,
        now_ts: u64,
        limit: u8,
    ) -> (r: Result<Option<u128>, Error>)
        requires
            old(self).wf(),
            old(event_queue).wf(),
        ensures
            final(self).wf(),
            final(event_queue).wf(),
            final(event_queue).spec_capacity() == old(event_queue).spec_capacity(),
            ({
                let outcome = new_order_outcome(
                    old(self)@,
                    order,
                    *old(perp_market),
                    *old(event_queue),
                    oracle_price,
                    old(account)@,
                    *account_pk,
                    now_ts,
                    limit,
                );
                &&& r == outcome.result
                &&& final(self)@ == outcome.book
                &&& *final(perp_market) == outcome.market
                &&& final(event_queue).events() == old(event_queue).events() + outcome.events
                &&& final(event_queue).spec_seq_num() == old(event_queue).spec_seq_num()
                    + outcome.events.len()
                &&& final(account)@ == outcome.account
            }),
            r.is_err() && r != Err::<Option<u128>, Error>(Error::CapacityExceeded) ==> {
                &&& final(self)@ == old(self)@
                &&& *final(perp_market) == *old(perp_market)
                &&& final(event_queue).events() == old(event_queue).events()
                &&& final(event_queue).spec_seq_num() == old(event_queue).spec_seq_num()
                &&& final(account)@ == old(account)@
            },
    {
        let prepared = match self.plan_order(
            &order,
            perp_market,
            event_queue,
            oracle_price,
            account,
            account_pk,
            now_ts,
            limit,
        ) {
            Ok(prepared) => prepared,
            Err(e) => {
                assert(event_queue.events() =~= event_queue.events() + Seq::<AnyEvent>::empty());
                return Err(e);
            },
        };
        self.carry_out(
            &order,
            perp_market,
            event_queue,
            account,
            account_pk,
            now_ts,
            limit,
            prepared,
        )
    }
}

} // verus!
