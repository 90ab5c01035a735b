//! Matching an incoming order against the opposing side of the book.

use vstd::prelude::*;
use vstd::arithmetic::div_mod::lemma_remainder_lower;
use vstd::arithmetic::mul::{lemma_mul_inequality, lemma_mul_nonnegative};
use crate::bookside::{key_goes_before, keys_sorted, leaves_ok, BookSide, BookSideView};
use crate::event::{AnyEvent, FillEvent, OutEvent};
use crate::fixed_point::I80F48;
use crate::iter::BookSideIterItem;
use crate::node::{AccountId, LeafNode};
use crate::side::{BookSideOrderTree, Side};

verus! {

/// Drop at most this many expired orders from a side when matching against
/// it. This bounds the work of one call.
pub const DROP_EXPIRED_ORDER_LIMIT: usize = 5;

/// What a matching run knows of the incoming order and the market.
#[derive(Clone, Copy, Debug, PartialEq, Eq, Structural)]
pub struct MatchContext {
    /// The side of the incoming order.
    pub side: Side,
    /// The incoming order's limit price in lots.
    pub price_lots: i64,
    /// The incoming order must not take.
    pub post_only: bool,
    pub now_ts: u64,
    /// The account that placed the incoming order.
    pub taker: AccountId,
    pub taker_client_order_id: u64,
    pub maker_fee: I80F48,
    pub taker_fee: I80F48,
    /// Sequence number for the first event that the run emits.
    pub first_seq_num: u64,
}

/// The state of a matching run, and its outcome once it is done.
#[verifier::ext_equal]
pub struct MatchState {
    /// Base lots that the incoming order may still take.
    pub remaining_base_lots: i64,
    /// Quote lots that the incoming order may still spend.
    pub remaining_quote_lots: i64,
    /// Matches that the run may still make.
    pub limit: u8,
    /// Expired orders that the run has removed.
    pub dropped: nat,
    /// The remainder of the incoming order may still rest.
    pub post_allowed: bool,
    /// The run has stopped.
    pub done: bool,
    /// The events emitted, oldest first.
    pub events: Seq<AnyEvent>,
    /// The fixed-price orders that the run has passed and that stay in the
    /// book, with the quantities they are left with.
    pub kept_fixed: Seq<LeafNode>,
    /// The same for the pegged orders.
    pub kept_pegged: Seq<LeafNode>,
    /// Number of fixed-price orders that the run has passed.
    pub visited_fixed: nat,
    /// Number of pegged orders that the run has passed.
    pub visited_pegged: nat,
}

impl MatchState {
    /// The state before the first order is looked at.
    pub open spec fn initial(max_base_lots: i64, max_quote_lots: i64, limit: u8) -> MatchState {
        MatchState {
            remaining_base_lots: max_base_lots,
            remaining_quote_lots: max_quote_lots,
            limit,
            dropped: 0,
            post_allowed: true,
            done: false,
            events: Seq::empty(),
            kept_fixed: Seq::empty(),
            kept_pegged: Seq::empty(),
            visited_fixed: 0,
            visited_pegged: 0,
        }
    }

    /// The state after passing an order of collection `t` that stays in the
    /// book as `kept`, or leaves it where `kept` is nothing.
    pub open spec fn pass(self, t: BookSideOrderTree, kept: Option<LeafNode>) -> MatchState {
        match t {
            BookSideOrderTree::Fixed => MatchState {
                visited_fixed: self.visited_fixed + 1,
                kept_fixed: match kept {
                    Some(node) => self.kept_fixed.push(node),
                    None => self.kept_fixed,
                },
                ..self
            },
            BookSideOrderTree::OraclePegged => MatchState {
                visited_pegged: self.visited_pegged + 1,
                kept_pegged: match kept {
                    Some(node) => self.kept_pegged.push(node),
                    None => self.kept_pegged,
                },
                ..self
            },
        }
    }

    /// The side `book` once the run's removals and quantity updates are
    /// applied: of each collection the orders kept, then those not passed.
    pub open spec fn applied_to(self, book: BookSideView) -> BookSideView {
        BookSideView {
            fixed: self.kept_fixed + book.fixed.skip(self.visited_fixed as int),
            oracle_pegged: self.kept_pegged + book.oracle_pegged.skip(self.visited_pegged as int),
            ..book
        }
    }
}

/// The event for an expired order that the run removes.
pub open spec fn out_event(ctx: MatchContext, st: MatchState, item: BookSideIterItem) -> AnyEvent {
    AnyEvent::Out(
        OutEvent {
            side: ctx.side.inverted(),
            owner_slot: item.node.owner_slot,
            timestamp: ctx.now_ts,
            seq_num: (ctx.first_seq_num + st.events.len()) as u64,
            owner: item.node.owner,
            quantity: item.node.quantity,
        },
    )
}

/// Base lots matched against a resting order: the least of what the
/// incoming order may still take, what the resting order offers, and what
/// the remaining quote lots buy at the resting order's price, rounded down.
pub open spec fn match_quantity(st: MatchState, item: BookSideIterItem) -> int {
    let by_quote = st.remaining_quote_lots as int / item.price_lots as int;
    let by_base = if st.remaining_base_lots <= item.node.quantity {
        st.remaining_base_lots as int
    } else {
        item.node.quantity as int
    };
    if by_base <= by_quote {
        by_base
    } else {
        by_quote
    }
}

/// The event for a match of `matched` base lots against a resting order.
pub open spec fn fill_event(
    ctx: MatchContext,
    st: MatchState,
    item: BookSideIterItem,
    matched: int,
) -> AnyEvent {
    AnyEvent::Fill(
        FillEvent {
            taker_side: ctx.side,
            maker_out: item.node.quantity == matched,
            maker_slot: item.node.owner_slot,
            timestamp: ctx.now_ts,
            seq_num: (ctx.first_seq_num + st.events.len()) as u64,
            maker: item.node.owner,
            maker_client_order_id: item.node.client_order_id,
            maker_fee: ctx.maker_fee,
            maker_timestamp: item.node.timestamp,
            taker: ctx.taker,
            taker_client_order_id: ctx.taker_client_order_id,
            taker_fee: ctx.taker_fee,
            price: item.price_lots,
            quantity: matched as i64,
        },
    )
}

/// One step of a matching run: what the run does with the next resting
/// order of the opposing side.
///
/// The run stops when the incoming order has no base or no quote lots left.
/// An invalid order is removed with an `Out` event while fewer than
/// `DROP_EXPIRED_ORDER_LIMIT` were removed, and is passed over after that.
/// The run stops at a valid order whose price is beyond the incoming order's
/// limit. At a valid order within the limit a post-only order stops and may
/// no longer rest, and so does an order that has no match left. Otherwise
/// the two orders are matched at the resting order's price.
pub open spec fn match_step(
    ctx: MatchContext,
    st: MatchState,
    item: BookSideIterItem,
) -> MatchState {
    let t = item.handle.order_tree;
    if st.remaining_base_lots == 0 || st.remaining_quote_lots == 0 {
        MatchState { done: true, ..st }
    } else if !item.spec_is_valid() {
        if st.dropped < DROP_EXPIRED_ORDER_LIMIT {
            (MatchState {
                dropped: st.dropped + 1,
                events: st.events.push(out_event(ctx, st, item)),
                ..st
            }).pass(t, None)
        } else {
            st.pass(t, Some(item.node))
        }
    } else if !ctx.side.price_within_limit(item.price_lots as int, ctx.price_lots as int) {
        MatchState { done: true, ..st }
    } else if ctx.post_only || st.limit == 0 {
        MatchState { post_allowed: false, done: true, ..st }
    } else {
        let matched = match_quantity(st, item);
        (MatchState {
            remaining_base_lots: (st.remaining_base_lots - matched) as i64,
            remaining_quote_lots: (st.remaining_quote_lots - matched * item.price_lots) as i64,
            limit: (st.limit - 1) as u8,
            events: st.events.push(fill_event(ctx, st, item, matched)),
            ..st
        }).pass(
            t,
            if item.node.quantity == matched {
                None
            } else {
                Some(item.node.with_quantity((item.node.quantity - matched) as i64))
            },
        )
    }
}

/// The outcome of a matching run that is in state `st` before the item at
/// index `i` of `items`: the steps are taken in order until the run stops
/// or the items are used up.
pub open spec fn match_run(
    ctx: MatchContext,
    items: Seq<BookSideIterItem>,
    i: int,
    st: MatchState,
) -> MatchState
    decreases items.len() - i,
{
    if st.done || i < 0 || i >= items.len() {
        st
    } else {
        match_run(ctx, items, i + 1, match_step(ctx, st, items[i]))
    }
}

/// The outcome of matching an incoming order against the side `opposing`.
pub open spec fn match_outcome(
    opposing: BookSideView,
    ctx: MatchContext,
    oracle_price_lots: i64,
    max_base_lots: i64,
    max_quote_lots: i64,
    limit: u8,
) -> MatchState {
    match_run(
        ctx,
        opposing.ordered(ctx.now_ts, oracle_price_lots),
        0,
        MatchState::initial(max_base_lots, max_quote_lots, limit),
    )
}

/// Base lots matched in the `Fill` events of `events`.
pub open spec fn filled_base(events: Seq<AnyEvent>) -> int
    decreases events.len(),
{
    if events.len() == 0 {
        0
    } else {
        filled_base(events.drop_last()) + match events.last() {
            AnyEvent::Fill(fill) => fill.quantity as int,
            AnyEvent::Out(_) => 0,
        }
    }
}

/// Quote lots matched in the `Fill` events of `events`: of each the
/// quantity times the price.
pub open spec fn filled_quote(events: Seq<AnyEvent>) -> int
    decreases events.len(),
{
    if events.len() == 0 {
        0
    } else {
        filled_quote(events.drop_last()) + match events.last() {
            AnyEvent::Fill(fill) => fill.quantity * fill.price,
            AnyEvent::Out(_) => 0,
        }
    }
}

/// Number of `Fill` events in `events`.
pub open spec fn fill_count(events: Seq<AnyEvent>) -> int
    decreases events.len(),
{
    if events.len() == 0 {
        0
    } else {
        fill_count(events.drop_last()) + if events.last() is Fill {
            1int
        } else {
            0int
        }
    }
}

/// What holds of an event of a matching run: a `Fill` is at a price of at
/// least one lot that is within the incoming order's limit, matches no
/// negative quantity, and is never emitted for a post-only order.
pub open spec fn event_ok(ctx: MatchContext, event: AnyEvent) -> bool {
    match event {
        AnyEvent::Fill(fill) => {
            &&& !ctx.post_only
            &&& fill.taker_side == ctx.side
            &&& fill.taker == ctx.taker
            &&& fill.price >= 1
            &&& ctx.side.price_within_limit(fill.price as int, ctx.price_lots as int)
            &&& fill.quantity >= 0
        },
        AnyEvent::Out(out) => out.side == ctx.side.inverted(),
    }
}

/// What holds of every state of a matching run for an order of at most
/// `max_base_lots` base lots and `max_quote_lots` quote lots that may make
/// `limit` matches.
///
/// What was taken and what remains add up to what the order allowed, in
/// base and in quote lots, and nothing negative was taken. Every event
/// satisfies `event_ok`. The events are numbered without a gap. There is one
/// `Fill` event for each match used up, and at most
/// `DROP_EXPIRED_ORDER_LIMIT` other events.
pub open spec fn state_ok(
    ctx: MatchContext,
    max_base_lots: i64,
    max_quote_lots: i64,
    limit: u8,
    st: MatchState,
) -> bool {
    &&& 0 <= st.remaining_base_lots <= max_base_lots
    &&& 0 <= st.remaining_quote_lots <= max_quote_lots
    &&& filled_base(st.events) + st.remaining_base_lots == max_base_lots
    &&& filled_quote(st.events) + st.remaining_quote_lots == max_quote_lots
    &&& forall|k: int| 0 <= k < st.events.len() ==> event_ok(ctx, #[trigger] st.events[k])
    &&& forall|k: int|
        0 <= k < st.events.len() ==> (#[trigger] st.events[k]).spec_seq_num() == ctx.first_seq_num
            + k
    &&& st.dropped <= DROP_EXPIRED_ORDER_LIMIT
    &&& st.limit <= limit
    &&& fill_count(st.events) == limit - st.limit
    &&& st.events.len() == (limit - st.limit) + st.dropped
}

/// The order `after` is the order `before` with a quantity that is not
/// larger: nothing else of it has changed.
pub open spec fn shrunk_from(after: LeafNode, before: LeafNode) -> bool {
    after == before.with_quantity(after.quantity) && 1 <= after.quantity <= before.quantity
}

/// Every order of `kept` is one of the first `visited` orders of `tree`,
/// with a quantity that is not larger.
pub open spec fn kept_from(kept: Seq<LeafNode>, tree: Seq<LeafNode>, visited: int) -> bool {
    forall|k: int|
        0 <= k < kept.len() ==> exists|i: int|
            0 <= i < visited && i < tree.len() && shrunk_from(
                #[trigger] kept[k],
                #[trigger] tree[i],
            )
}

/// What ties the state of a run to the side it runs over: the orders kept
/// are among those passed, changed in nothing but a quantity that matching
/// has lowered, and with the orders not passed they make up a well-formed
/// collection.
pub open spec fn kept_ok(book: BookSideView, st: MatchState) -> bool {
    &&& st.kept_fixed.len() <= st.visited_fixed <= book.fixed.len()
    &&& st.kept_pegged.len() <= st.visited_pegged <= book.oracle_pegged.len()
    &&& kept_from(st.kept_fixed, book.fixed, st.visited_fixed as int)
    &&& kept_from(st.kept_pegged, book.oracle_pegged, st.visited_pegged as int)
    &&& keys_sorted(book.side, st.kept_fixed + book.fixed.skip(st.visited_fixed as int))
    &&& keys_sorted(book.side, st.kept_pegged + book.oracle_pegged.skip(st.visited_pegged as int))
    &&& leaves_ok(BookSideOrderTree::Fixed, st.kept_fixed)
    &&& leaves_ok(BookSideOrderTree::OraclePegged, st.kept_pegged)
}

/// An event pushed behind `events` adds its own quantities to the sums.
pub proof fn lemma_filled_push(events: Seq<AnyEvent>, event: AnyEvent)
    ensures
        filled_base(events.push(event)) == filled_base(events) + match event {
            AnyEvent::Fill(fill) => fill.quantity as int,
            AnyEvent::Out(_) => 0,
        },
        filled_quote(events.push(event)) == filled_quote(events) + match event {
            AnyEvent::Fill(fill) => fill.quantity * fill.price,
            AnyEvent::Out(_) => 0,
        },
        fill_count(events.push(event)) == fill_count(events) + if event is Fill {
            1int
        } else {
            0int
        },
{
    assert(events.push(event).drop_last() =~= events);
    assert(events.push(event).last() == event);
}

/// What is matched costs no more quote lots than remain.
proof fn lemma_match_cost(matched: int, quote: int, price: int)
    requires
        0 <= matched <= quote / price,
        0 <= quote,
        1 <= price,
    ensures
        0 <= matched * price <= quote,
{
    lemma_mul_nonnegative(matched, price);
    lemma_mul_inequality(matched, quote / price, price);
    lemma_remainder_lower(quote, price);
}

/// A collection stays in priority order when its first order not yet passed
/// is passed: it leaves, or it stays under the same key.
proof fn lemma_pass_keeps_sorted(
    side: Side,
    kept: Seq<LeafNode>,
    tree: Seq<LeafNode>,
    visited: int,
    node: Option<LeafNode>,
)
    requires
        0 <= visited < tree.len(),
        keys_sorted(side, kept + tree.skip(visited)),
        node matches Some(n) ==> n.key == tree[visited].key,
    ensures
        keys_sorted(
            side,
            (match node {
                Some(n) => kept.push(n),
                None => kept,
            }) + tree.skip(visited + 1),
        ),
{
    let before = kept + tree.skip(visited);
    let after = (match node {
        Some(n) => kept.push(n),
        None => kept,
    }) + tree.skip(visited + 1);
    let at = kept.len() as int;
    assert(before[at] == tree[visited]);
    match node {
        Some(n) => {
            assert forall|i: int| 0 <= i < after.len() implies (#[trigger] after[i]).key
                == before[i].key by {
                if i < at {
                } else if i == at {
                } else {
                    assert(after[i] == tree.skip(visited + 1)[i - at - 1]);
                    assert(before[i] == tree.skip(visited)[i - at]);
                }
            }
            assert forall|i: int, j: int| 0 <= i < j < after.len() implies key_goes_before(
                side,
                #[trigger] after[i].key,
                #[trigger] after[j].key,
            ) by {
                assert(key_goes_before(side, before[i].key, before[j].key));
            }
        },
        None => {
            assert forall|i: int| 0 <= i < after.len() implies #[trigger] after[i] == before[if i
                < at {
                i
            } else {
                i + 1
            }] by {
                if i >= at {
                    assert(after[i] == tree.skip(visited + 1)[i - at]);
                    assert(before[i + 1] == tree.skip(visited)[i + 1 - at]);
                }
            }
            assert forall|i: int, j: int| 0 <= i < j < after.len() implies key_goes_before(
                side,
                #[trigger] after[i].key,
                #[trigger] after[j].key,
            ) by {
                let bi = if i < at {
                    i
                } else {
                    i + 1
                };
                let bj = if j < at {
                    j
                } else {
                    j + 1
                };
                assert(key_goes_before(side, before[bi].key, before[bj].key));
            }
        },
    }
}

/// A step keeps what holds of every state of a run, and passes exactly the
/// order that the traversal yields.
pub proof fn lemma_step_keeps_ok(
    book: BookSideView,
    ctx: MatchContext,
    oracle_price_lots: i64,
    max_base_lots: i64,
    max_quote_lots: i64,
    limit: u8,
    st: MatchState,
    n: int,
)
    requires
        book.wf(),
        0 <= n < book.len(),
        ctx.first_seq_num + limit + DROP_EXPIRED_ORDER_LIMIT <= u64::MAX,
        !st.done,
        state_ok(ctx, max_base_lots, max_quote_lots, limit, st),
        kept_ok(book, st),
        book.cursor_at(oracle_price_lots, n as nat) == (
            st.visited_fixed as int,
            st.visited_pegged as int,
        ),
    ensures
        ({
            let after = match_step(ctx, st, book.ordered(ctx.now_ts, oracle_price_lots)[n]);
            &&& state_ok(ctx, max_base_lots, max_quote_lots, limit, after)
            &&& kept_ok(book, after)
            &&& !after.done ==> book.cursor_at(oracle_price_lots, (n + 1) as nat) == (
                after.visited_fixed as int,
                after.visited_pegged as int,
            )
        }),
{
    let item = book.ordered(ctx.now_ts, oracle_price_lots)[n];
    let after = match_step(ctx, st, item);
    let t = item.handle.order_tree;
    book.lemma_item_is_resting_order(ctx.now_ts, oracle_price_lots, n);
    book.lemma_cursor_bounds(oracle_price_lots, n as nat);
    book.lemma_cursor_bounds(oracle_price_lots, (n + 1) as nat);
    if st.remaining_base_lots == 0 || st.remaining_quote_lots == 0 {
    } else if !item.spec_is_valid() {
        if st.dropped < DROP_EXPIRED_ORDER_LIMIT {
            lemma_filled_push(st.events, out_event(ctx, st, item));
            lemma_pass_keeps_sorted(
                book.side,
                if t == BookSideOrderTree::Fixed {
                    st.kept_fixed
                } else {
                    st.kept_pegged
                },
                book.tree(t),
                item.handle.node as int,
                None,
            );
        } else {
            lemma_pass_keeps_sorted(
                book.side,
                if t == BookSideOrderTree::Fixed {
                    st.kept_fixed
                } else {
                    st.kept_pegged
                },
                book.tree(t),
                item.handle.node as int,
                Some(item.node),
            );
        }
    } else if !ctx.side.price_within_limit(item.price_lots as int, ctx.price_lots as int) {
    } else if ctx.post_only || st.limit == 0 {
    } else {
        let matched = match_quantity(st, item);
        assert(0 <= st.remaining_quote_lots as int / item.price_lots as int) by (nonlinear_arith)
            requires
                0 <= st.remaining_quote_lots,
                1 <= item.price_lots,
        ;
        lemma_match_cost(matched, st.remaining_quote_lots as int, item.price_lots as int);
        lemma_filled_push(st.events, fill_event(ctx, st, item, matched));
        let kept = if item.node.quantity == matched {
            None
        } else {
            Some(item.node.with_quantity((item.node.quantity - matched) as i64))
        };
        lemma_pass_keeps_sorted(
            book.side,
            if t == BookSideOrderTree::Fixed {
                st.kept_fixed
            } else {
                st.kept_pegged
            },
            book.tree(t),
            item.handle.node as int,
            kept,
        );
    }
}

/// Every run ends in a state of which `state_ok` and `kept_ok` hold.
pub proof fn lemma_run_keeps_ok(
    book: BookSideView,
    ctx: MatchContext,
    oracle_price_lots: i64,
    max_base_lots: i64,
    max_quote_lots: i64,
    limit: u8,
    st: MatchState,
    n: int,
)
    requires
        book.wf(),
        0 <= n <= book.len(),
        ctx.first_seq_num + limit + DROP_EXPIRED_ORDER_LIMIT <= u64::MAX,
        state_ok(ctx, max_base_lots, max_quote_lots, limit, st),
        kept_ok(book, st),
        !st.done ==> book.cursor_at(oracle_price_lots, n as nat) == (
            st.visited_fixed as int,
            st.visited_pegged as int,
        ),
    ensures
        state_ok(
            ctx,
            max_base_lots,
            max_quote_lots,
            limit,
            match_run(ctx, book.ordered(ctx.now_ts, oracle_price_lots), n, st),
        ),
        kept_ok(book, match_run(ctx, book.ordered(ctx.now_ts, oracle_price_lots), n, st)),
    decreases book.len() - n,
{
    if !st.done && n < book.len() {
        lemma_step_keeps_ok(
            book,
            ctx,
            oracle_price_lots,
            max_base_lots,
            max_quote_lots,
            limit,
            st,
            n,
        );
        lemma_run_keeps_ok(
            book,
            ctx,
            oracle_price_lots,
            max_base_lots,
            max_quote_lots,
            limit,
            match_step(ctx, st, book.ordered(ctx.now_ts, oracle_price_lots)[n]),
            n + 1,
        );
    }
}

/// The laws of matching. For every well-formed side, every incoming order
/// with no negative quantity and every limit on the number of matches, the
/// outcome of the run satisfies `state_ok` and `kept_ok`: quantities are
/// conserved, no match is at a price beyond the incoming order's limit, a
/// post-only order is never matched, and the side stays well formed.
pub proof fn lemma_match_outcome_ok(
    opposing: BookSideView,
    ctx: MatchContext,
    oracle_price_lots: i64,
    max_base_lots: i64,
    max_quote_lots: i64,
    limit: u8,
)
    requires
        opposing.wf(),
        max_base_lots >= 0,
        max_quote_lots >= 0,
        ctx.first_seq_num + limit + DROP_EXPIRED_ORDER_LIMIT <= u64::MAX,
    ensures
        state_ok(
            ctx,
            max_base_lots,
            max_quote_lots,
            limit,
            match_outcome(opposing, ctx, oracle_price_lots, max_base_lots, max_quote_lots, limit),
        ),
        kept_ok(
            opposing,
            match_outcome(opposing, ctx, oracle_price_lots, max_base_lots, max_quote_lots, limit),
        ),
        match_outcome(
            opposing,
            ctx,
            oracle_price_lots,
            max_base_lots,
            max_quote_lots,
            limit,
        ).applied_to(opposing).wf(),
{
    let init = MatchState::initial(max_base_lots, max_quote_lots, limit);
    assert(init.kept_fixed + opposing.fixed.skip(0) =~= opposing.fixed);
    assert(init.kept_pegged + opposing.oracle_pegged.skip(0) =~= opposing.oracle_pegged);
    lemma_run_keeps_ok(
        opposing,
        ctx,
        oracle_price_lots,
        max_base_lots,
        max_quote_lots,
        limit,
        init,
        0,
    );
}

/// The `Fill` events of `events`, oldest first.
pub open spec fn fills_of(events: Seq<AnyEvent>) -> Seq<FillEvent>
    decreases events.len(),
{
    if events.len() == 0 {
        Seq::empty()
    } else {
        match events.last() {
            AnyEvent::Fill(fill) => fills_of(events.drop_last()).push(fill),
            AnyEvent::Out(_) => fills_of(events.drop_last()),
        }
    }
}

/// The valid items among the first `n` of `items`, in their order.
pub open spec fn valid_items(items: Seq<BookSideIterItem>, n: nat) -> Seq<BookSideIterItem>
    decreases n,
{
    if n == 0 {
        Seq::empty()
    } else if items[n - 1].spec_is_valid() {
        valid_items(items, (n - 1) as nat).push(items[n - 1])
    } else {
        valid_items(items, (n - 1) as nat)
    }
}

/// `fill` is a match against the resting order of `item`, at its price.
pub open spec fn fill_is_against(fill: FillEvent, item: BookSideIterItem) -> bool {
    &&& fill.price == item.price_lots
    &&& fill.maker == item.node.owner
    &&& fill.maker_slot == item.node.owner_slot
    &&& fill.maker_client_order_id == item.node.client_order_id
    &&& fill.maker_timestamp == item.node.timestamp
    &&& fill.quantity <= item.node.quantity
    &&& fill.maker_out == (fill.quantity == item.node.quantity)
}

/// The run has passed the first orders of the traversal, and has matched
/// every valid one among them, in the order of traversal: the k-th `Fill`
/// event is a match against the k-th valid order.
pub open spec fn fills_in_order(items: Seq<BookSideIterItem>, st: MatchState) -> bool {
    let passed = st.visited_fixed + st.visited_pegged;
    &&& passed <= items.len()
    &&& fills_of(st.events).len() == valid_items(items, passed).len()
    &&& forall|k: int|
        0 <= k < fills_of(st.events).len() ==> fill_is_against(
            #[trigger] fills_of(st.events)[k],
            valid_items(items, passed)[k],
        )
}

/// A `Fill` event pushed behind `events` is the last of their `Fill`
/// events; another event adds none.
pub proof fn lemma_fills_of_push(events: Seq<AnyEvent>, event: AnyEvent)
    ensures
        fills_of(events.push(event)) == match event {
            AnyEvent::Fill(fill) => fills_of(events).push(fill),
            AnyEvent::Out(_) => fills_of(events),
        },
{
    assert(events.push(event).drop_last() =~= events);
    assert(events.push(event).last() == event);
}

/// A step keeps the matches in the order of traversal.
pub proof fn lemma_step_keeps_order(
    book: BookSideView,
    ctx: MatchContext,
    oracle_price_lots: i64,
    st: MatchState,
    n: int,
)
    requires
        book.wf(),
        0 <= n < book.len(),
        !st.done,
        n == st.visited_fixed + st.visited_pegged,
        0 <= st.remaining_base_lots,
        0 <= st.remaining_quote_lots,
        fills_in_order(book.ordered(ctx.now_ts, oracle_price_lots), st),
    ensures
        ({
            let after = match_step(ctx, st, book.ordered(ctx.now_ts, oracle_price_lots)[n]);
            &&& fills_in_order(book.ordered(ctx.now_ts, oracle_price_lots), after)
            &&& !after.done ==> after.visited_fixed + after.visited_pegged == n + 1
        }),
{
    let items = book.ordered(ctx.now_ts, oracle_price_lots);
    let item = items[n];
    let after = match_step(ctx, st, item);
    book.lemma_item_is_resting_order(ctx.now_ts, oracle_price_lots, n);
    if st.remaining_base_lots == 0 || st.remaining_quote_lots == 0 {
    } else if !item.spec_is_valid() {
        if st.dropped < DROP_EXPIRED_ORDER_LIMIT {
            lemma_fills_of_push(st.events, out_event(ctx, st, item));
        }
    } else if !ctx.side.price_within_limit(item.price_lots as int, ctx.price_lots as int) {
    } else if ctx.post_only || st.limit == 0 {
    } else {
        let matched = match_quantity(st, item);
        assert(0 <= st.remaining_quote_lots as int / item.price_lots as int) by (nonlinear_arith)
            requires
                0 <= st.remaining_quote_lots,
                1 <= item.price_lots,
        ;
        lemma_fills_of_push(st.events, fill_event(ctx, st, item, matched));
    }
}

/// Price-time priority of matching. A run matches the valid resting orders
/// strictly in the order of traversal, which is the order of price and,
/// within a price, of sequence number: the k-th `Fill` event of the outcome
/// is a match against the k-th valid order of the traversal, and no valid
/// order that the run has passed was left unmatched.
pub proof fn lemma_matches_in_traversal_order(
    opposing: BookSideView,
    ctx: MatchContext,
    oracle_price_lots: i64,
    max_base_lots: i64,
    max_quote_lots: i64,
    limit: u8,
)
    requires
        opposing.wf(),
        max_base_lots >= 0,
        max_quote_lots >= 0,
        ctx.first_seq_num + limit + DROP_EXPIRED_ORDER_LIMIT <= u64::MAX,
    ensures
        fills_in_order(
            opposing.ordered(ctx.now_ts, oracle_price_lots),
            match_outcome(opposing, ctx, oracle_price_lots, max_base_lots, max_quote_lots, limit),
        ),
{
    let init = MatchState::initial(max_base_lots, max_quote_lots, limit);
    assert(init.kept_fixed + opposing.fixed.skip(0) =~= opposing.fixed);
    assert(init.kept_pegged + opposing.oracle_pegged.skip(0) =~= opposing.oracle_pegged);
    lemma_run_keeps_order(
        opposing,
        ctx,
        oracle_price_lots,
        max_base_lots,
        max_quote_lots,
        limit,
        init,
        0,
    );
}

proof fn lemma_run_keeps_order(
    book: BookSideView,
    ctx: MatchContext,
    oracle_price_lots: i64,
    max_base_lots: i64,
    max_quote_lots: i64,
    limit: u8,
    st: MatchState,
    n: int,
)
    requires
        book.wf(),
        0 <= n <= book.len(),
        ctx.first_seq_num + limit + DROP_EXPIRED_ORDER_LIMIT <= u64::MAX,
        state_ok(ctx, max_base_lots, max_quote_lots, limit, st),
        kept_ok(book, st),
        fills_in_order(book.ordered(ctx.now_ts, oracle_price_lots), st),
        !st.done ==> n == st.visited_fixed + st.visited_pegged && book.cursor_at(
            oracle_price_lots,
            n as nat,
        ) == (st.visited_fixed as int, st.visited_pegged as int),
    ensures
        fills_in_order(
            book.ordered(ctx.now_ts, oracle_price_lots),
            match_run(ctx, book.ordered(ctx.now_ts, oracle_price_lots), n, st),
        ),
    decreases book.len() - n,
{
    if !st.done && n < book.len() {
        lemma_step_keeps_ok(
            book,
            ctx,
            oracle_price_lots,
            max_base_lots,
            max_quote_lots,
            limit,
            st,
            n,
        );
        lemma_step_keeps_order(book, ctx, oracle_price_lots, st, n);
        lemma_run_keeps_order(
            book,
            ctx,
            oracle_price_lots,
            max_base_lots,
            max_quote_lots,
            limit,
            match_step(ctx, st, book.ordered(ctx.now_ts, oracle_price_lots)[n]),
            n + 1,
        );
    }
}

/// The state of a matching run as the engine holds it.
#[derive(Clone, Debug)]
pub struct MatchPlan {
    pub remaining_base_lots: i64,
    pub remaining_quote_lots: i64,
    pub limit: u8,
    pub dropped: usize,
    pub post_allowed: bool,
    pub done: bool,
    pub events: Vec<AnyEvent>,
    pub kept_fixed: Vec<LeafNode>,
    pub kept_pegged: Vec<LeafNode>,
    pub visited_fixed: usize,
    pub visited_pegged: usize,
}

impl View for MatchPlan {
    type V = MatchState;

    open spec fn view(&self) -> MatchState {
        MatchState {
            remaining_base_lots: self.remaining_base_lots,
            remaining_quote_lots: self.remaining_quote_lots,
            limit: self.limit,
            dropped: self.dropped as nat,
            post_allowed: self.post_allowed,
            done: self.done,
            events: self.events@,
            kept_fixed: self.kept_fixed@,
            kept_pegged: self.kept_pegged@,
            visited_fixed: self.visited_fixed as nat,
            visited_pegged: self.visited_pegged as nat,
        }
    }
}

impl MatchPlan {
    /// The plan of a run that has not looked at any order yet.
    pub fn new(max_base_lots: i64, max_quote_lots: i64, limit: u8) -> (plan: MatchPlan)
        ensures
            plan@ == MatchState::initial(max_base_lots, max_quote_lots, limit),
    {
        MatchPlan {
            remaining_base_lots: max_base_lots,
            remaining_quote_lots: max_quote_lots,
            limit,
            dropped: 0,
            post_allowed: true,
            done: false,
            events: Vec::new(),
            kept_fixed: Vec::new(),
            kept_pegged: Vec::new(),
            visited_fixed: 0,
            visited_pegged: 0,
        }
    }

    fn pass(&mut self, t: BookSideOrderTree, kept: Option<LeafNode>)
        requires
            old(self).visited_fixed < usize::MAX,
            old(self).visited_pegged < usize::MAX,
        ensures
            final(self)@ == old(self)@.pass(t, kept),
    {
        match t {
            BookSideOrderTree::Fixed => {
                self.visited_fixed = self.visited_fixed + 1;
                if let Some(node) = kept {
                    self.kept_fixed.push(node);
                }
            },
            BookSideOrderTree::OraclePegged => {
                self.visited_pegged = self.visited_pegged + 1;
                if let Some(node) = kept {
                    self.kept_pegged.push(node);
                }
            },
        }
    }

    /// Takes one step of the run: deals with the next resting order.
    fn step(&mut self, ctx: &MatchContext, item: &BookSideIterItem)
        requires
            old(self).visited_fixed < usize::MAX,
            old(self).visited_pegged < usize::MAX,
            0 <= old(self).remaining_base_lots,
            0 <= old(self).remaining_quote_lots,
            ctx.first_seq_num + old(self).events@.len() <= u64::MAX,
            item.node.quantity >= 1,
            item.spec_is_valid() ==> item.price_lots >= 1,
        ensures
            final(self)@ == match_step(*ctx, old(self)@, *item),
    {
        let t = item.handle.order_tree;
        if self.remaining_base_lots == 0 || self.remaining_quote_lots == 0 {
            self.done = true;
            return ;
        }
        let seq_num: u64 = ctx.first_seq_num + self.events.len() as u64;
        if !item.is_valid() {
            if self.dropped < DROP_EXPIRED_ORDER_LIMIT {
                self.dropped = self.dropped + 1;
                let event = OutEvent::new(
                    ctx.side.invert_side(),
                    item.node.owner_slot,
                    ctx.now_ts,
                    seq_num,
                    item.node.owner,
                    item.node.quantity,
                );
                self.events.push(AnyEvent::Out(event));
                self.pass(t, None);
            } else {
                self.pass(t, Some(item.node));
            }
            return ;
        }
        let price = item.price_lots;
        if !ctx.side.is_price_within_limit(price, ctx.price_lots) {
            self.done = true;
            return ;
        }
        if ctx.post_only || self.limit == 0 {
            self.post_allowed = false;
            self.done = true;
            return ;
        }
        let max_match_by_quote = self.remaining_quote_lots / price;
        let by_base = if self.remaining_base_lots <= item.node.quantity {
            self.remaining_base_lots
        } else {
            item.node.quantity
        };
        let match_base_lots = if by_base <= max_match_by_quote {
            by_base
        } else {
            max_match_by_quote
        };
        proof {
            assert(0 <= self.remaining_quote_lots as int / price as int) by (nonlinear_arith)
                requires
                    0 <= self.remaining_quote_lots,
                    1 <= price,
            ;
            lemma_match_cost(
                match_base_lots as int,
                self.remaining_quote_lots as int,
                price as int,
            );
        }
        let match_quote_lots = match_base_lots * price;
        let new_quantity = item.node.quantity - match_base_lots;
        let maker_out = new_quantity == 0;
        let fill = FillEvent::new(
            ctx.side,
            maker_out,
            item.node.owner_slot,
            ctx.now_ts,
            seq_num,
            item.node.owner,
            item.node.client_order_id,
            ctx.maker_fee,
            item.node.timestamp,
            ctx.taker,
            ctx.taker_client_order_id,
            ctx.taker_fee,
            price,
            match_base_lots,
        );
        self.remaining_base_lots = self.remaining_base_lots - match_base_lots;
        self.remaining_quote_lots = self.remaining_quote_lots - match_quote_lots;
        self.limit = self.limit - 1;
        self.events.push(AnyEvent::Fill(fill));
        if maker_out {
            self.pass(t, None);
        } else {
            let mut node = item.node;
            node.quantity = new_quantity;
            self.pass(t, Some(node));
        }
    }
}

/// Matches an incoming order against the side `opposing` without changing
/// the side: the result holds the events to emit, what remains of the
/// incoming order, and which resting orders stay with which quantity.
///
/// The result is the outcome of the run that `match_step` describes, over
/// the resting orders in the order of traversal. It conserves quantities,
/// respects the incoming order's limit price, never matches a post-only
/// order, and leaves a well-formed side.
pub fn match_orders(
    opposing: &BookSide,
    ctx: &MatchContext,
    oracle_price_lots: i64,
    max_base_lots: i64,
    max_quote_lots: i64,
    limit: u8,
) -> (plan: MatchPlan)
    requires
        opposing.wf(),
        max_base_lots >= 0,
        max_quote_lots >= 0,
        ctx.first_seq_num + limit + DROP_EXPIRED_ORDER_LIMIT <= u64::MAX,
    ensures
        plan@ == match_outcome(
            opposing@,
            *ctx,
            oracle_price_lots,
            max_base_lots,
            max_quote_lots,
            limit,
        ),
        state_ok(*ctx, max_base_lots, max_quote_lots, limit, plan@),
        kept_ok(opposing@, plan@),
        plan@.applied_to(opposing@).wf(),
{
    let mut plan = MatchPlan::new(max_base_lots, max_quote_lots, limit);
    let mut it = opposing.iter_all_including_invalid(ctx.now_ts, oracle_price_lots);
    let ghost items = opposing@.ordered(ctx.now_ts, oracle_price_lots);
    let ghost outcome = match_outcome(
        opposing@,
        *ctx,
        oracle_price_lots,
        max_base_lots,
        max_quote_lots,
        limit,
    );
    proof {
        lemma_match_outcome_ok(
            opposing@,
            *ctx,
            oracle_price_lots,
            max_base_lots,
            max_quote_lots,
            limit,
        );
        assert(plan@.kept_fixed + opposing@.fixed.skip(0) =~= opposing@.fixed);
        assert(plan@.kept_pegged + opposing@.oracle_pegged.skip(0) =~= opposing@.oracle_pegged);
    }
    loop
        invariant_except_break
            !plan.done,
            plan.visited_fixed == it.fixed_pos,
            plan.visited_pegged == it.pegged_pos,
        invariant
            opposing.wf(),
            it.wf(opposing),
            it.now_ts == ctx.now_ts,
            it.oracle_price_lots == oracle_price_lots,
            ctx.first_seq_num + limit + DROP_EXPIRED_ORDER_LIMIT <= u64::MAX,
            items == opposing@.ordered(ctx.now_ts, oracle_price_lots),
            state_ok(*ctx, max_base_lots, max_quote_lots, limit, plan@),
            kept_ok(opposing@, plan@),
            match_run(*ctx, items, it.position() as int, plan@) == outcome,
        ensures
            plan@ == outcome,
        decreases opposing.spec_len() - it.position(),
    {
        let ghost n = it.position() as int;
        match it.next(opposing) {
            None => {
                break ;
            },
            Some(item) => {
                proof {
                    opposing@.lemma_item_is_resting_order(ctx.now_ts, oracle_price_lots, n);
                    opposing@.lemma_cursor_bounds(oracle_price_lots, n as nat);
                    lemma_step_keeps_ok(
                        opposing@,
                        *ctx,
                        oracle_price_lots,
                        max_base_lots,
                        max_quote_lots,
                        limit,
                        plan@,
                        n,
                    );
                }
                let ghost before = plan@;
                plan.step(ctx, &item);
                assert(match_run(*ctx, items, n, before) == match_run(*ctx, items, n + 1, plan@));
                if plan.done {
                    assert(match_run(*ctx, items, n + 1, plan@) == plan@);
                    break ;
                }
            },
        }
    }
    plan
}

} // verus!
