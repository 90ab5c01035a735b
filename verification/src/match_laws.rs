//! What a matching run does to the makers it meets: proved of every run.

use vstd::prelude::*;
use vstd::arithmetic::div_mod::{lemma_basic_div, lemma_fundamental_div_mod, lemma_mod_bound};
use vstd::arithmetic::mul::{lemma_mul_is_commutative, lemma_mul_nonnegative};
use crate::bookside::{has_key, key_goes_before, key_position, BookSideView};
use crate::event::FillEvent;
use crate::iter::BookSideIterItem;
use crate::matching::{
    fill_event, fill_is_against, fills_in_order, fills_of, kept_ok, lemma_fills_of_push,
    lemma_match_outcome_ok, lemma_matches_in_traversal_order, lemma_step_keeps_ok,
    lemma_step_keeps_order, match_outcome, match_quantity, match_run, match_step, out_event,
    state_ok, valid_items, MatchContext, MatchState, DROP_EXPIRED_ORDER_LIMIT,
};
use crate::node::LeafNode;
use crate::side::BookSideOrderTree;

verus! {

/// The orders that the state keeps of collection `t`.
pub open spec fn kept_of(st: MatchState, t: BookSideOrderTree) -> Seq<LeafNode> {
    match t {
        BookSideOrderTree::Fixed => st.kept_fixed,
        BookSideOrderTree::OraclePegged => st.kept_pegged,
    }
}

/// Number of orders of collection `t` that the state has passed.
pub open spec fn visited_of(st: MatchState, t: BookSideOrderTree) -> int {
    match t {
        BookSideOrderTree::Fixed => st.visited_fixed as int,
        BookSideOrderTree::OraclePegged => st.visited_pegged as int,
    }
}

/// What a match leaves of its maker. The maker was a resting order of the
/// side, among those passed. If the match took all of it, no order with
/// its key is kept. Otherwise it is kept, changed in nothing but its
/// quantity, which is lower by what the match took.
pub open spec fn maker_settled(
    book: BookSideView,
    st: MatchState,
    item: BookSideIterItem,
    fill: FillEvent,
) -> bool {
    let t = item.handle.order_tree;
    let kept = kept_of(st, t);
    &&& 0 <= item.handle.node < visited_of(st, t)
    &&& item.handle.node < book.tree(t).len()
    &&& book.tree(t)[item.handle.node as int] == item.node
    &&& if fill.maker_out {
        forall|j: int| 0 <= j < kept.len() ==> (#[trigger] kept[j]).key != item.node.key
    } else {
        exists|j: int|
            0 <= j < kept.len() && #[trigger] kept[j] == item.node.with_quantity(
                (item.node.quantity - fill.quantity) as i64,
            )
    }
}

/// The orders that the state has passed are the first of the traversal, and
/// every valid one among them is priced within the incoming order's limit.
pub open spec fn passed_ok(
    book: BookSideView,
    ctx: MatchContext,
    oracle_price_lots: i64,
    st: MatchState,
) -> bool {
    let items = book.ordered(ctx.now_ts, oracle_price_lots);
    let passed = st.visited_fixed + st.visited_pegged;
    &&& passed <= items.len()
    &&& book.cursor_at(oracle_price_lots, passed) == (
        st.visited_fixed as int,
        st.visited_pegged as int,
    )
    &&& forall|m: int|
        0 <= m < passed && (#[trigger] items[m]).spec_is_valid() ==> ctx.side.price_within_limit(
            items[m].price_lots as int,
            ctx.price_lots as int,
        )
}

/// Each of the matches `fills` has left its maker, the order of `makers`
/// at the same index, as `maker_settled` says.
pub open spec fn settled_ok(
    book: BookSideView,
    st: MatchState,
    makers: Seq<BookSideIterItem>,
    fills: Seq<FillEvent>,
) -> bool {
    &&& fills.len() == makers.len()
    &&& forall|k: int|
        0 <= k < fills.len() ==> #[trigger] maker_settled(book, st, makers[k], fills[k])
}

/// A maker that was not taken completely has left the incoming order
/// without base lots, or with fewer quote lots than one lot costs at the
/// maker's price. So of two matches at one price, the later takes something
/// only if the earlier took all of its maker.
pub open spec fn turns_ok(
    remaining_base_lots: i64,
    remaining_quote_lots: i64,
    fills: Seq<FillEvent>,
) -> bool {
    &&& forall|k: int|
        0 <= k < fills.len() && !(#[trigger] fills[k]).maker_out ==> remaining_base_lots == 0
            || remaining_quote_lots < fills[k].price
    &&& forall|k1: int, k2: int|
        0 <= k1 < k2 < fills.len() && (#[trigger] fills[k1]).price == (#[trigger] fills[k2]).price
            && fills[k2].quantity > 0 ==> fills[k1].maker_out
}

/// What holds of the makers of every state of a run: `passed_ok`,
/// `settled_ok` of the valid orders passed and the `Fill` events emitted,
/// and `turns_ok`.
pub open spec fn makers_ok(
    book: BookSideView,
    ctx: MatchContext,
    oracle_price_lots: i64,
    st: MatchState,
) -> bool {
    let items = book.ordered(ctx.now_ts, oracle_price_lots);
    let passed = st.visited_fixed + st.visited_pegged;
    &&& passed_ok(book, ctx, oracle_price_lots, st)
    &&& settled_ok(book, st, valid_items(items, passed), fills_of(st.events))
    &&& turns_ok(st.remaining_base_lots, st.remaining_quote_lots, fills_of(st.events))
}

/// What is left of the quote lots after buying as many lots as they pay
/// for is less than the price of one lot.
proof fn lemma_quote_left(quote: int, price: int)
    requires
        0 <= quote,
        1 <= price,
    ensures
        0 <= quote / price,
        0 <= quote - (quote / price) * price < price,
        quote < price ==> quote / price == 0,
{
    lemma_fundamental_div_mod(quote, price);
    lemma_mod_bound(quote, price);
    lemma_mul_is_commutative(quote / price, price);
    if quote < price {
        lemma_basic_div(quote, price);
    }
    assert(0 <= quote / price) by (nonlinear_arith)
        requires
            0 <= quote,
            1 <= price,
    ;
}

/// The traversal never goes back: what it has taken of a collection after
/// `n` steps it has taken after `m >= n` steps.
pub proof fn lemma_cursor_is_monotone(book: BookSideView, oracle_price_lots: i64, n: nat, m: nat)
    requires
        n <= m,
    ensures
        book.cursor_at(oracle_price_lots, n).0 <= book.cursor_at(oracle_price_lots, m).0,
        book.cursor_at(oracle_price_lots, n).1 <= book.cursor_at(oracle_price_lots, m).1,
    decreases m - n,
{
    if n < m {
        lemma_cursor_is_monotone(book, oracle_price_lots, n, (m - 1) as nat);
    }
}

/// Passing an order keeps the makers settled: the order stays under its
/// key or leaves, and it has priority over no order kept before.
proof fn lemma_pass_keeps_settled(
    book: BookSideView,
    st: MatchState,
    after: MatchState,
    item: BookSideIterItem,
    keep: Option<LeafNode>,
    makers: Seq<BookSideIterItem>,
    fills: Seq<FillEvent>,
)
    requires
        book.wf(),
        kept_ok(book, st),
        settled_ok(book, st, makers, fills),
        0 <= item.handle.node < book.tree(item.handle.order_tree).len(),
        item.handle.node == visited_of(st, item.handle.order_tree),
        book.tree(item.handle.order_tree)[item.handle.node as int] == item.node,
        keep matches Some(node) ==> node.key == item.node.key,
        after.kept_fixed == st.pass(item.handle.order_tree, keep).kept_fixed,
        after.kept_pegged == st.pass(item.handle.order_tree, keep).kept_pegged,
        after.visited_fixed == st.pass(item.handle.order_tree, keep).visited_fixed,
        after.visited_pegged == st.pass(item.handle.order_tree, keep).visited_pegged,
    ensures
        settled_ok(book, after, makers, fills),
        forall|j: int|
            0 <= j < kept_of(st, item.handle.order_tree).len() ==> (#[trigger] kept_of(
                st,
                item.handle.order_tree,
            )[j]).key != item.node.key,
{
    let t = item.handle.order_tree;
    let kept = kept_of(st, t);
    let tree = book.tree(t);
    let rest = kept + tree.skip(visited_of(st, t));
    assert(rest[kept.len() as int] == tree[visited_of(st, t)]);
    assert forall|j: int| 0 <= j < kept.len() implies (#[trigger] kept[j]).key
        != item.node.key by {
        assert(rest[j] == kept[j]);
        assert(key_goes_before(book.side, rest[j].key, rest[kept.len() as int].key));
    }
    assert forall|k: int| 0 <= k < fills.len() implies #[trigger] maker_settled(
        book,
        after,
        makers[k],
        fills[k],
    ) by {
        let maker = makers[k];
        assert(maker_settled(book, st, maker, fills[k]));
        let mt = maker.handle.order_tree;
        if mt == t {
            assert(key_goes_before(
                book.side,
                tree[maker.handle.node as int].key,
                tree[item.handle.node as int].key,
            ));
        }
        if !fills[k].maker_out {
            let left = maker.node.with_quantity((maker.node.quantity - fills[k].quantity) as i64);
            let j = choose|j: int|
                0 <= j < kept_of(st, mt).len() && #[trigger] kept_of(st, mt)[j] == left;
            assert(kept_of(after, mt)[j] == left);
        }
    }
}

/// A match settles its own maker, and keeps the makers before it settled.
proof fn lemma_fill_settles_maker(
    book: BookSideView,
    st: MatchState,
    after: MatchState,
    item: BookSideIterItem,
    fill: FillEvent,
    makers: Seq<BookSideIterItem>,
    fills: Seq<FillEvent>,
)
    requires
        book.wf(),
        kept_ok(book, st),
        settled_ok(book, st, makers, fills),
        0 <= item.handle.node < book.tree(item.handle.order_tree).len(),
        item.handle.node == visited_of(st, item.handle.order_tree),
        book.tree(item.handle.order_tree)[item.handle.node as int] == item.node,
        0 <= fill.quantity <= item.node.quantity,
        fill.maker_out == (fill.quantity == item.node.quantity),
        ({
            let keep = if fill.maker_out {
                None
            } else {
                Some(item.node.with_quantity((item.node.quantity - fill.quantity) as i64))
            };
            &&& after.kept_fixed == st.pass(item.handle.order_tree, keep).kept_fixed
            &&& after.kept_pegged == st.pass(item.handle.order_tree, keep).kept_pegged
            &&& after.visited_fixed == st.pass(item.handle.order_tree, keep).visited_fixed
            &&& after.visited_pegged == st.pass(item.handle.order_tree, keep).visited_pegged
        }),
    ensures
        settled_ok(book, after, makers.push(item), fills.push(fill)),
{
    let t = item.handle.order_tree;
    let keep = if fill.maker_out {
        None
    } else {
        Some(item.node.with_quantity((item.node.quantity - fill.quantity) as i64))
    };
    lemma_pass_keeps_settled(book, st, after, item, keep, makers, fills);
    if !fill.maker_out {
        assert(kept_of(after, t)[kept_of(st, t).len() as int] == keep.unwrap());
    }
    assert(maker_settled(book, after, item, fill));
    let makers_after = makers.push(item);
    let fills_after = fills.push(fill);
    assert forall|k: int| 0 <= k < fills_after.len() implies #[trigger] maker_settled(
        book,
        after,
        makers_after[k],
        fills_after[k],
    ) by {
        if k < fills.len() {
            assert(maker_settled(book, after, makers[k], fills[k]));
        }
    }
}

/// A match keeps the turns of the makers.
proof fn lemma_fill_keeps_turns(
    remaining_base_lots: i64,
    remaining_quote_lots: i64,
    fills: Seq<FillEvent>,
    fill: FillEvent,
    quantity: i64,
)
    requires
        turns_ok(remaining_base_lots, remaining_quote_lots, fills),
        remaining_base_lots > 0,
        remaining_quote_lots > 0,
        fill.price >= 1,
        quantity >= 1,
        fill.quantity == ({
            let by_quote = remaining_quote_lots as int / fill.price as int;
            let by_base = if remaining_base_lots <= quantity {
                remaining_base_lots as int
            } else {
                quantity as int
            };
            if by_base <= by_quote {
                by_base
            } else {
                by_quote
            }
        }),
        fill.maker_out == (fill.quantity == quantity),
    ensures
        0 <= fill.quantity * fill.price <= remaining_quote_lots,
        0 <= fill.quantity <= remaining_base_lots,
        turns_ok(
            (remaining_base_lots - fill.quantity) as i64,
            (remaining_quote_lots - fill.quantity * fill.price) as i64,
            fills.push(fill),
        ),
{
    let by_quote = remaining_quote_lots as int / fill.price as int;
    lemma_quote_left(remaining_quote_lots as int, fill.price as int);
    lemma_mul_nonnegative(fill.quantity as int, fill.price as int);
    assert(fill.quantity * fill.price <= by_quote * fill.price) by (nonlinear_arith)
        requires
            0 <= fill.quantity <= by_quote,
            1 <= fill.price,
    ;
    let base_after = (remaining_base_lots - fill.quantity) as i64;
    let quote_after = (remaining_quote_lots - fill.quantity * fill.price) as i64;
    let fills_after = fills.push(fill);
    assert forall|k: int|
        0 <= k < fills_after.len() && !(#[trigger] fills_after[k]).maker_out implies base_after == 0
        || quote_after < fills_after[k].price by {
        if k < fills.len() {
            assert(fills_after[k] == fills[k]);
        }
    }
    assert forall|k1: int, k2: int|
        0 <= k1 < k2 < fills_after.len() && (#[trigger] fills_after[k1]).price == (
        #[trigger] fills_after[k2]).price && fills_after[k2].quantity
            > 0 implies fills_after[k1].maker_out by {
        assert(fills_after[k1] == fills[k1]);
        if k2 < fills.len() {
            assert(fills_after[k2] == fills[k2]);
        }
    }
}

/// A step keeps what holds of the makers.
proof fn lemma_step_keeps_makers(
    book: BookSideView,
    ctx: MatchContext,
    oracle_price_lots: i64,
    st: MatchState,
    n: int,
)
    requires
        book.wf(),
        0 <= n < book.len(),
        !st.done,
        n == st.visited_fixed + st.visited_pegged,
        0 <= st.remaining_base_lots,
        0 <= st.remaining_quote_lots,
        kept_ok(book, st),
        makers_ok(book, ctx, oracle_price_lots, st),
    ensures
        makers_ok(
            book,
            ctx,
            oracle_price_lots,
            match_step(ctx, st, book.ordered(ctx.now_ts, oracle_price_lots)[n]),
        ),
{
    let items = book.ordered(ctx.now_ts, oracle_price_lots);
    let item = items[n];
    let t = item.handle.order_tree;
    let after = match_step(ctx, st, item);
    let fills = fills_of(st.events);
    let makers = valid_items(items, n as nat);
    book.lemma_item_is_resting_order(ctx.now_ts, oracle_price_lots, n);
    book.lemma_cursor_bounds(oracle_price_lots, n as nat);
    book.lemma_cursor_bounds(oracle_price_lots, (n + 1) as nat);
    let stops = st.remaining_base_lots == 0 || st.remaining_quote_lots == 0 || (
    item.spec_is_valid() && (!ctx.side.price_within_limit(
        item.price_lots as int,
        ctx.price_lots as int,
    ) || ctx.post_only || st.limit == 0));
    if stops {
        assert(after.events == st.events);
        assert(after.kept_fixed == st.kept_fixed && after.kept_pegged == st.kept_pegged);
        assert(settled_ok(book, after, makers, fills)) by {
            assert forall|k: int| 0 <= k < fills.len() implies #[trigger] maker_settled(
                book,
                after,
                makers[k],
                fills[k],
            ) by {
                assert(maker_settled(book, st, makers[k], fills[k]));
            }
        }
    } else {
        assert(item.handle.node == visited_of(st, t));
        assert(passed_ok(book, ctx, oracle_price_lots, after));
        if !item.spec_is_valid() {
            let keep = if st.dropped < DROP_EXPIRED_ORDER_LIMIT {
                None
            } else {
                Some(item.node)
            };
            if st.dropped < DROP_EXPIRED_ORDER_LIMIT {
                lemma_fills_of_push(st.events, out_event(ctx, st, item));
            }
            assert(fills_of(after.events) == fills);
            assert(valid_items(items, (n + 1) as nat) == makers);
            lemma_pass_keeps_settled(book, st, after, item, keep, makers, fills);
        } else {
            let matched = match_quantity(st, item);
            let fill = fill_event(ctx, st, item, matched)->Fill_0;
            lemma_quote_left(st.remaining_quote_lots as int, item.price_lots as int);
            lemma_fills_of_push(st.events, fill_event(ctx, st, item, matched));
            assert(fills_of(after.events) == fills.push(fill));
            assert(valid_items(items, (n + 1) as nat) == makers.push(item));
            lemma_fill_keeps_turns(
                st.remaining_base_lots,
                st.remaining_quote_lots,
                fills,
                fill,
                item.node.quantity,
            );
            lemma_fill_settles_maker(book, st, after, item, fill, makers, fills);
        }
    }
}

/// Every run ends in a state of which `makers_ok` holds.
proof fn lemma_run_keeps_makers(
    book: BookSideView,
    ctx: MatchContext,
    oracle_price_lots: i64,
    max_base_lots: i64,
    max_quote_lots: i64,
    limit: u8,
    st: MatchState,
    n: int,
)
    requires
        book.wf(),
        0 <= n <= book.len(),
        ctx.first_seq_num + limit + DROP_EXPIRED_ORDER_LIMIT <= u64::MAX,
        state_ok(ctx, max_base_lots, max_quote_lots, limit, st),
        kept_ok(book, st),
        fills_in_order(book.ordered(ctx.now_ts, oracle_price_lots), st),
        makers_ok(book, ctx, oracle_price_lots, st),
        !st.done ==> n == st.visited_fixed + st.visited_pegged,
    ensures
        makers_ok(
            book,
            ctx,
            oracle_price_lots,
            match_run(ctx, book.ordered(ctx.now_ts, oracle_price_lots), n, st),
        ),
    decreases book.len() - n,
{
    if !st.done && n < book.len() {
        lemma_step_keeps_ok(
            book,
            ctx,
            oracle_price_lots,
            max_base_lots,
            max_quote_lots,
            limit,
            st,
            n,
        );
        lemma_step_keeps_order(book, ctx, oracle_price_lots, st, n);
        lemma_step_keeps_makers(book, ctx, oracle_price_lots, st, n);
        lemma_run_keeps_makers(
            book,
            ctx,
            oracle_price_lots,
            max_base_lots,
            max_quote_lots,
            limit,
            match_step(ctx, st, book.ordered(ctx.now_ts, oracle_price_lots)[n]),
            n + 1,
        );
    }
}

/// What matching does to the makers. For every well-formed side, every
/// incoming order with no negative quantity and every limit on the number
/// of matches, `makers_ok` holds of the outcome of the run.
pub proof fn lemma_match_outcome_makers(
    opposing: BookSideView,
    ctx: MatchContext,
    oracle_price_lots: i64,
    max_base_lots: i64,
    max_quote_lots: i64,
    limit: u8,
)
    requires
        opposing.wf(),
        max_base_lots >= 0,
        max_quote_lots >= 0,
        ctx.first_seq_num + limit + DROP_EXPIRED_ORDER_LIMIT <= u64::MAX,
    ensures
        makers_ok(
            opposing,
            ctx,
            oracle_price_lots,
            match_outcome(opposing, ctx, oracle_price_lots, max_base_lots, max_quote_lots, limit),
        ),
{
    let init = MatchState::initial(max_base_lots, max_quote_lots, limit);
    assert(init.kept_fixed + opposing.fixed.skip(0) =~= opposing.fixed);
    assert(init.kept_pegged + opposing.oracle_pegged.skip(0) =~= opposing.oracle_pegged);
    lemma_run_keeps_makers(
        opposing,
        ctx,
        oracle_price_lots,
        max_base_lots,
        max_quote_lots,
        limit,
        init,
        0,
    );
}

/// The valid orders among the first `m` of a traversal are the first of
/// the valid orders among the first `n >= m`.
pub proof fn lemma_valid_items_prefix(items: Seq<BookSideIterItem>, m: nat, n: nat)
    requires
        m <= n <= items.len(),
    ensures
        valid_items(items, m).len() <= valid_items(items, n).len(),
        forall|k: int|
            0 <= k < valid_items(items, m).len() ==> #[trigger] valid_items(items, n)[k]
                == valid_items(items, m)[k],
        m < n && items[m as int].spec_is_valid() ==> valid_items(items, m).len() < valid_items(
            items,
            n,
        ).len() && valid_items(items, n)[valid_items(items, m).len() as int] == items[m as int],
    decreases n - m,
{
    if m < n {
        lemma_valid_items_prefix(items, m, (n - 1) as nat);
    }
}

/// What a match leaves of its maker, in the book. On every run, the k-th
/// `Fill` event is a match against the k-th valid order passed, at that
/// order's price and for no more than the order offered. The order was a
/// resting order of the side. Where the match took all of it, the side
/// holds no order with its key afterwards; otherwise the side holds the
/// order afterwards, changed in nothing but its quantity, which is lower
/// by exactly what the match took.
pub proof fn lemma_matching_settles_makers(
    opposing: BookSideView,
    ctx: MatchContext,
    oracle_price_lots: i64,
    max_base_lots: i64,
    max_quote_lots: i64,
    limit: u8,
    k: int,
)
    requires
        opposing.wf(),
        max_base_lots >= 0,
        max_quote_lots >= 0,
        ctx.first_seq_num + limit + DROP_EXPIRED_ORDER_LIMIT <= u64::MAX,
        0 <= k < fills_of(
            match_outcome(
                opposing,
                ctx,
                oracle_price_lots,
                max_base_lots,
                max_quote_lots,
                limit,
            ).events,
        ).len(),
    ensures
        ({
            let outcome = match_outcome(
                opposing,
                ctx,
                oracle_price_lots,
                max_base_lots,
                max_quote_lots,
                limit,
            );
            let items = opposing.ordered(ctx.now_ts, oracle_price_lots);
            let makers = valid_items(items, outcome.visited_fixed + outcome.visited_pegged);
            let fill = fills_of(outcome.events)[k];
            let after = outcome.applied_to(opposing);
            let t = makers[k].handle.order_tree;
            &&& k < makers.len()
            &&& fill_is_against(fill, makers[k])
            &&& 0 <= makers[k].handle.node < opposing.tree(t).len()
            &&& opposing.tree(t)[makers[k].handle.node as int] == makers[k].node
            &&& fill.maker_out ==> !has_key(after.tree(t), makers[k].node.key)
            &&& !fill.maker_out ==> exists|j: int|
                0 <= j < after.tree(t).len() && #[trigger] after.tree(t)[j]
                    == makers[k].node.with_quantity(
                    (makers[k].node.quantity - fill.quantity) as i64,
                )
        }),
{
    let outcome = match_outcome(
        opposing,
        ctx,
        oracle_price_lots,
        max_base_lots,
        max_quote_lots,
        limit,
    );
    lemma_match_outcome_ok(opposing, ctx, oracle_price_lots, max_base_lots, max_quote_lots, limit);
    lemma_matches_in_traversal_order(
        opposing,
        ctx,
        oracle_price_lots,
        max_base_lots,
        max_quote_lots,
        limit,
    );
    lemma_match_outcome_makers(
        opposing,
        ctx,
        oracle_price_lots,
        max_base_lots,
        max_quote_lots,
        limit,
    );
    let items = opposing.ordered(ctx.now_ts, oracle_price_lots);
    let makers = valid_items(items, outcome.visited_fixed + outcome.visited_pegged);
    let fills = fills_of(outcome.events);
    let fill = fills[k];
    let maker = makers[k];
    let t = maker.handle.order_tree;
    let kept = kept_of(outcome, t);
    let visited = visited_of(outcome, t);
    let tree = opposing.tree(t);
    let after = outcome.applied_to(opposing).tree(t);
    assert(maker_settled(opposing, outcome, maker, fill));
    assert(after == kept + tree.skip(visited));
    if fill.maker_out {
        if has_key(after, maker.node.key) {
            let j = key_position(after, maker.node.key);
            if j < kept.len() {
                assert(after[j] == kept[j]);
            } else {
                let h = visited + j - kept.len();
                assert(after[j] == tree[h]);
                assert(key_goes_before(
                    opposing.side,
                    tree[maker.handle.node as int].key,
                    tree[h].key,
                ));
            }
        }
    } else {
        let left = maker.node.with_quantity((maker.node.quantity - fill.quantity) as i64);
        let j = choose|j: int| 0 <= j < kept.len() && #[trigger] kept[j] == left;
        assert(after[j] == left);
    }
}

/// Matching respects the limit price in the book. On every run, a valid
/// resting order whose price is beyond the incoming order's limit is not
/// passed, and every order that is not passed is in the side afterwards as
/// it was before, with its key and its quantity.
pub proof fn lemma_matching_spares_the_rest(
    opposing: BookSideView,
    ctx: MatchContext,
    oracle_price_lots: i64,
    max_base_lots: i64,
    max_quote_lots: i64,
    limit: u8,
    m: int,
)
    requires
        opposing.wf(),
        max_base_lots >= 0,
        max_quote_lots >= 0,
        ctx.first_seq_num + limit + DROP_EXPIRED_ORDER_LIMIT <= u64::MAX,
        0 <= m < opposing.len(),
    ensures
        ({
            let outcome = match_outcome(
                opposing,
                ctx,
                oracle_price_lots,
                max_base_lots,
                max_quote_lots,
                limit,
            );
            let item = opposing.ordered(ctx.now_ts, oracle_price_lots)[m];
            let passed = outcome.visited_fixed + outcome.visited_pegged;
            let after = outcome.applied_to(opposing);
            &&& item.spec_is_valid() && !ctx.side.price_within_limit(
                item.price_lots as int,
                ctx.price_lots as int,
            ) ==> m >= passed
            &&& m >= passed ==> exists|j: int|
                0 <= j < after.tree(item.handle.order_tree).len() && #[trigger] after.tree(
                    item.handle.order_tree,
                )[j] == item.node
        }),
{
    let outcome = match_outcome(
        opposing,
        ctx,
        oracle_price_lots,
        max_base_lots,
        max_quote_lots,
        limit,
    );
    lemma_match_outcome_ok(opposing, ctx, oracle_price_lots, max_base_lots, max_quote_lots, limit);
    lemma_match_outcome_makers(
        opposing,
        ctx,
        oracle_price_lots,
        max_base_lots,
        max_quote_lots,
        limit,
    );
    let item = opposing.ordered(ctx.now_ts, oracle_price_lots)[m];
    let passed = outcome.visited_fixed + outcome.visited_pegged;
    let t = item.handle.order_tree;
    if m >= passed {
        opposing.lemma_item_is_resting_order(ctx.now_ts, oracle_price_lots, m);
        opposing.lemma_cursor_bounds(oracle_price_lots, m as nat);
        opposing.lemma_cursor_bounds(oracle_price_lots, (m + 1) as nat);
        lemma_cursor_is_monotone(opposing, oracle_price_lots, passed as nat, m as nat);
        let kept = kept_of(outcome, t);
        let visited = visited_of(outcome, t);
        let after = outcome.applied_to(opposing).tree(t);
        assert(after == kept + opposing.tree(t).skip(visited));
        let j = kept.len() + item.handle.node - visited;
        assert(after[j] == item.node);
    }
}

/// Makers take their turns. On every run, of two valid orders that were
/// passed, the one that comes first in the traversal was matched first.
/// Where both have the same price and the later one gave up any quantity,
/// the earlier one was taken completely and has left the book.
pub proof fn lemma_makers_take_turns(
    opposing: BookSideView,
    ctx: MatchContext,
    oracle_price_lots: i64,
    max_base_lots: i64,
    max_quote_lots: i64,
    limit: u8,
    i: int,
    j: int,
)
    requires
        opposing.wf(),
        max_base_lots >= 0,
        max_quote_lots >= 0,
        ctx.first_seq_num + limit + DROP_EXPIRED_ORDER_LIMIT <= u64::MAX,
        ({
            let outcome = match_outcome(
                opposing,
                ctx,
                oracle_price_lots,
                max_base_lots,
                max_quote_lots,
                limit,
            );
            0 <= i < j < outcome.visited_fixed + outcome.visited_pegged
        }),
        opposing.ordered(ctx.now_ts, oracle_price_lots)[i].spec_is_valid(),
        opposing.ordered(ctx.now_ts, oracle_price_lots)[j].spec_is_valid(),
    ensures
        ({
            let outcome = match_outcome(
                opposing,
                ctx,
                oracle_price_lots,
                max_base_lots,
                max_quote_lots,
                limit,
            );
            let items = opposing.ordered(ctx.now_ts, oracle_price_lots);
            let fills = fills_of(outcome.events);
            let first = valid_items(items, i as nat).len() as int;
            let second = valid_items(items, j as nat).len() as int;
            &&& 0 <= first < second < fills.len()
            &&& fill_is_against(fills[first], items[i])
            &&& fill_is_against(fills[second], items[j])
            &&& items[i].price_lots == items[j].price_lots && fills[second].quantity > 0 ==> {
                &&& fills[first].maker_out
                &&& fills[first].quantity == items[i].node.quantity
            }
        }),
{
    let outcome = match_outcome(
        opposing,
        ctx,
        oracle_price_lots,
        max_base_lots,
        max_quote_lots,
        limit,
    );
    lemma_matches_in_traversal_order(
        opposing,
        ctx,
        oracle_price_lots,
        max_base_lots,
        max_quote_lots,
        limit,
    );
    lemma_match_outcome_makers(
        opposing,
        ctx,
        oracle_price_lots,
        max_base_lots,
        max_quote_lots,
        limit,
    );
    let items = opposing.ordered(ctx.now_ts, oracle_price_lots);
    let passed = (outcome.visited_fixed + outcome.visited_pegged) as nat;
    lemma_valid_items_prefix(items, i as nat, j as nat);
    lemma_valid_items_prefix(items, i as nat, passed);
    lemma_valid_items_prefix(items, j as nat, passed);
    let fills = fills_of(outcome.events);
    let first = valid_items(items, i as nat).len() as int;
    let second = valid_items(items, j as nat).len() as int;
    assert(fill_is_against(fills[first], valid_items(items, passed)[first]));
    assert(fill_is_against(fills[second], valid_items(items, passed)[second]));
}

} // verus!
