//! Traversal of a side of the book in priority order.

use vstd::prelude::*;
use crate::bookside::{key_goes_before, leaf_ok, BookSide, BookSideView};
use crate::key::{
    fixed_price_lots, key_price_data, key_radix, key_seq_num, oracle_pegged_price_offset, peg_bias,
};
use crate::node::LeafNode;
use crate::side::{BookSideOrderTree, Side};

verus! {

/// Whether a resting order can be matched at the moment of a traversal.
#[derive(Clone, Copy, Debug, PartialEq, Eq, Structural)]
pub enum OrderState {
    Valid,
    /// The order's time in force has run out, or it is pegged and has no
    /// price of at least one lot under the oracle price, or its price is
    /// beyond its peg limit.
    Invalid,
}

/// Where a resting order stands: its collection and its index there.
#[derive(Clone, Copy, Debug, PartialEq, Eq, Structural)]
pub struct BookSideOrderHandle {
    pub order_tree: BookSideOrderTree,
    pub node: usize,
}

/// One resting order as a traversal yields it.
#[derive(Clone, Copy, Debug, PartialEq, Eq, Structural)]
pub struct BookSideIterItem {
    pub handle: BookSideOrderHandle,
    pub node: LeafNode,
    /// The order's price in lots; for a pegged order the oracle price plus
    /// its offset, held to the range of `i64`.
    pub price_lots: i64,
    pub state: OrderState,
}

impl BookSideIterItem {
    pub open spec fn spec_is_valid(&self) -> bool {
        self.state == OrderState::Valid
    }

    #[verifier::when_used_as_spec(spec_is_valid)]
    pub fn is_valid(&self) -> (r: bool)
        ensures
            r == self.spec_is_valid(),
    {
        self.state == OrderState::Valid
    }

    /// The item's place in the order of traversal, as a number.
    pub open spec fn rank(&self, oracle_price_lots: i64) -> int {
        node_rank(self.handle.order_tree, self.node, oracle_price_lots)
    }
}

/// The exact price in lots of an order in collection `t`: the price word at
/// a fixed price, the oracle price plus the order's offset for a pegged order.
pub open spec fn node_price(t: BookSideOrderTree, node: LeafNode, oracle_price_lots: i64) -> int {
    match t {
        BookSideOrderTree::Fixed => key_price_data(node.key),
        BookSideOrderTree::OraclePegged => oracle_price_lots + (key_price_data(node.key)
            - peg_bias()),
    }
}

/// The number by which a traversal ranks an order: its exact price above the
/// sequence word of its key.
pub open spec fn node_rank(t: BookSideOrderTree, node: LeafNode, oracle_price_lots: i64) -> int {
    node_price(t, node, oracle_price_lots) * key_radix() + node.key as int % key_radix()
}

/// An order of rank `a` is traversed before one of rank `b`.
pub open spec fn rank_goes_before(side: Side, a: int, b: int) -> bool {
    match side {
        Side::Bid => a > b,
        Side::Ask => a < b,
    }
}

/// `p` held to the range of `i64`.
pub open spec fn clamp_to_i64(p: int) -> i64 {
    if p > i64::MAX {
        i64::MAX
    } else if p < i64::MIN {
        i64::MIN
    } else {
        p as i64
    }
}

/// A pegged order on `side` can be matched at the exact price `price`.
pub open spec fn peg_price_usable(side: Side, node: LeafNode, price: int) -> bool {
    &&& 1 <= price < i64::MAX
    &&& match node.peg_limit {
        Some(limit) => !side.price_better(price, limit as int),
        None => true,
    }
}

pub open spec fn node_state(
    side: Side,
    t: BookSideOrderTree,
    node: LeafNode,
    now_ts: u64,
    oracle_price_lots: i64,
) -> OrderState {
    let usable = match t {
        BookSideOrderTree::Fixed => true,
        BookSideOrderTree::OraclePegged => peg_price_usable(
            side,
            node,
            node_price(t, node, oracle_price_lots),
        ),
    };
    if !node.spec_is_expired(now_ts) && usable {
        OrderState::Valid
    } else {
        OrderState::Invalid
    }
}

/// The item that a traversal yields for the order `node` at `index` of `t`.
pub open spec fn make_item(
    side: Side,
    t: BookSideOrderTree,
    index: int,
    node: LeafNode,
    now_ts: u64,
    oracle_price_lots: i64,
) -> BookSideIterItem {
    BookSideIterItem {
        handle: BookSideOrderHandle { order_tree: t, node: index as usize },
        node,
        price_lots: clamp_to_i64(node_price(t, node, oracle_price_lots)),
        state: node_state(side, t, node, now_ts, oracle_price_lots),
    }
}

/// The sequence word of a key.
fn key_low_word(key: u128) -> (low: u64)
    ensures
        low == key as int % key_radix(),
{
    let low: u64 = #[verifier::truncate]
    (key as u64);
    proof {
        assert(#[verifier::truncate]
        (key as u64) == key % 0x1_0000_0000_0000_0000u128) by (bit_vector);
    }
    low
}

/// The exact price of an order, wide enough for every pegged price.
fn exact_price(t: BookSideOrderTree, node: &LeafNode, oracle_price_lots: i64) -> (p: i128)
    requires
        leaf_ok(t, *node),
    ensures
        p == node_price(t, *node, oracle_price_lots),
{
    let price_data = node.price_data();
    match t {
        BookSideOrderTree::Fixed => fixed_price_lots(price_data) as i128,
        BookSideOrderTree::OraclePegged => {
            let offset = oracle_pegged_price_offset(price_data);
            oracle_price_lots as i128 + offset as i128
        },
    }
}

fn build_item(
    side: Side,
    t: BookSideOrderTree,
    index: usize,
    node: LeafNode,
    now_ts: u64,
    oracle_price_lots: i64,
) -> (item: BookSideIterItem)
    requires
        leaf_ok(t, node),
    ensures
        item == make_item(side, t, index as int, node, now_ts, oracle_price_lots),
{
    let exact = exact_price(t, &node, oracle_price_lots);
    let price_lots: i64 = if exact > i64::MAX as i128 {
        i64::MAX
    } else if exact < i64::MIN as i128 {
        i64::MIN
    } else {
        exact as i64
    };
    let usable = match t {
        BookSideOrderTree::Fixed => true,
        BookSideOrderTree::OraclePegged => {
            let in_range = 1 <= exact && exact < i64::MAX as i128;
            let within_peg = match node.peg_limit {
                Some(limit) => !(in_range && side.is_price_better(price_lots, limit)),
                None => true,
            };
            in_range && within_peg
        },
    };
    let state = if !node.is_expired(now_ts) && usable {
        OrderState::Valid
    } else {
        OrderState::Invalid
    };
    BookSideIterItem {
        handle: BookSideOrderHandle { order_tree: t, node: index },
        node,
        price_lots,
        state,
    }
}

/// Index of the last valid item among the first `n` of `items`, if any.
pub open spec fn last_valid(items: Seq<BookSideIterItem>, n: nat) -> Option<int>
    decreases n,
{
    if n == 0 {
        None
    } else if items[n - 1].spec_is_valid() {
        Some(n - 1)
    } else {
        last_valid(items, (n - 1) as nat)
    }
}

/// Index of the first valid item among those from index `from` on, if any.
pub open spec fn first_valid(items: Seq<BookSideIterItem>, from: int) -> Option<int>
    decreases items.len() - from,
{
    if from < 0 || from >= items.len() {
        None
    } else if items[from].spec_is_valid() {
        Some(from)
    } else {
        first_valid(items, from + 1)
    }
}

/// What `last_valid` finds is a valid item among the first `n`, and no item
/// behind it among them is valid.
pub proof fn lemma_last_valid_in_range(items: Seq<BookSideIterItem>, n: nat)
    requires
        n <= items.len(),
    ensures
        match last_valid(items, n) {
            Some(i) => 0 <= i < n && items[i].spec_is_valid() && forall|j: int|
                i < j < n ==> !(#[trigger] items[j]).spec_is_valid(),
            None => forall|j: int| 0 <= j < n ==> !(#[trigger] items[j]).spec_is_valid(),
        },
    decreases n,
{
    if n > 0 {
        lemma_last_valid_in_range(items, (n - 1) as nat);
    }
}

impl BookSideView {
    /// With `fi` fixed and `pi` pegged orders traversed, the next order is
    /// the fixed one: there is one, and the next pegged order, if any, does
    /// not rank before it.
    pub open spec fn fixed_is_next(self, oracle_price_lots: i64, fi: int, pi: int) -> bool {
        let fixed = self.tree(BookSideOrderTree::Fixed);
        let pegged = self.tree(BookSideOrderTree::OraclePegged);
        fi < fixed.len() && (pi >= pegged.len() || !rank_goes_before(
            self.side,
            node_rank(BookSideOrderTree::OraclePegged, pegged[pi], oracle_price_lots),
            node_rank(BookSideOrderTree::Fixed, fixed[fi], oracle_price_lots),
        ))
    }

    /// How many fixed and how many pegged orders the first `n` steps of a
    /// traversal take.
    pub open spec fn cursor_at(self, oracle_price_lots: i64, n: nat) -> (int, int)
        decreases n,
    {
        if n == 0 {
            (0, 0)
        } else {
            let (fi, pi) = self.cursor_at(oracle_price_lots, (n - 1) as nat);
            if self.fixed_is_next(oracle_price_lots, fi, pi) {
                (fi + 1, pi)
            } else {
                (fi, pi + 1)
            }
        }
    }

    /// The order that a traversal yields at step `n`, counted from 0.
    pub open spec fn item_at(
        self,
        now_ts: u64,
        oracle_price_lots: i64,
        n: int,
    ) -> BookSideIterItem {
        let (fi, pi) = self.cursor_at(oracle_price_lots, n as nat);
        if self.fixed_is_next(oracle_price_lots, fi, pi) {
            make_item(
                self.side,
                BookSideOrderTree::Fixed,
                fi,
                self.tree(BookSideOrderTree::Fixed)[fi],
                now_ts,
                oracle_price_lots,
            )
        } else {
            make_item(
                self.side,
                BookSideOrderTree::OraclePegged,
                pi,
                self.tree(BookSideOrderTree::OraclePegged)[pi],
                now_ts,
                oracle_price_lots,
            )
        }
    }

    /// All resting orders of the side in the order of traversal: the two
    /// collections merged by rank, the fixed order first where two ranks are
    /// equal.
    pub open spec fn ordered(self, now_ts: u64, oracle_price_lots: i64) -> Seq<BookSideIterItem> {
        Seq::new(self.len(), |n: int| self.item_at(now_ts, oracle_price_lots, n))
    }

    /// After `n` steps the traversal has taken `n` orders, never more of a
    /// collection than it holds.
    pub proof fn lemma_cursor_bounds(self, oracle_price_lots: i64, n: nat)
        requires
            n <= self.len(),
        ensures
            0 <= self.cursor_at(oracle_price_lots, n).0 <= self.tree(
                BookSideOrderTree::Fixed,
            ).len(),
            0 <= self.cursor_at(oracle_price_lots, n).1 <= self.tree(
                BookSideOrderTree::OraclePegged,
            ).len(),
            self.cursor_at(oracle_price_lots, n).0 + self.cursor_at(oracle_price_lots, n).1 == n,
        decreases n,
    {
        if n > 0 {
            self.lemma_cursor_bounds(oracle_price_lots, (n - 1) as nat);
        }
    }

    /// Within one collection the order of the keys is the order of the ranks.
    pub proof fn lemma_tree_sorted_by_rank(
        self,
        t: BookSideOrderTree,
        oracle_price_lots: i64,
        i: int,
        j: int,
    )
        requires
            self.wf(),
            0 <= i < j < self.tree(t).len(),
        ensures
            rank_goes_before(
                self.side,
                node_rank(t, self.tree(t)[i], oracle_price_lots),
                node_rank(t, self.tree(t)[j], oracle_price_lots),
            ),
    {
        let s = self.tree(t);
        assert(key_goes_before(self.side, s[i].key, s[j].key));
    }

    /// An order taken at step `i` does not rank behind any order that is
    /// still to come after `n > i` steps.
    proof fn lemma_taken_before_rest(self, now_ts: u64, oracle_price_lots: i64, i: int, n: nat)
        requires
            self.wf(),
            0 <= i < n <= self.len(),
        ensures
            forall|f: int|
                self.cursor_at(oracle_price_lots, n).0 <= f < self.tree(
                    BookSideOrderTree::Fixed,
                ).len() ==> !rank_goes_before(
                    self.side,
                    node_rank(
                        BookSideOrderTree::Fixed,
                        #[trigger] self.tree(BookSideOrderTree::Fixed)[f],
                        oracle_price_lots,
                    ),
                    self.item_at(now_ts, oracle_price_lots, i).rank(oracle_price_lots),
                ),
            forall|p: int|
                self.cursor_at(oracle_price_lots, n).1 <= p < self.tree(
                    BookSideOrderTree::OraclePegged,
                ).len() ==> !rank_goes_before(
                    self.side,
                    node_rank(
                        BookSideOrderTree::OraclePegged,
                        #[trigger] self.tree(BookSideOrderTree::OraclePegged)[p],
                        oracle_price_lots,
                    ),
                    self.item_at(now_ts, oracle_price_lots, i).rank(oracle_price_lots),
                ),
        decreases n,
    {
        let fixed = self.tree(BookSideOrderTree::Fixed);
        let pegged = self.tree(BookSideOrderTree::OraclePegged);
        self.lemma_cursor_bounds(oracle_price_lots, (n - 1) as nat);
        self.lemma_cursor_bounds(oracle_price_lots, n);
        if n - 1 > i {
            self.lemma_taken_before_rest(now_ts, oracle_price_lots, i, (n - 1) as nat);
        } else {
            let (fi, pi) = self.cursor_at(oracle_price_lots, i as nat);
            assert forall|f: int| fi < f < fixed.len() implies rank_goes_before(
                self.side,
                node_rank(BookSideOrderTree::Fixed, fixed[fi], oracle_price_lots),
                node_rank(BookSideOrderTree::Fixed, #[trigger] fixed[f], oracle_price_lots),
            ) by {
                self.lemma_tree_sorted_by_rank(BookSideOrderTree::Fixed, oracle_price_lots, fi, f);
            }
            assert forall|p: int| pi < p < pegged.len() implies rank_goes_before(
                self.side,
                node_rank(BookSideOrderTree::OraclePegged, pegged[pi], oracle_price_lots),
                node_rank(BookSideOrderTree::OraclePegged, #[trigger] pegged[p], oracle_price_lots),
            ) by {
                self.lemma_tree_sorted_by_rank(
                    BookSideOrderTree::OraclePegged,
                    oracle_price_lots,
                    pi,
                    p,
                );
            }
        }
    }

    /// The traversal yields the orders by rank: no order ranks before one
    /// that was yielded earlier.
    pub proof fn lemma_ordered_by_rank(self, now_ts: u64, oracle_price_lots: i64, i: int, j: int)
        requires
            self.wf(),
            0 <= i < j < self.len(),
        ensures
            !rank_goes_before(
                self.side,
                self.ordered(now_ts, oracle_price_lots)[j].rank(oracle_price_lots),
                self.ordered(now_ts, oracle_price_lots)[i].rank(oracle_price_lots),
            ),
    {
        self.lemma_taken_before_rest(now_ts, oracle_price_lots, i, j as nat);
        self.lemma_cursor_bounds(oracle_price_lots, j as nat);
        self.lemma_cursor_bounds(oracle_price_lots, (j + 1) as nat);
        let (fj, pj) = self.cursor_at(oracle_price_lots, j as nat);
        if self.fixed_is_next(oracle_price_lots, fj, pj) {
            assert(self.item_at(now_ts, oracle_price_lots, j).node == self.tree(
                BookSideOrderTree::Fixed,
            )[fj]);
        } else {
            assert(self.item_at(now_ts, oracle_price_lots, j).node == self.tree(
                BookSideOrderTree::OraclePegged,
            )[pj]);
        }
    }

    /// Price-time priority. Of two orders of a traversal the earlier one has
    /// the price that is at least as good: as high for bids, as low for asks.
    /// Where both have the same price, the earlier one has the lower sequence
    /// number, or the same. The price that a valid item carries is its exact
    /// price.
    pub proof fn lemma_price_time_priority(
        self,
        now_ts: u64,
        oracle_price_lots: i64,
        i: int,
        j: int,
    )
        requires
            self.wf(),
            0 <= i < j < self.len(),
        ensures
            ({
                let a = self.ordered(now_ts, oracle_price_lots)[i];
                let b = self.ordered(now_ts, oracle_price_lots)[j];
                let pa = node_price(a.handle.order_tree, a.node, oracle_price_lots);
                let pb = node_price(b.handle.order_tree, b.node, oracle_price_lots);
                &&& !self.side.price_better(pb, pa)
                &&& pa == pb ==> key_seq_num(self.side, a.node.key) <= key_seq_num(
                    self.side,
                    b.node.key,
                )
                &&& a.spec_is_valid() ==> a.price_lots == pa
                &&& b.spec_is_valid() ==> b.price_lots == pb
            }),
    {
        self.lemma_ordered_by_rank(now_ts, oracle_price_lots, i, j);
        self.lemma_item_is_resting_order(now_ts, oracle_price_lots, i);
        self.lemma_item_is_resting_order(now_ts, oracle_price_lots, j);
    }

    /// Every item of a traversal is a resting order of the side, found where
    /// its handle says, with the state and price of that order.
    pub proof fn lemma_item_is_resting_order(self, now_ts: u64, oracle_price_lots: i64, n: int)
        requires
            self.wf(),
            0 <= n < self.len(),
        ensures
            ({
                let item = self.ordered(now_ts, oracle_price_lots)[n];
                let t = item.handle.order_tree;
                &&& 0 <= item.handle.node < self.tree(t).len()
                &&& item.node == self.tree(t)[item.handle.node as int]
                &&& leaf_ok(t, item.node)
                &&& item == make_item(
                    self.side,
                    t,
                    item.handle.node as int,
                    item.node,
                    now_ts,
                    oracle_price_lots,
                )
                &&& item.spec_is_valid() ==> 1 <= item.price_lots && item.price_lots == node_price(
                    t,
                    item.node,
                    oracle_price_lots,
                ) && !item.node.spec_is_expired(now_ts)
            }),
    {
        self.lemma_cursor_bounds(oracle_price_lots, n as nat);
        self.lemma_cursor_bounds(oracle_price_lots, (n + 1) as nat);
    }
}

impl BookSideView {
    /// The worst valid resting order of the side: the last valid one in the
    /// order of traversal.
    pub open spec fn worst(self, now_ts: u64, oracle_price_lots: i64) -> Option<BookSideIterItem> {
        match last_valid(self.ordered(now_ts, oracle_price_lots), self.len()) {
            Some(i) => Some(self.ordered(now_ts, oracle_price_lots)[i]),
            None => None,
        }
    }

    /// The price of the best valid resting order of the side: the first
    /// valid one in the order of traversal.
    pub open spec fn best_price(self, now_ts: u64, oracle_price_lots: i64) -> Option<i64> {
        match first_valid(self.ordered(now_ts, oracle_price_lots), 0) {
            Some(i) => Some(self.ordered(now_ts, oracle_price_lots)[i].price_lots),
            None => None,
        }
    }

    /// The side without the order that the traversal item `item` stands for.
    pub open spec fn without_item(self, item: BookSideIterItem) -> BookSideView {
        self.with_tree(
            item.handle.order_tree,
            self.tree(item.handle.order_tree).remove(item.handle.node as int),
        )
    }
}

impl BookSide {
    /// All resting orders of the side in the order of traversal.
    pub open spec fn ordered(&self, now_ts: u64, oracle_price_lots: i64) -> Seq<BookSideIterItem> {
        self@.ordered(now_ts, oracle_price_lots)
    }

    /// The worst valid resting order of the side: the last valid one in the
    /// order of traversal. Nothing if no order is valid.
    pub fn worst(&self, now_ts: u64, oracle_price_lots: i64) -> (r: Option<BookSideIterItem>)
        requires
            self.wf(),
        ensures
            r == self@.worst(now_ts, oracle_price_lots),
    {
        let mut it = self.iter_all_including_invalid(now_ts, oracle_price_lots);
        let mut found: Option<BookSideIterItem> = None;
        let ghost items = self.ordered(now_ts, oracle_price_lots);
        loop
            invariant
                self.wf(),
                it.wf(self),
                it.now_ts == now_ts,
                it.oracle_price_lots == oracle_price_lots,
                items == self.ordered(now_ts, oracle_price_lots),
                match last_valid(items, it.position()) {
                    Some(i) => found == Some(items[i]),
                    None => found.is_none(),
                },
            ensures
                it.position() == self.spec_len(),
                match last_valid(items, self.spec_len()) {
                    Some(i) => found == Some(items[i]),
                    None => found.is_none(),
                },
            decreases self.spec_len() - it.position(),
        {
            match it.next(self) {
                Some(item) => {
                    if item.is_valid() {
                        found = Some(item);
                    }
                },
                None => {
                    break ;
                },
            }
        }
        found
    }

    /// The price of the best valid resting order of the side: the first
    /// valid one in the order of traversal. Nothing if no order is valid.
    pub fn best_price(&self, now_ts: u64, oracle_price_lots: i64) -> (r: Option<i64>)
        requires
            self.wf(),
        ensures
            r == self@.best_price(now_ts, oracle_price_lots),
    {
        let mut it = self.iter_all_including_invalid(now_ts, oracle_price_lots);
        let ghost items = self.ordered(now_ts, oracle_price_lots);
        loop
            invariant
                self.wf(),
                it.wf(self),
                it.now_ts == now_ts,
                it.oracle_price_lots == oracle_price_lots,
                items == self.ordered(now_ts, oracle_price_lots),
                first_valid(items, 0) == first_valid(items, it.position() as int),
            decreases self.spec_len() - it.position(),
        {
            match it.next(self) {
                Some(item) => {
                    if item.is_valid() {
                        return Some(item.price_lots);
                    }
                },
                None => {
                    return None;
                },
            }
        }
    }

    /// Removes the worst valid resting order of the side and returns it with
    /// its price. Returns nothing, with the store unchanged, if no order is
    /// valid.
    pub fn remove_worst(&mut self, now_ts: u64, oracle_price_lots: i64) -> (r: Option<
        (LeafNode, i64),
    >)
        requires
            old(self).wf(),
        ensures
            final(self).wf(),
            final(self).spec_side() == old(self).spec_side(),
            final(self).spec_capacity() == old(self).spec_capacity(),
            match old(self)@.worst(now_ts, oracle_price_lots) {
                Some(item) => r == Some((item.node, item.price_lots)) && final(self)@ == old(
                    self,
                )@.without_item(item),
                None => r.is_none() && final(self)@ == old(self)@,
            },
    {
        proof {
            lemma_last_valid_in_range(
                self.ordered(now_ts, oracle_price_lots),
                self.spec_len(),
            );
        }
        match self.worst(now_ts, oracle_price_lots) {
            Some(item) => {
                proof {
                    let i = last_valid(
                        self.ordered(now_ts, oracle_price_lots),
                        self.spec_len(),
                    ).unwrap();
                    self@.lemma_item_is_resting_order(now_ts, oracle_price_lots, i);
                }
                let node = self.remove_at(item.handle.order_tree, item.handle.node);
                Some((node, item.price_lots))
            },
            None => None,
        }
    }

    /// Starts a traversal of all resting orders, valid or not, best first.
    pub fn iter_all_including_invalid(&self, now_ts: u64, oracle_price_lots: i64) -> (it:
        BookSideIter)
        ensures
            it.wf(self),
            it.position() == 0,
            it.now_ts == now_ts,
            it.oracle_price_lots == oracle_price_lots,
    {
        BookSideIter { fixed_pos: 0, pegged_pos: 0, now_ts, oracle_price_lots }
    }
}

/// A traversal of one side of the book in progress.
#[derive(Clone, Copy, Debug)]
pub struct BookSideIter {
    pub fixed_pos: usize,
    pub pegged_pos: usize,
    pub now_ts: u64,
    pub oracle_price_lots: i64,
}

impl BookSideIter {
    /// Number of orders that the traversal has yielded.
    pub open spec fn position(&self) -> nat {
        (self.fixed_pos + self.pegged_pos) as nat
    }

    /// The traversal is one of `book`.
    pub open spec fn wf(&self, book: &BookSide) -> bool {
        &&& self.position() <= book.spec_len()
        &&& book@.cursor_at(self.oracle_price_lots, self.position()) == (
            self.fixed_pos as int,
            self.pegged_pos as int,
        )
    }

    /// Yields the next order of `book` in the order of traversal, or nothing
    /// when every order has been yielded.
    pub fn next(&mut self, book: &BookSide) -> (r: Option<BookSideIterItem>)
        requires
            book.wf(),
            old(self).wf(book),
        ensures
            final(self).wf(book),
            final(self).now_ts == old(self).now_ts,
            final(self).oracle_price_lots == old(self).oracle_price_lots,
            old(self).position() >= book.spec_len() ==> r.is_none() && *final(self) == *old(self),
            old(self).position() < book.spec_len() ==> r == Some(
                book.ordered(old(self).now_ts, old(self).oracle_price_lots)[old(
                    self,
                ).position() as int],
            ) && final(self).position() == old(self).position() + 1,
    {
        proof {
            book@.lemma_cursor_bounds(self.oracle_price_lots, self.position());
        }
        let side = book.side();
        let fixed = book.node_at(BookSideOrderTree::Fixed, self.fixed_pos);
        let pegged = book.node_at(BookSideOrderTree::OraclePegged, self.pegged_pos);
        let take_fixed = match (fixed, pegged) {
            (None, None) => {
                return None;
            },
            (Some(_), None) => true,
            (None, Some(_)) => false,
            (Some(f), Some(p)) => {
                let pf = exact_price(BookSideOrderTree::Fixed, &f, self.oracle_price_lots);
                let pp = exact_price(BookSideOrderTree::OraclePegged, &p, self.oracle_price_lots);
                let lf = key_low_word(f.key);
                let lp = key_low_word(p.key);
                let pegged_before = match side {
                    Side::Bid => pp > pf || (pp == pf && lp > lf),
                    Side::Ask => pp < pf || (pp == pf && lp < lf),
                };
                !pegged_before
            },
        };
        assert(take_fixed == book@.fixed_is_next(
            self.oracle_price_lots,
            self.fixed_pos as int,
            self.pegged_pos as int,
        ));
        proof {
            book@.lemma_cursor_bounds(self.oracle_price_lots, self.position() + 1);
        }
        if take_fixed {
            let item = build_item(
                side,
                BookSideOrderTree::Fixed,
                self.fixed_pos,
                fixed.unwrap(),
                self.now_ts,
                self.oracle_price_lots,
            );
            self.fixed_pos += 1;
            Some(item)
        } else {
            let item = build_item(
                side,
                BookSideOrderTree::OraclePegged,
                self.pegged_pos,
                pegged.unwrap(),
                self.now_ts,
                self.oracle_price_lots,
            );
            self.pegged_pos += 1;
            Some(item)
        }
    }
}

} // verus!
