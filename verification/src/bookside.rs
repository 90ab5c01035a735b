//! One side of the book: a bounded store of resting orders.

use vstd::prelude::*;
use crate::error::Error;
use crate::key::key_price_data;
use crate::node::LeafNode;
use crate::side::{BookSideOrderTree, Side};

verus! {

/// Key `a` has priority over key `b` on `side`: the larger key for bids, the
/// smaller for asks.
pub open spec fn key_goes_before(side: Side, a: u128, b: u128) -> bool {
    match side {
        Side::Bid => a > b,
        Side::Ask => a < b,
    }
}

/// Every order of `s` has priority over those behind it.
pub open spec fn keys_sorted(side: Side, s: Seq<LeafNode>) -> bool {
    forall|i: int, j: int|
        #![trigger s[i], s[j]]
        0 <= i < j < s.len() ==> key_goes_before(side, s[i].key, s[j].key)
}

/// What a resting order must satisfy to be held in `tree`: a positive
/// quantity and, at a fixed price, a price word that is a price of at least
/// one lot.
pub open spec fn leaf_ok(tree: BookSideOrderTree, node: LeafNode) -> bool {
    &&& node.quantity >= 1
    &&& tree == BookSideOrderTree::Fixed ==> 1 <= key_price_data(node.key) <= i64::MAX
}

pub open spec fn leaves_ok(tree: BookSideOrderTree, s: Seq<LeafNode>) -> bool {
    forall|i: int| 0 <= i < s.len() ==> leaf_ok(tree, #[trigger] s[i])
}

/// Where an order with key `key` belongs in `s`: behind the orders that have
/// priority over it, counted from index `from`.
pub open spec fn insertion_index(side: Side, s: Seq<LeafNode>, key: u128, from: int) -> int
    decreases s.len() - from,
{
    if from < 0 || from >= s.len() || !key_goes_before(side, s[from].key, key) {
        from
    } else {
        insertion_index(side, s, key, from + 1)
    }
}

/// Where `insertion_index` points, every order in front has priority over
/// `key` and no order from there on has.
pub proof fn lemma_insertion_index(side: Side, s: Seq<LeafNode>, key: u128, from: int)
    requires
        0 <= from <= s.len(),
        keys_sorted(side, s),
    ensures
        from <= insertion_index(side, s, key, from) <= s.len(),
        forall|j: int|
            from <= j < insertion_index(side, s, key, from) ==> key_goes_before(
                side,
                (#[trigger] s[j]).key,
                key,
            ),
        forall|j: int|
            insertion_index(side, s, key, from) <= j < s.len() ==> !key_goes_before(
                side,
                (#[trigger] s[j]).key,
                key,
            ),
    decreases s.len() - from,
{
    if from < s.len() {
        if key_goes_before(side, s[from].key, key) {
            lemma_insertion_index(side, s, key, from + 1);
        } else {
            assert forall|j: int| from <= j < s.len() implies !key_goes_before(
                side,
                (#[trigger] s[j]).key,
                key,
            ) by {
                if j > from {
                    assert(key_goes_before(side, s[from].key, s[j].key));
                }
            }
        }
    }
}

/// A collection in priority order stays in priority order when an order
/// with a new key is put where `insertion_index` points.
pub proof fn lemma_insert_keeps_sorted(side: Side, s: Seq<LeafNode>, leaf: LeafNode)
    requires
        keys_sorted(side, s),
        !has_key(s, leaf.key),
    ensures
        0 <= insertion_index(side, s, leaf.key, 0) <= s.len(),
        keys_sorted(side, s.insert(insertion_index(side, s, leaf.key, 0), leaf)),
{
    lemma_insertion_index(side, s, leaf.key, 0);
    let pos = insertion_index(side, s, leaf.key, 0);
    let t = s.insert(pos, leaf);
    assert forall|i: int, j: int| 0 <= i < j < t.len() implies key_goes_before(
        side,
        #[trigger] t[i].key,
        #[trigger] t[j].key,
    ) by {
        if j < pos {
            assert(t[i] == s[i] && t[j] == s[j]);
        } else if j == pos {
            assert(t[i] == s[i]);
        } else if i < pos {
            assert(t[i] == s[i] && t[j] == s[j - 1]);
        } else if i == pos {
            assert(t[j] == s[j - 1]);
            assert(s[j - 1].key != leaf.key);
        } else {
            assert(t[i] == s[i - 1] && t[j] == s[j - 1]);
        }
    }
}

/// Some order of `s` has the key `key`.
pub open spec fn has_key(s: Seq<LeafNode>, key: u128) -> bool {
    exists|i: int| 0 <= i < s.len() && (#[trigger] s[i]).key == key
}

/// Where the order with key `key` stands in `s`, if there is one.
pub open spec fn key_position(s: Seq<LeafNode>, key: u128) -> int {
    choose|i: int| 0 <= i < s.len() && (#[trigger] s[i]).key == key
}

/// In a sorted sequence a key occurs at most once.
pub proof fn lemma_key_position_unique(side: Side, s: Seq<LeafNode>, i: int)
    requires
        keys_sorted(side, s),
        0 <= i < s.len(),
    ensures
        has_key(s, s[i].key),
        key_position(s, s[i].key) == i,
{
    let key = s[i].key;
    assert(has_key(s, key));
    let j = key_position(s, key);
    if j < i {
        assert(key_goes_before(side, s[j].key, s[i].key));
    } else if i < j {
        assert(key_goes_before(side, s[i].key, s[j].key));
    }
}

pub fn key_before(side: Side, a: u128, b: u128) -> (r: bool)
    ensures
        r == key_goes_before(side, a, b),
{
    match side {
        Side::Bid => a > b,
        Side::Ask => a < b,
    }
}

/// Among the first `n` orders of `s`, the index of the expired order with
/// the earliest expiry, the one nearest the front where several share it;
/// nothing if none of them is expired at `now_ts`.
pub open spec fn earliest_expired(s: Seq<LeafNode>, now_ts: u64, n: nat) -> Option<int>
    decreases n,
{
    if n == 0 {
        None
    } else {
        let prev = earliest_expired(s, now_ts, (n - 1) as nat);
        let i = n - 1;
        if s[i].spec_is_expired(now_ts) && (prev.is_none() || s[i].spec_expiry()
            < s[prev.unwrap()].spec_expiry()) {
            Some(i)
        } else {
            prev
        }
    }
}

/// What `earliest_expired` finds is an expired order, no expired order among
/// the first `n` expires before it, and it finds one whenever there is one.
pub proof fn lemma_earliest_expired(s: Seq<LeafNode>, now_ts: u64, n: nat)
    requires
        n <= s.len(),
    ensures
        match earliest_expired(s, now_ts, n) {
            Some(i) => 0 <= i < n && s[i].spec_is_expired(now_ts) && forall|j: int|
                0 <= j < n && (#[trigger] s[j]).spec_is_expired(now_ts) ==> s[i].spec_expiry()
                    <= s[j].spec_expiry(),
            None => forall|j: int| 0 <= j < n ==> !(#[trigger] s[j]).spec_is_expired(now_ts),
        },
    decreases n,
{
    if n > 0 {
        lemma_earliest_expired(s, now_ts, (n - 1) as nat);
    }
}

/// The mathematical value of a [`BookSide`].
#[verifier::ext_equal]
pub struct BookSideView {
    pub side: Side,
    /// Most resting orders that the side holds.
    pub capacity: nat,
    /// The orders at a fixed price, best first.
    pub fixed: Seq<LeafNode>,
    /// The orders pegged to the oracle price, best first.
    pub oracle_pegged: Seq<LeafNode>,
}

impl BookSideView {
    /// The orders of one collection, best first.
    pub open spec fn tree(self, t: BookSideOrderTree) -> Seq<LeafNode> {
        match t {
            BookSideOrderTree::Fixed => self.fixed,
            BookSideOrderTree::OraclePegged => self.oracle_pegged,
        }
    }

    /// The side with `s` as its collection `t`.
    pub open spec fn with_tree(self, t: BookSideOrderTree, s: Seq<LeafNode>) -> BookSideView {
        match t {
            BookSideOrderTree::Fixed => BookSideView { fixed: s, ..self },
            BookSideOrderTree::OraclePegged => BookSideView { oracle_pegged: s, ..self },
        }
    }

    /// Number of resting orders on this side.
    pub open spec fn len(self) -> nat {
        self.fixed.len() + self.oracle_pegged.len()
    }

    /// The side after one expired order of collection `t` was removed to
    /// make room, and that order: the one that expired first, the one nearest
    /// the front where several expired at once. The side as it is if no order
    /// of `t` is expired.
    pub open spec fn without_one_expired(self, t: BookSideOrderTree, now_ts: u64) -> (
        BookSideView,
        Option<LeafNode>,
    ) {
        match earliest_expired(self.tree(t), now_ts, self.tree(t).len()) {
            Some(i) => (self.with_tree(t, self.tree(t).remove(i)), Some(self.tree(t)[i])),
            None => (self, None),
        }
    }

    /// The store's invariant: never more orders than the capacity, each
    /// collection in strict priority order, every order well formed.
    pub open spec fn wf(self) -> bool {
        &&& self.len() <= self.capacity
        &&& self.capacity <= usize::MAX
        &&& keys_sorted(self.side, self.fixed)
        &&& keys_sorted(self.side, self.oracle_pegged)
        &&& leaves_ok(BookSideOrderTree::Fixed, self.fixed)
        &&& leaves_ok(BookSideOrderTree::OraclePegged, self.oracle_pegged)
    }
}

/// One side of the book: a bounded store of resting orders in two
/// collections, each kept in priority order.
#[derive(Clone, Debug)]
pub struct BookSide {
    side: Side,
    capacity: usize,
    fixed: Vec<LeafNode>,
    oracle_pegged: Vec<LeafNode>,
}

impl View for BookSide {
    type V = BookSideView;

    closed spec fn view(&self) -> BookSideView {
        BookSideView {
            side: self.side,
            capacity: self.capacity as nat,
            fixed: self.fixed@,
            oracle_pegged: self.oracle_pegged@,
        }
    }
}

impl BookSide {
    pub open spec fn spec_side(&self) -> Side {
        self@.side
    }

    pub open spec fn spec_capacity(&self) -> nat {
        self@.capacity
    }

    /// The orders of one collection, best first.
    pub open spec fn tree(&self, t: BookSideOrderTree) -> Seq<LeafNode> {
        self@.tree(t)
    }

    /// Number of resting orders on this side.
    pub open spec fn spec_len(&self) -> nat {
        self@.len()
    }

    /// The store's invariant.
    pub open spec fn wf(&self) -> bool {
        self@.wf()
    }

    /// An empty store for `side` that holds at most `capacity` orders.
    pub fn new(side: Side, capacity: usize) -> (book: BookSide)
        ensures
            book.wf(),
            book.spec_side() == side,
            book.spec_capacity() == capacity,
            book.tree(BookSideOrderTree::Fixed) == Seq::<LeafNode>::empty(),
            book.tree(BookSideOrderTree::OraclePegged) == Seq::<LeafNode>::empty(),
    {
        BookSide { side, capacity, fixed: Vec::new(), oracle_pegged: Vec::new() }
    }

    /// Sets the side that the store is for. No order is touched. The
    /// orders of a store stand in the priority order of its side, so a store
    /// that holds orders stays well formed only if its side stays the same.
    pub fn set_side(&mut self, side: Side)
        ensures
            final(self)@ == (BookSideView { side, ..old(self)@ }),
            old(self).wf() && (old(self).spec_side() == side || old(self).spec_len() == 0)
                ==> final(self).wf(),
    {
        self.side = side;
    }

    #[verifier::when_used_as_spec(spec_side)]
    pub fn side(&self) -> (r: Side)
        ensures
            r == self.spec_side(),
    {
        self.side
    }

    pub fn capacity(&self) -> (r: usize)
        ensures
            r == self.spec_capacity(),
    {
        self.capacity
    }

    /// Number of resting orders on this side.
    pub fn len(&self) -> (r: usize)
        requires
            self.wf(),
        ensures
            r == self.spec_len(),
    {
        self.fixed.len() + self.oracle_pegged.len()
    }

    /// Number of resting orders in one collection.
    pub fn tree_len(&self, t: BookSideOrderTree) -> (r: usize)
        ensures
            r == self.tree(t).len(),
    {
        match t {
            BookSideOrderTree::Fixed => self.fixed.len(),
            BookSideOrderTree::OraclePegged => self.oracle_pegged.len(),
        }
    }

    pub fn is_empty(&self) -> (r: bool)
        ensures
            r == (self.spec_len() == 0),
    {
        self.fixed.len() == 0 && self.oracle_pegged.len() == 0
    }

    /// The store holds as many orders as its capacity allows.
    pub fn is_full(&self) -> (r: bool)
        requires
            self.wf(),
        ensures
            r == (self.spec_len() >= self.spec_capacity()),
    {
        self.fixed.len() + self.oracle_pegged.len() >= self.capacity
    }

    /// The order at `index` of collection `t`, counted from the best.
    pub fn node_at(&self, t: BookSideOrderTree, index: usize) -> (r: Option<LeafNode>)
        ensures
            index < self.tree(t).len() ==> r == Some(self.tree(t)[index as int]),
            index >= self.tree(t).len() ==> r.is_none(),
    {
        match t {
            BookSideOrderTree::Fixed => {
                if index < self.fixed.len() {
                    Some(self.fixed[index])
                } else {
                    None
                }
            },
            BookSideOrderTree::OraclePegged => {
                if index < self.oracle_pegged.len() {
                    Some(self.oracle_pegged[index])
                } else {
                    None
                }
            },
        }
    }

    /// Index of the order with key `key` in `v`, or `v.len()` if there is none.
    fn find_key(v: &Vec<LeafNode>, key: u128) -> (r: usize)
        ensures
            r <= v@.len(),
            r < v@.len() ==> v@[r as int].key == key,
            r == v@.len() ==> !has_key(v@, key),
    {
        let mut i: usize = 0;
        while i < v.len()
            invariant
                i <= v@.len(),
                forall|j: int| 0 <= j < i ==> (#[trigger] v@[j]).key != key,
            decreases v@.len() - i,
        {
            if v[i].key == key {
                return i;
            }
            i += 1;
        }
        i
    }

    /// Whether collection `t` holds an order with key `key`.
    pub fn contains_key(&self, t: BookSideOrderTree, key: u128) -> (r: bool)
        ensures
            r == has_key(self.tree(t), key),
    {
        match t {
            BookSideOrderTree::Fixed => {
                let i = Self::find_key(&self.fixed, key);
                i < self.fixed.len()
            },
            BookSideOrderTree::OraclePegged => {
                let i = Self::find_key(&self.oracle_pegged, key);
                i < self.oracle_pegged.len()
            },
        }
    }

    /// Index in collection `t` of the order with key `key`, if there is one.
    pub fn position_of_key(&self, t: BookSideOrderTree, key: u128) -> (r: Option<usize>)
        requires
            self.wf(),
        ensures
            has_key(self.tree(t), key) ==> r.is_some() && r.unwrap() as int == key_position(
                self.tree(t),
                key,
            ) && r.unwrap() < self.tree(t).len(),
            !has_key(self.tree(t), key) ==> r.is_none(),
    {
        let index = match t {
            BookSideOrderTree::Fixed => Self::find_key(&self.fixed, key),
            BookSideOrderTree::OraclePegged => Self::find_key(&self.oracle_pegged, key),
        };
        if index < self.tree_len(t) {
            proof {
                lemma_key_position_unique(self.spec_side(), self.tree(t), index as int);
            }
            Some(index)
        } else {
            None
        }
    }

    /// Inserts `leaf` into `v` at its place in priority order.
    fn insert_sorted(side: Side, v: &mut Vec<LeafNode>, leaf: LeafNode) -> (pos: usize)
        requires
            keys_sorted(side, old(v)@),
            !has_key(old(v)@, leaf.key),
        ensures
            pos <= old(v)@.len(),
            pos == insertion_index(side, old(v)@, leaf.key, 0),
            final(v)@ == old(v)@.insert(pos as int, leaf),
            keys_sorted(side, final(v)@),
    {
        let mut pos: usize = 0;
        while pos < v.len() && key_before(side, v[pos].key, leaf.key)
            invariant
                pos <= v@.len(),
                v@ == old(v)@,
                insertion_index(side, v@, leaf.key, 0) == insertion_index(
                    side,
                    v@,
                    leaf.key,
                    pos as int,
                ),
            decreases v@.len() - pos,
        {
            pos += 1;
        }
        proof {
            lemma_insert_keeps_sorted(side, v@, leaf);
        }
        v.insert(pos, leaf);
        pos
    }

    /// Adds a resting order to collection `t`.
    ///
    /// The order is refused with `InvariantViolation` if it is malformed or
    /// its key is already in the collection, and with `CapacityExceeded` if
    /// the store is full. Otherwise it is put at its place in priority order,
    /// and that place is returned.
    pub fn insert_leaf(&mut self, t: BookSideOrderTree, new_leaf: &LeafNode) -> (r: Result<
        usize,
        Error,
    >)
        requires
            old(self).wf(),
        ensures
            final(self).wf(),
            final(self).spec_side() == old(self).spec_side(),
            final(self).spec_capacity() == old(self).spec_capacity(),
            final(self).tree(t.other()) == old(self).tree(t.other()),
            !leaf_ok(t, *new_leaf) || has_key(old(self).tree(t), new_leaf.key) ==> r == Err::<
                usize,
                Error,
            >(Error::InvariantViolation),
            leaf_ok(t, *new_leaf) && !has_key(old(self).tree(t), new_leaf.key) && old(
                self,
            ).spec_len() >= old(self).spec_capacity() ==> r == Err::<usize, Error>(
                Error::CapacityExceeded,
            ),
            r.is_err() ==> final(self).tree(t) == old(self).tree(t),
            leaf_ok(t, *new_leaf) && !has_key(old(self).tree(t), new_leaf.key) && old(
                self,
            ).spec_len() < old(self).spec_capacity() ==> r.is_ok(),
            r matches Ok(pos) ==> pos == insertion_index(
                old(self).spec_side(),
                old(self).tree(t),
                new_leaf.key,
                0,
            ) && pos <= old(self).tree(t).len() && final(self).tree(t) == old(self).tree(t).insert(
                pos as int,
                *new_leaf,
            ),
    {
        let price_data = new_leaf.price_data();
        let malformed = new_leaf.quantity < 1 || (t == BookSideOrderTree::Fixed && (price_data < 1
            || price_data > i64::MAX as u64));
        if malformed || self.contains_key(t, new_leaf.key) {
            return Err(Error::InvariantViolation);
        }
        if self.is_full() {
            return Err(Error::CapacityExceeded);
        }
        let pos = match t {
            BookSideOrderTree::Fixed => Self::insert_sorted(self.side, &mut self.fixed, *new_leaf),
            BookSideOrderTree::OraclePegged => Self::insert_sorted(
                self.side,
                &mut self.oracle_pegged,
                *new_leaf,
            ),
        };
        Ok(pos)
    }

    /// Removes the order at `index` of collection `t`.
    pub(crate) fn remove_at(&mut self, t: BookSideOrderTree, index: usize) -> (node: LeafNode)
        requires
            old(self).wf(),
            index < old(self).tree(t).len(),
        ensures
            final(self).wf(),
            final(self).spec_side() == old(self).spec_side(),
            final(self).spec_capacity() == old(self).spec_capacity(),
            final(self).tree(t.other()) == old(self).tree(t.other()),
            node == old(self).tree(t)[index as int],
            final(self).tree(t) == old(self).tree(t).remove(index as int),
    {
        match t {
            BookSideOrderTree::Fixed => self.fixed.remove(index),
            BookSideOrderTree::OraclePegged => self.oracle_pegged.remove(index),
        }
    }

    /// Removes the order with key `search_key` from collection `t` and
    /// returns it; returns nothing, and changes nothing, if there is none.
    pub fn remove_by_key(&mut self, t: BookSideOrderTree, search_key: u128) -> (r: Option<
        LeafNode,
    >)
        requires
            old(self).wf(),
        ensures
            final(self).wf(),
            final(self).spec_side() == old(self).spec_side(),
            final(self).spec_capacity() == old(self).spec_capacity(),
            final(self).tree(t.other()) == old(self).tree(t.other()),
            has_key(old(self).tree(t), search_key) ==> r == Some(
                old(self).tree(t)[key_position(old(self).tree(t), search_key)],
            ) && final(self).tree(t) == old(self).tree(t).remove(
                key_position(old(self).tree(t), search_key),
            ),
            !has_key(old(self).tree(t), search_key) ==> r.is_none() && final(self).tree(t) == old(
                self,
            ).tree(t),
    {
        let index = match t {
            BookSideOrderTree::Fixed => Self::find_key(&self.fixed, search_key),
            BookSideOrderTree::OraclePegged => Self::find_key(&self.oracle_pegged, search_key),
        };
        if index < self.tree_len(t) {
            proof {
                lemma_key_position_unique(self.spec_side(), self.tree(t), index as int);
            }
            Some(self.remove_at(t, index))
        } else {
            None
        }
    }

    fn find_expired(v: &Vec<LeafNode>, now_ts: u64) -> (r: Option<usize>)
        ensures
            match earliest_expired(v@, now_ts, v@.len()) {
                Some(i) => r == Some(i as usize) && 0 <= i < v@.len(),
                None => r.is_none(),
            },
    {
        let mut best: Option<usize> = None;
        let mut i: usize = 0;
        while i < v.len()
            invariant
                i <= v@.len(),
                match earliest_expired(v@, now_ts, i as nat) {
                    Some(b) => best == Some(b as usize) && 0 <= b < i,
                    None => best.is_none(),
                },
            decreases v@.len() - i,
        {
            if v[i].is_expired(now_ts) {
                let better = match best {
                    Some(b) => v[i].expiry() < v[b].expiry(),
                    None => true,
                };
                if better {
                    best = Some(i);
                }
            }
            i += 1;
        }
        best
    }

    /// Whether collection `t` holds an order that is expired at `now_ts`.
    pub fn has_expired(&self, t: BookSideOrderTree, now_ts: u64) -> (r: bool)
        ensures
            r == earliest_expired(self.tree(t), now_ts, self.tree(t).len()).is_some(),
    {
        let first = match t {
            BookSideOrderTree::Fixed => Self::find_expired(&self.fixed, now_ts),
            BookSideOrderTree::OraclePegged => Self::find_expired(&self.oracle_pegged, now_ts),
        };
        first.is_some()
    }

    /// Removes one expired order of collection `t` to make room: the one
    /// that expired first. Returns the removed order, or nothing, with the
    /// store unchanged, if no order of `t` is expired.
    pub fn remove_one_expired(&mut self, t: BookSideOrderTree, now_ts: u64) -> (r: Option<
        LeafNode,
    >)
        requires
            old(self).wf(),
        ensures
            final(self).wf(),
            final(self).spec_side() == old(self).spec_side(),
            final(self).spec_capacity() == old(self).spec_capacity(),
            final(self)@ == old(self)@.without_one_expired(t, now_ts).0,
            r == old(self)@.without_one_expired(t, now_ts).1,
    {
        let first = match t {
            BookSideOrderTree::Fixed => Self::find_expired(&self.fixed, now_ts),
            BookSideOrderTree::OraclePegged => Self::find_expired(&self.oracle_pegged, now_ts),
        };
        match first {
            Some(i) => Some(self.remove_at(t, i)),
            None => None,
        }
    }

    /// Puts `kept` in the place of the first `visited` orders of collection
    /// `t`.
    pub(crate) fn replace_front(
        &mut self,
        t: BookSideOrderTree,
        visited: usize,
        kept: Vec<LeafNode>,
    )
        requires
            old(self).wf(),
            visited <= old(self).tree(t).len(),
            kept@.len() <= visited,
            keys_sorted(old(self).spec_side(), kept@ + old(self).tree(t).skip(visited as int)),
            leaves_ok(t, kept@),
        ensures
            final(self).wf(),
            final(self).spec_side() == old(self).spec_side(),
            final(self).spec_capacity() == old(self).spec_capacity(),
            final(self).tree(t.other()) == old(self).tree(t.other()),
            final(self).tree(t) == kept@ + old(self).tree(t).skip(visited as int),
    {
        let mut front = kept;
        match t {
            BookSideOrderTree::Fixed => {
                let mut rest = self.fixed.split_off(visited);
                front.append(&mut rest);
                self.fixed = front;
            },
            BookSideOrderTree::OraclePegged => {
                let mut rest = self.oracle_pegged.split_off(visited);
                front.append(&mut rest);
                self.oracle_pegged = front;
            },
        }
    }
}

} // verus!
