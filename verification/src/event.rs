//! Settlement events and the queue that holds them until they are settled.

use vstd::prelude::*;
use std::collections::VecDeque;
use crate::fixed_point::I80F48;
use crate::node::AccountId;
use crate::side::Side;

verus! {

/// A match between a resting order (the maker) and an incoming order (the
/// taker).
#[derive(Clone, Copy, Debug, PartialEq, Eq, Structural)]
pub struct FillEvent {
    pub taker_side: Side,
    /// The maker's order was filled completely and left the book.
    pub maker_out: bool,
    pub maker_slot: u8,
    pub timestamp: u64,
    pub seq_num: u64,
    pub maker: AccountId,
    pub maker_client_order_id: u64,
    /// The market's maker fee rate when the match happened.
    pub maker_fee: I80F48,
    /// Time at which the maker's order was placed.
    pub maker_timestamp: u64,
    pub taker: AccountId,
    pub taker_client_order_id: u64,
    /// The market's taker fee rate when the match happened.
    pub taker_fee: I80F48,
    /// Price of the match in lots: the maker's price.
    pub price: i64,
    /// Matched base lots.
    pub quantity: i64,
}

impl FillEvent {
    #[allow(clippy::too_many_arguments)]
    pub fn new(
        taker_side: Side,
        maker_out: bool,
        maker_slot: u8,
        timestamp: u64,
        seq_num: u64,
        maker: AccountId,
        maker_client_order_id: u64,
        maker_fee: I80F48,
        maker_timestamp: u64,
        taker: AccountId,
        taker_client_order_id: u64,
        taker_fee: I80F48,
        price: i64,
        quantity: i64,
    ) -> (event: FillEvent)
        ensures
            event == (FillEvent {
                taker_side,
                maker_out,
                maker_slot,
                timestamp,
                seq_num,
                maker,
                maker_client_order_id,
                maker_fee,
                maker_timestamp,
                taker,
                taker_client_order_id,
                taker_fee,
                price,
                quantity,
            }),
    {
        FillEvent {
            taker_side,
            maker_out,
            maker_slot,
            timestamp,
            seq_num,
            maker,
            maker_client_order_id,
            maker_fee,
            maker_timestamp,
            taker,
            taker_client_order_id,
            taker_fee,
            price,
            quantity,
        }
    }
}

/// A resting order left the book unmatched: it had expired or was evicted
/// to make room. `quantity` base lots go back to the owner.
#[derive(Clone, Copy, Debug, PartialEq, Eq, Structural)]
pub struct OutEvent {
    pub side: Side,
    pub owner_slot: u8,
    pub timestamp: u64,
    pub seq_num: u64,
    pub owner: AccountId,
    pub quantity: i64,
}

impl OutEvent {
    pub fn new(
        side: Side,
        owner_slot: u8,
        timestamp: u64,
        seq_num: u64,
        owner: AccountId,
        quantity: i64,
    ) -> (event: OutEvent)
        ensures
            event == (OutEvent { side, owner_slot, timestamp, seq_num, owner, quantity }),
    {
        OutEvent { side, owner_slot, timestamp, seq_num, owner, quantity }
    }
}

/// A settlement event.
#[derive(Clone, Copy, Debug, PartialEq, Eq, Structural)]
pub enum AnyEvent {
    Fill(FillEvent),
    Out(OutEvent),
}

impl AnyEvent {
    pub open spec fn spec_seq_num(&self) -> u64 {
        match self {
            AnyEvent::Fill(e) => e.seq_num,
            AnyEvent::Out(e) => e.seq_num,
        }
    }

    /// The sequence number that the event is stamped with.
    #[verifier::when_used_as_spec(spec_seq_num)]
    pub fn seq_num(&self) -> (r: u64)
        ensures
            r == self.spec_seq_num(),
    {
        match self {
            AnyEvent::Fill(e) => e.seq_num,
            AnyEvent::Out(e) => e.seq_num,
        }
    }
}

/// The events of `events` are numbered without a gap, the last one with the
/// number before `next`.
pub open spec fn gapless(events: Seq<AnyEvent>, next: u64) -> bool {
    forall|i: int|
        0 <= i < events.len() ==> (#[trigger] events[i]).spec_seq_num() == next - events.len() + i
}

/// The log of settlement events: a bounded queue that numbers what it takes
/// in. Events leave it at the front when they are settled.
#[derive(Clone, Debug)]
pub struct EventQueue {
    capacity: usize,
    seq_num: u64,
    buf: VecDeque<AnyEvent>,
}

impl EventQueue {
    /// The events that wait to be settled, oldest first.
    pub closed spec fn events(&self) -> Seq<AnyEvent> {
        self.buf@
    }

    pub closed spec fn spec_capacity(&self) -> nat {
        self.capacity as nat
    }

    /// The number that the next event must carry.
    pub closed spec fn spec_seq_num(&self) -> u64 {
        self.seq_num
    }

    /// The queue's invariant: never more events than the capacity, numbered
    /// without a gap up to the queue's counter.
    pub open spec fn wf(&self) -> bool {
        &&& self.events().len() <= self.spec_capacity()
        &&& self.events().len() <= self.spec_seq_num()
        &&& gapless(self.events(), self.spec_seq_num())
    }

    /// The queue can take in `n` more events.
    pub open spec fn spec_has_room(&self, n: nat) -> bool {
        self.events().len() + n <= self.spec_capacity() && self.spec_seq_num() + n <= u64::MAX
    }

    /// An empty queue for at most `capacity` events, numbering from zero.
    pub fn new(capacity: usize) -> (q: EventQueue)
        ensures
            q.wf(),
            q.spec_capacity() == capacity,
            q.spec_seq_num() == 0,
            q.events() == Seq::<AnyEvent>::empty(),
    {
        EventQueue { capacity, seq_num: 0, buf: VecDeque::new() }
    }

    pub fn capacity(&self) -> (r: usize)
        ensures
            r == self.spec_capacity(),
    {
        self.capacity
    }

    #[verifier::when_used_as_spec(spec_seq_num)]
    pub fn seq_num(&self) -> (r: u64)
        ensures
            r == self.spec_seq_num(),
    {
        self.seq_num
    }

    pub fn len(&self) -> (r: usize)
        ensures
            r == self.events().len(),
    {
        self.buf.len()
    }

    pub fn is_empty(&self) -> (r: bool)
        ensures
            r == (self.events().len() == 0),
    {
        self.buf.len() == 0
    }

    pub fn is_full(&self) -> (r: bool)
        ensures
            r == (self.events().len() >= self.spec_capacity()),
    {
        self.buf.len() >= self.capacity
    }

    pub fn has_room(&self, n: usize) -> (r: bool)
        requires
            self.wf(),
        ensures
            r == self.spec_has_room(n as nat),
    {
        n <= self.capacity - self.buf.len() && n as u64 <= u64::MAX - self.seq_num
    }

    /// The waiting event at `index`, counted from the oldest.
    pub fn get(&self, index: usize) -> (r: Option<AnyEvent>)
        ensures
            index < self.events().len() ==> r == Some(self.events()[index as int]),
            index >= self.events().len() ==> r.is_none(),
    {
        if index < self.buf.len() {
            Some(self.buf[index])
        } else {
            None
        }
    }

    /// Appends `event`. The event is handed back, and the queue left as it
    /// was, if the queue is full, if its counter is exhausted, or if the
    /// event does not carry the queue's next sequence number.
    pub fn push_back(&mut self, event: AnyEvent) -> (r: Result<(), AnyEvent>)
        requires
            old(self).wf(),
        ensures
            final(self).wf(),
            final(self).spec_capacity() == old(self).spec_capacity(),
            old(self).spec_has_room(1) && event.spec_seq_num() == old(self).spec_seq_num() ==> {
                &&& r.is_ok()
                &&& final(self).events() == old(self).events().push(event)
                &&& final(self).spec_seq_num() == old(self).spec_seq_num() + 1
            },
            !(old(self).spec_has_room(1) && event.spec_seq_num() == old(self).spec_seq_num()) ==> {
                &&& r == Err::<(), AnyEvent>(event)
                &&& final(self).events() == old(self).events()
                &&& final(self).spec_seq_num() == old(self).spec_seq_num()
            },
    {
        if self.buf.len() >= self.capacity || self.seq_num == u64::MAX || event.seq_num()
            != self.seq_num {
            return Err(event);
        }
        self.buf.push_back(event);
        self.seq_num = self.seq_num + 1;
        Ok(())
    }

    /// Takes the oldest waiting event out of the queue.
    pub fn pop_front(&mut self) -> (r: Option<AnyEvent>)
        requires
            old(self).wf(),
        ensures
            final(self).wf(),
            final(self).spec_capacity() == old(self).spec_capacity(),
            final(self).spec_seq_num() == old(self).spec_seq_num(),
            old(self).events().len() > 0 ==> r == Some(old(self).events()[0])
                && final(self).events() == old(self).events().skip(1),
            old(self).events().len() == 0 ==> r.is_none()
                && final(self).events() == old(self).events(),
    {
        let event = self.buf.pop_front();
        assert(old(self).buf@.subrange(1, old(self).buf@.len() as int) =~= old(self).buf@.skip(
            1,
        ));
        event
    }
}

} // verus!
