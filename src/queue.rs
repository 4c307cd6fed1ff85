use vstd::prelude::*;

use crate::error::EngineError;

verus! {

/// Which side of the book an order rests on, or which side a taker took.
#[derive(Clone, Copy, Debug, PartialEq, Eq, Structural)]
pub enum Side {
    Bid,
    Ask,
}

#[derive(Clone, Copy, Debug, PartialEq, Eq, Structural)]
pub enum EventKind {
    /// A maker order traded with a taker.
    Fill,
    /// An order left the book, or a taker's remainder was discarded.
    Out,
}

/// One result of matching, waiting to be settled.
#[derive(Clone, Copy, Debug, PartialEq, Eq, Structural)]
pub struct Event {
    pub kind: EventKind,
    pub market_index: usize,
    /// The resting order's owner (for `Out`: the owner of the order that left).
    pub maker: usize,
    /// The incoming order's owner.
    pub taker: usize,
    /// The side of the incoming order (for `Out`: the side of the order that left).
    pub taker_side: Side,
    /// The resting order's id (for `Out`: the id of the order that left).
    pub maker_order_id: u64,
    /// The price the fill traded at, in quote lots per base lot.
    pub price: u64,
    /// Filled base lots (for `Out`: the lots discarded).
    pub base_qty: u64,
    /// Filled quote lots: `base_qty * price` (zero for `Out`).
    pub quote_qty: u64,
}

/// A bounded first-in first-out queue of events. New events are refused,
/// never overwritten, when it is full.
pub struct EventQueue {
    pub events: Vec<Event>,
    pub capacity: usize,
    /// How many events were ever appended, modulo 2^64.
    pub seq_num: u64,
}

pub open spec fn seq_after(seq_num: u64, k: nat) -> u64 {
    ((seq_num + k) % 0x1_0000_0000_0000_0000) as u64
}

impl EventQueue {
    pub open spec fn wf(&self) -> bool {
        self.events@.len() <= self.capacity
    }

    /// The events waiting to be consumed, oldest first.
    pub open spec fn pending(&self) -> Seq<Event> {
        self.events@
    }

    pub fn new(capacity: usize) -> (r: EventQueue)
        ensures
            r.wf(),
            r.pending() == Seq::<Event>::empty(),
            r.capacity == capacity,
            r.seq_num == 0,
    {
        EventQueue { events: Vec::new(), capacity, seq_num: 0 }
    }

    pub fn len(&self) -> (r: usize)
        ensures
            r == self.pending().len(),
    {
        self.events.len()
    }

    /// How many more events the queue can take.
    pub fn free_space(&self) -> (r: usize)
        requires
            self.wf(),
        ensures
            r == self.capacity - self.pending().len(),
    {
        self.capacity - self.events.len()
    }

    /// Appends `events` in order, or fails with `EventQueueFull`, leaving
    /// the queue unchanged, when they do not all fit.
    pub fn push_all(&mut self, events: &Vec<Event>) -> (r: Result<(), EngineError>)
        requires
            old(self).wf(),
        ensures
            final(self).wf(),
            final(self).capacity == old(self).capacity,
            events@.len() > old(self).capacity - old(self).pending().len() ==> r == Err::<
                (),
                EngineError,
            >(EngineError::EventQueueFull) && final(self).pending() == old(self).pending()
                && final(self).seq_num == old(self).seq_num,
            events@.len() <= old(self).capacity - old(self).pending().len() ==> r is Ok
                && final(self).pending() == old(self).pending() + events@ && final(self).seq_num
                == seq_after(old(self).seq_num, events@.len()),
    {
        if events.len() > self.capacity - self.events.len() {
            return Err(EngineError::EventQueueFull);
        }
        let mut i: usize = 0;
        while i < events.len()
            invariant
                i <= events@.len(),
                self.capacity == old(self).capacity,
                self.events@ == old(self).events@ + events@.subrange(0, i as int),
                events@.len() <= old(self).capacity - old(self).events@.len(),
                old(self).events@.len() <= old(self).capacity,
                self.seq_num == seq_after(old(self).seq_num, i as nat),
            decreases events@.len() - i,
        {
            self.events.push(events[i]);
            self.seq_num = if self.seq_num == u64::MAX {
                0
            } else {
                self.seq_num + 1
            };
            proof {
                assert(events@.subrange(0, i + 1) =~= events@.subrange(0, i as int).push(events@[i as int]));
            }
            i = i + 1;
        }
        proof {
            assert(events@.subrange(0, events@.len() as int) =~= events@);
        }
        Ok(())
    }

    /// Removes and returns the oldest event, if any.
    pub fn pop_front(&mut self) -> (r: Option<Event>)
        requires
            old(self).wf(),
        ensures
            final(self).wf(),
            final(self).capacity == old(self).capacity,
            final(self).seq_num == old(self).seq_num,
            old(self).pending().len() == 0 ==> r is None && final(self).pending() == old(self).pending(),
            old(self).pending().len() > 0 ==> r == Some(old(self).pending()[0])
                && final(self).pending() == old(self).pending().drop_first(),
    {
        if self.events.len() == 0 {
            None
        } else {
            let e = self.events.remove(0);
            proof {
                assert(self.events@ =~= old(self).events@.drop_first());
            }
            Some(e)
        }
    }
}

} // verus!
