use vstd::prelude::*;

use crate::error::EngineError;
use crate::queue::Side;

verus! {

/// The largest order price, in quote lots per base lot.
pub const MAX_ORDER_PRICE: u64 = 4294967295;

/// The largest order quantity, in base lots.
pub const MAX_ORDER_QTY: u64 = 2147483647;

/// The whole number of lots in `native` units, any fraction of a lot
/// truncated, never rounded up. Fails with `InvalidLotSize` for a zero lot
/// size.
pub fn to_lots(native: u64, lot_size: u64) -> (r: Result<u64, EngineError>)
    ensures
        lot_size == 0 ==> r == Err::<u64, EngineError>(EngineError::InvalidLotSize),
        lot_size > 0 ==> r == Ok::<u64, EngineError>((native / lot_size) as u64),
        lot_size > 0 ==> r->Ok_0 * lot_size <= native < (r->Ok_0 + 1) * lot_size,
{
    if lot_size == 0 {
        return Err(EngineError::InvalidLotSize);
    }
    let lots = native / lot_size;
    assert(lots * lot_size <= native < (lots + 1) * lot_size) by (nonlinear_arith)
        requires
            lot_size > 0,
            lots == native as int / lot_size as int,
    ;
    Ok(lots)
}

/// A resting order. Its side is the side of the book that holds it.
#[derive(Clone, Copy, Debug, PartialEq, Eq, Structural)]
pub struct Order {
    /// The owning account's index.
    pub owner: usize,
    /// Unique, and increasing in submission order.
    pub order_id: u64,
    /// Quote lots per base lot.
    pub price: u64,
    /// Base lots still to fill.
    pub quantity: u64,
}

/// Both sides of one perpetual market's book, each kept in priority order:
/// best price first, and at equal prices the earlier order first.
pub struct OrderBook {
    pub bids: Vec<Order>,
    pub asks: Vec<Order>,
    /// The id the next submitted order receives.
    pub next_order_id: u64,
}

/// Whether `a` has strictly higher priority than `b` on `side`.
pub open spec fn precedes(side: Side, a: Order, b: Order) -> bool {
    match side {
        Side::Bid => a.price > b.price || (a.price == b.price && a.order_id < b.order_id),
        Side::Ask => a.price < b.price || (a.price == b.price && a.order_id < b.order_id),
    }
}

pub open spec fn order_wf(o: Order, next_order_id: u64) -> bool {
    &&& 1 <= o.price <= MAX_ORDER_PRICE
    &&& 1 <= o.quantity <= MAX_ORDER_QTY
    &&& o.order_id < next_order_id
}

/// Every order is well formed and the orders are in strict priority order.
pub open spec fn side_wf(side: Side, s: Seq<Order>, next_order_id: u64) -> bool {
    &&& forall|i: int| 0 <= i < s.len() ==> order_wf(#[trigger] s[i], next_order_id)
    &&& forall|i: int, j: int| 0 <= i < j < s.len() ==> precedes(side, #[trigger] s[i], #[trigger] s[j])
}

/// Sum of the quantities of `s`.
pub open spec fn total_qty(s: Seq<Order>) -> int
    decreases s.len(),
{
    if s.len() == 0 {
        0
    } else {
        s[0].quantity + total_qty(s.drop_first())
    }
}

/// How `cancel_order` leaves the book, and what it returns.
pub open spec fn cancel_outcome(
    b0: &OrderBook,
    b1: &OrderBook,
    owner: usize,
    order_id: u64,
    r: Result<Order, EngineError>,
) -> bool {
    &&& b1.next_order_id == b0.next_order_id
    &&& match r {
        Ok(o) => o.owner == owner && o.order_id == order_id && ((exists|k: int|
            0 <= k < b0.bids@.len() && b0.bids@[k] == o && b1.bids@ == b0.bids@.remove(k)
                && b1.asks@ == b0.asks@) || (exists|k: int|
            0 <= k < b0.asks@.len() && b0.asks@[k] == o && b1.asks@ == b0.asks@.remove(k)
                && b1.bids@ == b0.bids@)),
        Err(e) => e == EngineError::OrderNotFound && b1.bids@ == b0.bids@ && b1.asks@ == b0.asks@
            && (forall|k: int|
            0 <= k < b0.bids@.len() ==> !(#[trigger] b0.bids@[k].order_id == order_id
                && b0.bids@[k].owner == owner)) && (forall|k: int|
            0 <= k < b0.asks@.len() ==> !(#[trigger] b0.asks@[k].order_id == order_id
                && b0.asks@[k].owner == owner)),
    }
}

impl OrderBook {
    pub open spec fn wf(&self) -> bool {
        &&& side_wf(Side::Bid, self.bids@, self.next_order_id)
        &&& side_wf(Side::Ask, self.asks@, self.next_order_id)
    }

    pub open spec fn side_view(&self, side: Side) -> Seq<Order> {
        match side {
            Side::Bid => self.bids@,
            Side::Ask => self.asks@,
        }
    }

    pub fn new() -> (r: OrderBook)
        ensures
            r.wf(),
            r.bids@ == Seq::<Order>::empty(),
            r.asks@ == Seq::<Order>::empty(),
            r.next_order_id == 0,
    {
        OrderBook { bids: Vec::new(), asks: Vec::new(), next_order_id: 0 }
    }

    /// Removes the resting order `order_id` owned by `owner` from either
    /// side and returns it. Fails with `OrderNotFound`, changing nothing,
    /// when no such order rests.
    pub fn cancel_order(&mut self, owner: usize, order_id: u64) -> (r: Result<Order, EngineError>)
        requires
            old(self).wf(),
        ensures
            final(self).wf(),
            cancel_outcome(old(self), final(self), owner, order_id, r),
    {
        match find_order(&self.bids, owner, order_id) {
            Some(k) => {
                let o = self.bids.remove(k);
                proof {
                    lemma_remove_keeps_wf(Side::Bid, old(self).bids@, k as int, self.next_order_id);
                }
                return Ok(o);
            },
            None => {},
        }
        match find_order(&self.asks, owner, order_id) {
            Some(k) => {
                let o = self.asks.remove(k);
                proof {
                    lemma_remove_keeps_wf(Side::Ask, old(self).asks@, k as int, self.next_order_id);
                }
                Ok(o)
            },
            None => Err(EngineError::OrderNotFound),
        }
    }
}

fn find_order(s: &Vec<Order>, owner: usize, order_id: u64) -> (r: Option<usize>)
    ensures
        match r {
            Some(k) => k < s@.len() && s@[k as int].owner == owner && s@[k as int].order_id
                == order_id,
            None => forall|k: int|
                0 <= k < s@.len() ==> !(#[trigger] s@[k].order_id == order_id && s@[k].owner
                    == owner),
        },
{
    let mut i: usize = 0;
    while i < s.len()
        invariant
            i <= s@.len(),
            forall|k: int|
                0 <= k < i ==> !(#[trigger] s@[k].order_id == order_id && s@[k].owner == owner),
        decreases s@.len() - i,
    {
        if s[i].order_id == order_id && s[i].owner == owner {
            return Some(i);
        }
        i = i + 1;
    }
    None
}

proof fn lemma_remove_keeps_wf(side: Side, s: Seq<Order>, k: int, next_order_id: u64)
    requires
        side_wf(side, s, next_order_id),
        0 <= k < s.len(),
    ensures
        side_wf(side, s.remove(k), next_order_id),
{
    let t = s.remove(k);
    assert forall|i: int, j: int| 0 <= i < j < t.len() implies precedes(side, #[trigger] t[i], #[trigger] t[j]) by {
        let a = if i < k { i } else { i + 1 };
        let b = if j < k { j } else { j + 1 };
        assert(t[i] == s[a] && t[j] == s[b]);
    }
}

/// The index at which `o` enters `s`: after every order that precedes it.
pub fn insert_position(side: Side, s: &Vec<Order>, o: &Order) -> (r: usize)
    requires
        side_wf(side, s@, o.order_id),
    ensures
        r <= s@.len(),
        forall|i: int| 0 <= i < r ==> precedes(side, #[trigger] s@[i], *o),
        forall|i: int| r <= i < s@.len() ==> precedes(side, *o, #[trigger] s@[i]),
{
    let mut i: usize = 0;
    while i < s.len()
        invariant
            i <= s@.len(),
            side_wf(side, s@, o.order_id),
            forall|k: int| 0 <= k < i ==> precedes(side, #[trigger] s@[k], *o),
        decreases s@.len() - i,
    {
        let better = match side {
            Side::Bid => o.price > s[i].price,
            Side::Ask => o.price < s[i].price,
        };
        if better {
            assert forall|k: int| i <= k < s@.len() implies precedes(side, *o, #[trigger] s@[k]) by {
                if k > i {
                    assert(precedes(side, s@[i as int], s@[k]));
                }
            }
            return i;
        }
        i = i + 1;
    }
    i
}

/// Inserts `o`, newer than every order of `s`, at its priority position,
/// and returns that position.
pub fn insert_order(side: Side, s: &mut Vec<Order>, o: Order) -> (k: usize)
    requires
        side_wf(side, old(s)@, o.order_id),
        order_wf(o, (o.order_id + 1) as u64),
        o.order_id < u64::MAX,
    ensures
        side_wf(side, final(s)@, (o.order_id + 1) as u64),
        k <= old(s)@.len(),
        final(s)@ == old(s)@.insert(k as int, o),
{
    let k = insert_position(side, s, &o);
    s.insert(k, o);
    proof {
        let t = s@;
        assert(t == old(s)@.insert(k as int, o));
        assert forall|i: int, j: int| 0 <= i < j < t.len() implies precedes(side, #[trigger] t[i], #[trigger] t[j]) by {
            let a = if i < k { i } else { i - 1 };
            let b = if j < k { j } else { j - 1 };
            if i == k as int {
                assert(t[j] == old(s)@[b]);
            } else if j == k as int {
                assert(t[i] == old(s)@[a]);
            } else {
                assert(t[i] == old(s)@[a] && t[j] == old(s)@[b]);
            }
        }
        assert forall|i: int| 0 <= i < t.len() implies order_wf(#[trigger] t[i], (o.order_id + 1) as u64) by {
            if i < k {
                assert(t[i] == old(s)@[i]);
            } else if i > k {
                assert(t[i] == old(s)@[i - 1]);
            }
        }
    }
    k
}

} // verus!
