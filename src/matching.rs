use vstd::prelude::*;

use crate::book::{Order, MAX_ORDER_PRICE, MAX_ORDER_QTY, total_qty, side_wf, precedes, order_wf};
use crate::queue::{Event, EventKind, Side};

verus! {

/// What matching needs to know of an incoming order.
#[derive(Clone, Copy, Debug, PartialEq, Eq, Structural)]
pub struct Taker {
    pub market_index: usize,
    pub owner: usize,
    pub side: Side,
    /// The worst price the taker accepts, in quote lots per base lot.
    pub limit: u64,
}

pub open spec fn opposite(side: Side) -> Side {
    match side {
        Side::Bid => Side::Ask,
        Side::Ask => Side::Bid,
    }
}

/// Whether a resting order at `maker_price` can trade with the taker.
pub open spec fn crosses(t: Taker, maker_price: u64) -> bool {
    match t.side {
        Side::Bid => maker_price <= t.limit,
        Side::Ask => maker_price >= t.limit,
    }
}

/// A fill of `qty` lots against maker order `m`, at the maker's price.
pub open spec fn fill_event(t: Taker, m: Order, qty: u64) -> Event {
    Event {
        kind: EventKind::Fill,
        market_index: t.market_index,
        maker: m.owner,
        taker: t.owner,
        taker_side: t.side,
        maker_order_id: m.order_id,
        price: m.price,
        base_qty: qty,
        quote_qty: (qty * m.price) as u64,
    }
}

/// Order `m`, on `side`, leaving the book with `m.quantity` lots unfilled.
pub open spec fn out_event(market_index: usize, side: Side, m: Order) -> Event {
    Event {
        kind: EventKind::Out,
        market_index,
        maker: m.owner,
        taker: m.owner,
        taker_side: side,
        maker_order_id: m.order_id,
        price: m.price,
        base_qty: m.quantity,
        quote_qty: 0,
    }
}

/// Greedy matching of `qty` lots against `book`, the opposite side in
/// priority order: the book that remains, the events produced in order,
/// and the lots left unfilled.
pub open spec fn match_spec(book: Seq<Order>, t: Taker, qty: u64) -> (Seq<Order>, Seq<Event>, u64)
    decreases book.len(),
{
    if qty == 0 || book.len() == 0 || !crosses(t, book[0].price) {
        (book, Seq::empty(), qty)
    } else if qty < book[0].quantity {
        (
            book.update(0, Order { quantity: (book[0].quantity - qty) as u64, ..book[0] }),
            seq![fill_event(t, book[0], qty)],
            0,
        )
    } else {
        let r = match_spec(book.drop_first(), t, (qty - book[0].quantity) as u64);
        (
            r.0,
            seq![
                fill_event(t, book[0], book[0].quantity),
                out_event(t.market_index, opposite(t.side), Order { quantity: 0, ..book[0] }),
            ] + r.1,
            r.2,
        )
    }
}

/// Total base lots of the `Fill` events of `events`.
pub open spec fn filled_qty(events: Seq<Event>) -> int
    decreases events.len(),
{
    if events.len() == 0 {
        0
    } else {
        (if events[0].kind == EventKind::Fill {
            events[0].base_qty as int
        } else {
            0
        }) + filled_qty(events.drop_first())
    }
}

pub open spec fn orders_bounded(book: Seq<Order>) -> bool {
    forall|i: int|
        0 <= i < book.len() ==> 1 <= (#[trigger] book[i]).quantity <= MAX_ORDER_QTY && book[i].price
            <= MAX_ORDER_PRICE
}

fn copy_tail(book: &Vec<Order>, start: usize) -> (r: Vec<Order>)
    requires
        start <= book@.len(),
    ensures
        r@ == book@.subrange(start as int, book@.len() as int),
{
    let mut r: Vec<Order> = Vec::new();
    let mut i: usize = start;
    while i < book.len()
        invariant
            start <= i <= book@.len(),
            r@ == book@.subrange(start as int, i as int),
        decreases book@.len() - i,
    {
        r.push(book[i]);
        proof {
            assert(book@.subrange(start as int, i + 1) =~= book@.subrange(start as int, i as int).push(
                book@[i as int],
            ));
        }
        i = i + 1;
    }
    r
}

fn crosses_exec(t: &Taker, maker_price: u64) -> (r: bool)
    ensures
        r == crosses(*t, maker_price),
{
    match t.side {
        Side::Bid => maker_price <= t.limit,
        Side::Ask => maker_price >= t.limit,
    }
}

fn make_fill(t: &Taker, m: &Order, qty: u64) -> (e: Event)
    requires
        qty <= m.quantity <= MAX_ORDER_QTY,
        m.price <= MAX_ORDER_PRICE,
    ensures
        e == fill_event(*t, *m, qty),
{
    assert(qty * m.price <= 0x8000_0000_0000_0000) by (nonlinear_arith)
        requires
            qty <= 2147483647,
            m.price <= 4294967295,
    ;
    Event {
        kind: EventKind::Fill,
        market_index: t.market_index,
        maker: m.owner,
        taker: t.owner,
        taker_side: t.side,
        maker_order_id: m.order_id,
        price: m.price,
        base_qty: qty,
        quote_qty: qty * m.price,
    }
}

/// Matches `qty` lots of the taker against `book`, the opposite side of
/// the book in priority order, without changing it: returns the side as it
/// stands after the match, the events in the order produced, and the lots
/// left unfilled.
pub fn match_against(book: &Vec<Order>, t: &Taker, qty: u64) -> (r: (Vec<Order>, Vec<Event>, u64))
    requires
        orders_bounded(book@),
    ensures
        (r.0@, r.1@, r.2) == match_spec(book@, *t, qty),
{
    let len = book.len();
    let mut k: usize = 0;
    let mut left: u64 = qty;
    let mut events: Vec<Event> = Vec::new();
    proof {
        assert(book@.subrange(0, len as int) =~= book@);
        let rest = match_spec(book@, *t, qty);
        assert(events@ + rest.1 =~= rest.1);
    }
    while k < len && left > 0 && crosses_exec(t, book[k].price) && book[k].quantity <= left
        invariant
            k <= len == book@.len(),
            orders_bounded(book@),
            ({
                let rest = match_spec(book@.subrange(k as int, len as int), *t, left);
                match_spec(book@, *t, qty) == (rest.0, events@ + rest.1, rest.2)
            }),
        decreases len - k,
    {
        let m = book[k];
        let f = make_fill(t, &m, m.quantity);
        let o = Event {
            kind: EventKind::Out,
            market_index: t.market_index,
            maker: m.owner,
            taker: m.owner,
            taker_side: match t.side {
                Side::Bid => Side::Ask,
                Side::Ask => Side::Bid,
            },
            maker_order_id: m.order_id,
            price: m.price,
            base_qty: 0,
            quote_qty: 0,
        };
        proof {
            let sub = book@.subrange(k as int, len as int);
            assert(sub.drop_first() =~= book@.subrange(k + 1, len as int));
            assert(sub[0] == m);
            assert(o == out_event(t.market_index, opposite(t.side), Order { quantity: 0, ..m }));
            let rest = match_spec(book@.subrange(k + 1, len as int), *t, (left - m.quantity) as u64);
            assert(events@ + (seq![f, o] + rest.1) =~= events@.push(f).push(o) + rest.1);
        }
        events.push(f);
        events.push(o);
        left = left - m.quantity;
        k = k + 1;
    }
    let crossing = k < len && left > 0 && crosses_exec(t, book[k].price);
    if crossing {
        let m = book[k];
        let f = make_fill(t, &m, left);
        let mut rest = copy_tail(book, k);
        proof {
            let sub = book@.subrange(k as int, len as int);
            assert(sub[0] == m);
            assert(events@ + seq![f] =~= events@.push(f));
        }
        rest.set(0, Order { quantity: m.quantity - left, ..m });
        events.push(f);
        (rest, events, 0)
    } else {
        let rest = copy_tail(book, k);
        proof {
            assert(events@ + Seq::<Event>::empty() =~= events@);
        }
        (rest, events, left)
    }
}

/// No quantity creation: matching removes from the resting orders exactly
/// the lots that its fills give the taker, those lots are what the taker
/// asked for minus what is left, and no fill exceeds what its maker order
/// held.
pub proof fn lemma_match_conserves_quantity(book: Seq<Order>, t: Taker, qty: u64)
    requires
        forall|i: int| 0 <= i < book.len() ==> (#[trigger] book[i]).quantity >= 1,
    ensures
        ({
            let r = match_spec(book, t, qty);
            &&& total_qty(book) == total_qty(r.0) + filled_qty(r.1)
            &&& filled_qty(r.1) == qty - r.2
            &&& r.2 <= qty
            &&& forall|i: int|
                0 <= i < r.1.len() && (#[trigger] r.1[i]).kind == EventKind::Fill ==> exists|k: int|
                    0 <= k < book.len() && book[k].order_id == r.1[i].maker_order_id && r.1[i].base_qty
                        <= book[k].quantity
        }),
    decreases book.len(),
{
    let r = match_spec(book, t, qty);
    if qty == 0 || book.len() == 0 || !crosses(t, book[0].price) {
        assert(filled_qty(Seq::<Event>::empty()) == 0);
    } else if qty < book[0].quantity {
        let nb = book.update(0, Order { quantity: (book[0].quantity - qty) as u64, ..book[0] });
        assert(nb.drop_first() =~= book.drop_first());
        assert(seq![fill_event(t, book[0], qty)].drop_first() =~= Seq::<Event>::empty());
        assert(filled_qty(Seq::<Event>::empty()) == 0);
        assert(filled_qty(r.1) == qty);
        assert(total_qty(nb) == nb[0].quantity + total_qty(nb.drop_first()));
        assert(total_qty(book) == book[0].quantity + total_qty(book.drop_first()));
        assert(r.0 == nb);
        assert(total_qty(book) == total_qty(nb) + qty);
        assert(r.1[0].maker_order_id == book[0].order_id);
    } else {
        let tail = book.drop_first();
        let rest = match_spec(tail, t, (qty - book[0].quantity) as u64);
        lemma_match_conserves_quantity(tail, t, (qty - book[0].quantity) as u64);
        let f = fill_event(t, book[0], book[0].quantity);
        let o = out_event(t.market_index, opposite(t.side), Order { quantity: 0, ..book[0] });
        let evs = seq![f, o] + rest.1;
        assert(evs.drop_first() =~= seq![o] + rest.1);
        assert((seq![o] + rest.1).drop_first() =~= rest.1);
        assert(filled_qty(seq![o] + rest.1) == filled_qty(rest.1));
        assert(filled_qty(evs) == book[0].quantity + filled_qty(rest.1));
        assert(total_qty(book) == book[0].quantity + total_qty(tail));
        assert(r.0 == rest.0);
        assert(r.1 == evs);
        assert forall|i: int|
            0 <= i < evs.len() && (#[trigger] evs[i]).kind == EventKind::Fill implies exists|k: int|
                0 <= k < book.len() && book[k].order_id == evs[i].maker_order_id && evs[i].base_qty
                    <= book[k].quantity by {
            if i == 0 {
                assert(book[0].order_id == evs[0].maker_order_id);
            } else {
                assert(i >= 2);
                assert(evs[i] == rest.1[i - 2]);
                let k2 = choose|k: int|
                    0 <= k < tail.len() && tail[k].order_id == rest.1[i - 2].maker_order_id
                        && rest.1[i - 2].base_qty <= tail[k].quantity;
                assert(book[k2 + 1] == tail[k2]);
            }
        }
    }
}

/// Matching keeps a side of the book in priority order with well-formed
/// orders: it only removes orders from the front and reduces the first.
pub proof fn lemma_match_keeps_side_wf(side: Side, book: Seq<Order>, t: Taker, qty: u64, next_order_id: u64)
    requires
        side_wf(side, book, next_order_id),
    ensures
        side_wf(side, match_spec(book, t, qty).0, next_order_id),
    decreases book.len(),
{
    if qty == 0 || book.len() == 0 || !crosses(t, book[0].price) {
    } else if qty < book[0].quantity {
        let nb = book.update(0, Order { quantity: (book[0].quantity - qty) as u64, ..book[0] });
        assert forall|i: int, j: int| 0 <= i < j < nb.len() implies precedes(side, #[trigger] nb[i], #[trigger] nb[j]) by {
            assert(precedes(side, book[i], book[j]));
        }
        assert forall|i: int| 0 <= i < nb.len() implies order_wf(#[trigger] nb[i], next_order_id) by {
            assert(order_wf(book[i], next_order_id));
        }
    } else {
        let tail = book.drop_first();
        assert forall|i: int, j: int| 0 <= i < j < tail.len() implies precedes(side, #[trigger] tail[i], #[trigger] tail[j]) by {
            assert(precedes(side, book[i + 1], book[j + 1]));
        }
        assert forall|i: int| 0 <= i < tail.len() implies order_wf(#[trigger] tail[i], next_order_id) by {
            assert(order_wf(book[i + 1], next_order_id));
        }
        lemma_match_keeps_side_wf(side, tail, t, (qty - book[0].quantity) as u64, next_order_id);
    }
}

/// `rest` is `book` without its first `k` orders, except that the order
/// now in front may hold fewer lots (but at least one).
pub open spec fn suffix_after_match(book: Seq<Order>, rest: Seq<Order>, k: int) -> bool {
    &&& 0 <= k <= book.len()
    &&& rest.len() == book.len() - k
    &&& forall|m: int| 1 <= m < rest.len() ==> #[trigger] rest[m] == book[k + m]
    &&& rest.len() > 0 ==> rest[0] == Order { quantity: rest[0].quantity, ..book[k] } && 1
        <= rest[0].quantity <= book[k].quantity
}

proof fn lemma_total_qty_prefix(s: Seq<Order>, k: int)
    requires
        0 <= k < s.len(),
    ensures
        total_qty(s.subrange(0, k + 1)) == s[0].quantity + total_qty(s.drop_first().subrange(0, k)),
{
    let p = s.subrange(0, k + 1);
    assert(p.drop_first() =~= s.drop_first().subrange(0, k));
}

/// Price-time priority: matching fills resting orders strictly in book
/// order. Some number `k` of orders from the front leave the book
/// completely filled, the next may be partly filled, and every order
/// behind it is untouched; the lots filled are exactly those taken. So of
/// two orders at the same price, the earlier, which stands before the later
/// in a well-formed side, is completely filled before the later receives
/// any lot.
pub proof fn lemma_match_fills_in_order(book: Seq<Order>, t: Taker, qty: u64)
    requires
        forall|i: int| 0 <= i < book.len() ==> (#[trigger] book[i]).quantity >= 1,
    ensures
        ({
            let r = match_spec(book, t, qty);
            exists|k: int|
                suffix_after_match(book, r.0, k) && filled_qty(r.1) == total_qty(book.subrange(0, k))
                    + (if r.0.len() > 0 {
                    book[k].quantity - r.0[0].quantity
                } else {
                    0
                })
        }),
    decreases book.len(),
{
    let r = match_spec(book, t, qty);
    if qty == 0 || book.len() == 0 || !crosses(t, book[0].price) {
        assert(filled_qty(Seq::<Event>::empty()) == 0);
        assert(total_qty(book.subrange(0, 0)) == 0);
        assert(suffix_after_match(book, r.0, 0));
    } else if qty < book[0].quantity {
        assert(seq![fill_event(t, book[0], qty)].drop_first() =~= Seq::<Event>::empty());
        assert(filled_qty(Seq::<Event>::empty()) == 0);
        assert(filled_qty(r.1) == qty);
        assert(total_qty(book.subrange(0, 0)) == 0);
        assert(suffix_after_match(book, r.0, 0));
    } else {
        let tail = book.drop_first();
        let q2 = (qty - book[0].quantity) as u64;
        let rest = match_spec(tail, t, q2);
        lemma_match_fills_in_order(tail, t, q2);
        let k2 = choose|k: int|
            suffix_after_match(tail, rest.0, k) && filled_qty(rest.1) == total_qty(tail.subrange(0, k))
                + (if rest.0.len() > 0 {
                tail[k].quantity - rest.0[0].quantity
            } else {
                0
            });
        let f = fill_event(t, book[0], book[0].quantity);
        let o = out_event(t.market_index, opposite(t.side), Order { quantity: 0, ..book[0] });
        let evs = seq![f, o] + rest.1;
        assert(evs.drop_first() =~= seq![o] + rest.1);
        assert((seq![o] + rest.1).drop_first() =~= rest.1);
        assert(filled_qty(seq![o] + rest.1) == filled_qty(rest.1));
        assert(filled_qty(evs) == book[0].quantity + filled_qty(rest.1));
        assert(r.0 == rest.0);
        assert(r.1 == evs);
        lemma_total_qty_prefix(book, k2);
        assert(suffix_after_match(book, r.0, k2 + 1)) by {
            assert forall|m: int| 1 <= m < r.0.len() implies #[trigger] r.0[m] == book[k2 + 1 + m] by {
                assert(rest.0[m] == tail[k2 + m]);
            }
            if r.0.len() > 0 {
                assert(tail[k2] == book[k2 + 1]);
            }
        }
        if r.0.len() > 0 {
            assert(tail[k2] == book[k2 + 1]);
        }
    }
}

/// FIFO at equal prices: of two orders on a well-formed side at the same
/// price, the earlier stands first, so whenever matching gives the later
/// any lot (it is among the `k` orders consumed, or it is the order at `k`
/// and lost lots), the earlier is among the `k` orders completely filled.
pub proof fn lemma_fifo_at_equal_price(
    side: Side,
    book: Seq<Order>,
    next_order_id: u64,
    t: Taker,
    qty: u64,
    i: int,
    j: int,
)
    requires
        side_wf(side, book, next_order_id),
        0 <= i < book.len(),
        0 <= j < book.len(),
        book[i].price == book[j].price,
        book[i].order_id < book[j].order_id,
    ensures
        ({
            let r = match_spec(book, t, qty);
            forall|k: int|
                suffix_after_match(book, r.0, k) && (j < k || (j == k && r.0.len() > 0
                    && r.0[0].quantity < book[k].quantity)) ==> i < k
        }),
{
    if j <= i {
        if j < i {
            assert(precedes(side, book[j], book[i]));
        }
    }
}

} // verus!
