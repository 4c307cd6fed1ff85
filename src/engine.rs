use vstd::prelude::*;

use crate::account::{
    HealthVariant, MarginGroup, MarketConfig, RiskAccount, RiskAccountView, abs, position_wf,
    prices_wf, projected_health, projected_health_exec,
};
use crate::book::{
    MAX_ORDER_PRICE, MAX_ORDER_QTY, Order, OrderBook, insert_order, order_wf, side_wf,
};
use crate::error::EngineError;
use crate::matching::{
    Taker, filled_qty, lemma_match_conserves_quantity, lemma_match_keeps_side_wf, match_against, match_spec,
    opposite, out_event,
};
use crate::price_cache::{PriceCache, PriceEntry, is_stale, lemma_snapshot_prices, lemma_snapshot_stale, snapshot_spec};
use crate::queue::{Event, EventKind, EventQueue, Side};

verus! {

#[derive(Clone, Copy, Debug, PartialEq, Eq, Structural)]
pub enum OrderType {
    /// Any unfilled remainder rests in the book at the order's price.
    Limit,
    /// Any unfilled remainder is discarded.
    ImmediateOrCancel,
    /// Trades at any price; any unfilled remainder is discarded.
    Market,
}

/// An order as submitted to a perpetual market.
#[derive(Clone, Copy, Debug, PartialEq, Eq, Structural)]
pub struct OrderRequest {
    pub market_index: usize,
    pub side: Side,
    /// Quote lots per base lot; ignored for `Market` orders.
    pub price: u64,
    /// Base lots.
    pub quantity: u64,
    pub order_type: OrderType,
    /// The order may only shrink the submitter's position.
    pub reduce_only: bool,
}

pub open spec fn request_valid(req: OrderRequest) -> bool {
    &&& 1 <= req.quantity <= MAX_ORDER_QTY
    &&& req.order_type == OrderType::Market || 1 <= req.price <= MAX_ORDER_PRICE
}

/// The worst price the order accepts.
pub open spec fn limit_of(req: OrderRequest) -> u64 {
    match req.order_type {
        OrderType::Market => match req.side {
            Side::Bid => MAX_ORDER_PRICE,
            Side::Ask => 1,
        },
        _ => req.price,
    }
}

/// `q` lots as a signed change of position.
pub open spec fn signed_qty(side: Side, q: int) -> int {
    match side {
        Side::Bid => q,
        Side::Ask => -q,
    }
}

/// Whether an order on `side` would grow a position of `pos` lots (or open
/// one from zero).
pub open spec fn increases_exposure(side: Side, pos: i64) -> bool {
    match side {
        Side::Bid => pos >= 0,
        Side::Ask => pos <= 0,
    }
}

/// The lots matched for the order: a reduce-only order is capped at the
/// size of the position it reduces.
pub open spec fn effective_qty(req: OrderRequest, pos: i64) -> u64 {
    if req.reduce_only && abs(pos as int) < req.quantity {
        abs(pos as int) as u64
    } else {
        req.quantity
    }
}

/// The first check an order fails before matching, if any: an unknown
/// market, an invalid size or price, an exhausted id space, an unreadable
/// price, a reduce-only order that would grow the position, or a
/// non-reduce-only order after whose full fill at the cached price the
/// account's initial health would be negative.
pub open spec fn pre_check(
    next_order_id: u64,
    num_assets: int,
    markets: Seq<MarketConfig>,
    cache: Seq<Option<PriceEntry>>,
    a: RiskAccountView,
    req: OrderRequest,
    now_slot: u64,
    max_staleness: u64,
) -> Option<EngineError> {
    if req.market_index >= markets.len() {
        Some(EngineError::AccountMismatch)
    } else if !request_valid(req) {
        Some(EngineError::InvalidLotSize)
    } else if next_order_id == u64::MAX {
        Some(EngineError::Overflow)
    } else {
        match snapshot_spec(cache, num_assets, now_slot, max_staleness) {
            Err(e) => Some(e),
            Ok(prices) => {
                let pos = a.perp_positions[req.market_index as int].base_position;
                if req.reduce_only {
                    if increases_exposure(req.side, pos) {
                        Some(EngineError::ReduceOnlyViolation)
                    } else {
                        None
                    }
                } else if projected_health(
                    a,
                    markets,
                    prices,
                    HealthVariant::Initial,
                    req.market_index as int,
                    signed_qty(req.side, req.quantity as int),
                ) < 0 {
                    Some(EngineError::InsufficientHealth)
                } else {
                    None
                }
            },
        }
    }
}

pub open spec fn taker_of(req: OrderRequest, owner: usize) -> Taker {
    Taker { market_index: req.market_index, owner, side: req.side, limit: limit_of(req) }
}

/// The outcome of matching the order against the opposite side.
pub open spec fn match_of(
    book: &OrderBook,
    a: RiskAccountView,
    owner: usize,
    req: OrderRequest,
) -> (Seq<Order>, Seq<Event>, u64) {
    match_spec(
        book.side_view(opposite(req.side)),
        taker_of(req, owner),
        effective_qty(req, a.perp_positions[req.market_index as int].base_position),
    )
}

/// Whether the order's remainder of `left` lots rests in the book.
pub open spec fn rests(req: OrderRequest, left: u64) -> bool {
    left > 0 && req.order_type == OrderType::Limit
}

/// The order as it rests in the book with `left` lots.
pub open spec fn resting_order(req: OrderRequest, owner: usize, id: u64, left: u64) -> Order {
    Order { owner, order_id: id, price: req.price, quantity: left }
}

/// Every event the order produces: its fills and makers' exits, then the
/// discarded remainder of an order that does not rest.
pub open spec fn order_events(
    req: OrderRequest,
    owner: usize,
    id: u64,
    m: (Seq<Order>, Seq<Event>, u64),
) -> Seq<Event> {
    if m.2 > 0 && !rests(req, m.2) {
        m.1.push(
            out_event(
                req.market_index,
                req.side,
                Order { owner, order_id: id, price: limit_of(req), quantity: m.2 },
            ),
        )
    } else {
        m.1
    }
}

pub open spec fn book_unchanged(b1: &OrderBook, b2: &OrderBook) -> bool {
    &&& b1.bids@ == b2.bids@
    &&& b1.asks@ == b2.asks@
    &&& b1.next_order_id == b2.next_order_id
}

pub open spec fn queue_unchanged(q1: &EventQueue, q2: &EventQueue) -> bool {
    &&& q1.pending() == q2.pending()
    &&& q1.seq_num == q2.seq_num
    &&& q1.capacity == q2.capacity
}

/// How `place_perp_order` leaves the book and the queue, and what it
/// returns.
pub open spec fn place_outcome(
    b0: &OrderBook,
    q0: &EventQueue,
    b1: &OrderBook,
    q1: &EventQueue,
    group: &MarginGroup,
    cache: &PriceCache,
    a: RiskAccountView,
    owner: usize,
    req: OrderRequest,
    now_slot: u64,
    max_staleness: u64,
    r: Result<u64, EngineError>,
) -> bool {
    let pc = pre_check(
        b0.next_order_id,
        group.num_assets as int,
        group.markets@,
        cache.entries@,
        a,
        req,
        now_slot,
        max_staleness,
    );
    let m = match_of(b0, a, owner, req);
    let id = b0.next_order_id;
    let evs = order_events(req, owner, id, m);
    &&& q1.capacity == q0.capacity
    &&& match pc {
        Some(e) => r == Err::<u64, EngineError>(e) && book_unchanged(b1, b0) && queue_unchanged(q1, q0),
        None => if evs.len() > q0.capacity - q0.pending().len() {
            r == Err::<u64, EngineError>(EngineError::EventQueueFull) && book_unchanged(b1, b0)
                && queue_unchanged(q1, q0)
        } else {
            &&& r == Ok::<u64, EngineError>(id)
            &&& b1.next_order_id == id + 1
            &&& q1.pending() == q0.pending() + evs
            &&& q1.seq_num == crate::queue::seq_after(q0.seq_num, evs.len())
            &&& b1.side_view(opposite(req.side)) == m.0
            &&& if rests(req, m.2) {
                exists|k: int|
                    0 <= k <= b0.side_view(req.side).len() && b1.side_view(req.side)
                        == b0.side_view(req.side).insert(k, resting_order(req, owner, id, m.2))
            } else {
                b1.side_view(req.side) == b0.side_view(req.side)
            }
        },
    }
}

/// Submits an order for `account`, known to the book as `owner`: checks
/// it, matches it against the opposite side at the makers' prices, rests
/// or discards the remainder, and appends every event to `queue`. Returns
/// the order's id. Fails, changing nothing, on the first failed check or
/// when the queue cannot take every event.
pub fn place_perp_order(
    book: &mut OrderBook,
    queue: &mut EventQueue,
    group: &MarginGroup,
    cache: &PriceCache,
    account: &RiskAccount,
    owner: usize,
    req: &OrderRequest,
    now_slot: u64,
    max_staleness: u64,
) -> (r: Result<u64, EngineError>)
    requires
        old(book).wf(),
        old(queue).wf(),
        group.wf(),
        cache.wf(),
        account@.wf(group.num_assets as int, group.markets@),
    ensures
        final(book).wf(),
        final(queue).wf(),
        place_outcome(
            old(book),
            old(queue),
            final(book),
            final(queue),
            group,
            cache,
            account@,
            owner,
            *req,
            now_slot,
            max_staleness,
            r,
        ),
{
    if req.market_index >= group.markets.len() {
        return Err(EngineError::AccountMismatch);
    }
    let valid = 1 <= req.quantity && req.quantity <= MAX_ORDER_QTY && (match req.order_type {
        OrderType::Market => true,
        _ => 1 <= req.price && req.price <= MAX_ORDER_PRICE,
    });
    if !valid {
        return Err(EngineError::InvalidLotSize);
    }
    if book.next_order_id == u64::MAX {
        return Err(EngineError::Overflow);
    }
    let prices = cache.snapshot(group.num_assets, now_slot, max_staleness)?;
    proof {
        lemma_snapshot_prices(cache.entries@, group.num_assets as int, now_slot, max_staleness);
        assert(prices_wf(prices@, group.num_assets as int));
    }
    let mi = req.market_index;
    let pos = account.perp_positions[mi].base_position;
    assert(position_wf(account@.perp_positions[mi as int]));
    let qty: u64 = if req.reduce_only {
        let grows = match req.side {
            Side::Bid => pos >= 0,
            Side::Ask => pos <= 0,
        };
        if grows {
            return Err(EngineError::ReduceOnlyViolation);
        }
        let abs_pos: u64 = if pos < 0 {
            (-pos) as u64
        } else {
            pos as u64
        };
        if abs_pos < req.quantity {
            abs_pos
        } else {
            req.quantity
        }
    } else {
        let delta: i64 = match req.side {
            Side::Bid => req.quantity as i64,
            Side::Ask => -(req.quantity as i64),
        };
        let h = projected_health_exec(account, group, &prices, HealthVariant::Initial, mi, delta);
        if h < 0 {
            return Err(EngineError::InsufficientHealth);
        }
        req.quantity
    };
    let limit: u64 = match req.order_type {
        OrderType::Market => match req.side {
            Side::Bid => MAX_ORDER_PRICE,
            Side::Ask => 1,
        },
        _ => req.price,
    };
    let taker = Taker { market_index: mi, owner, side: req.side, limit };
    let id = book.next_order_id;
    proof {
        let opp = old(book).side_view(opposite(req.side));
        assert(side_wf(opposite(req.side), opp, id));
        lemma_match_conserves_quantity(opp, taker, qty);
        lemma_match_keeps_side_wf(opposite(req.side), opp, taker, qty, id);
    }
    let (new_opp, mut events, left) = match req.side {
        Side::Bid => match_against(&book.asks, &taker, qty),
        Side::Ask => match_against(&book.bids, &taker, qty),
    };
    let rest = left > 0 && (match req.order_type {
        OrderType::Limit => true,
        _ => false,
    });
    if left > 0 && !rest {
        events.push(
            Event {
                kind: EventKind::Out,
                market_index: mi,
                maker: owner,
                taker: owner,
                taker_side: req.side,
                maker_order_id: id,
                price: limit,
                base_qty: left,
                quote_qty: 0,
            },
        );
    }
    if events.len() > queue.free_space() {
        return Err(EngineError::EventQueueFull);
    }
    let pushed = queue.push_all(&events);
    let resting = Order { owner, order_id: id, price: req.price, quantity: left };
    let mut k_ins: usize = 0;
    match req.side {
        Side::Bid => {
            book.asks = new_opp;
            if rest {
                k_ins = insert_order(Side::Bid, &mut book.bids, resting);
            }
        },
        Side::Ask => {
            book.bids = new_opp;
            if rest {
                k_ins = insert_order(Side::Ask, &mut book.asks, resting);
            }
        },
    }
    book.next_order_id = id + 1;
    proof {
        lemma_side_wf_next(Side::Bid, book.bids@, id, (id + 1) as u64);
        lemma_side_wf_next(Side::Ask, book.asks@, id, (id + 1) as u64);
        if rest {
            assert(book.side_view(req.side) == old(book).side_view(req.side).insert(
                k_ins as int,
                resting_order(*req, owner, id, left),
            ));
        }
    }
    Ok(id)
}

proof fn lemma_side_wf_next(side: Side, s: Seq<Order>, a: u64, b: u64)
    requires
        side_wf(side, s, a) || side_wf(side, s, b),
        a <= b,
    ensures
        side_wf(side, s, b),
{
    if side_wf(side, s, a) {
        assert forall|i: int| 0 <= i < s.len() implies order_wf(#[trigger] s[i], b) by {
            assert(order_wf(s[i], a));
        }
    }
}

/// Price-gated matching: when every asset of the group has a cached price
/// and one of them is older than the staleness bound, an otherwise valid
/// order fails with `PriceStale` and the book and queue are left as they
/// were.
pub proof fn lemma_stale_price_rejects_order(
    book: &OrderBook,
    num_assets: int,
    markets: Seq<MarketConfig>,
    cache: Seq<Option<PriceEntry>>,
    a: RiskAccountView,
    req: OrderRequest,
    now_slot: u64,
    max_staleness: u64,
)
    requires
        req.market_index < markets.len(),
        request_valid(req),
        book.next_order_id < u64::MAX,
        num_assets <= cache.len(),
        forall|i: int| 0 < i < num_assets ==> #[trigger] cache[i] is Some,
        exists|i: int| 0 < i < num_assets && #[trigger] is_stale(cache, i, now_slot, max_staleness),
    ensures
        pre_check(book.next_order_id, num_assets, markets, cache, a, req, now_slot, max_staleness)
            == Some(EngineError::PriceStale),
{
    lemma_snapshot_stale(cache, num_assets, now_slot, max_staleness);
}

/// Reduce-only orders never increase exposure: when a reduce-only order
/// passes its checks, the lots it fills move the position toward zero
/// without crossing it.
pub proof fn lemma_reduce_only_never_increases(
    book: &OrderBook,
    num_assets: int,
    markets: Seq<MarketConfig>,
    cache: Seq<Option<PriceEntry>>,
    a: RiskAccountView,
    owner: usize,
    req: OrderRequest,
    now_slot: u64,
    max_staleness: u64,
)
    requires
        book.wf(),
        req.market_index < a.perp_positions.len(),
        req.reduce_only,
        pre_check(book.next_order_id, num_assets, markets, cache, a, req, now_slot, max_staleness)
            is None,
    ensures
        ({
            let pos = a.perp_positions[req.market_index as int].base_position as int;
            let moved = pos + signed_qty(req.side, filled_qty(match_of(book, a, owner, req).1));
            &&& abs(moved) <= abs(pos)
            &&& pos > 0 ==> moved >= 0
            &&& pos < 0 ==> moved <= 0
            &&& pos == 0 ==> moved == 0
        }),
{
    let opp = book.side_view(opposite(req.side));
    assert(side_wf(opposite(req.side), opp, book.next_order_id));
    assert forall|i: int| 0 <= i < opp.len() implies (#[trigger] opp[i]).quantity >= 1 by {
        assert(order_wf(opp[i], book.next_order_id));
    }
    let pos = a.perp_positions[req.market_index as int].base_position;
    lemma_match_conserves_quantity(opp, taker_of(req, owner), effective_qty(req, pos));
}

/// Event queue backpressure: an order that passes its checks but whose
/// events do not all fit in the queue's free space fails with
/// `EventQueueFull`, and the book and the queue are exactly as they were;
/// no fill is dropped.
pub proof fn lemma_full_queue_rolls_back(
    b0: &OrderBook,
    q0: &EventQueue,
    b1: &OrderBook,
    q1: &EventQueue,
    group: &MarginGroup,
    cache: &PriceCache,
    a: RiskAccountView,
    owner: usize,
    req: OrderRequest,
    now_slot: u64,
    max_staleness: u64,
    r: Result<u64, EngineError>,
)
    requires
        place_outcome(b0, q0, b1, q1, group, cache, a, owner, req, now_slot, max_staleness, r),
        pre_check(
            b0.next_order_id,
            group.num_assets as int,
            group.markets@,
            cache.entries@,
            a,
            req,
            now_slot,
            max_staleness,
        ) is None,
        order_events(req, owner, b0.next_order_id, match_of(b0, a, owner, req)).len() > q0.capacity
            - q0.pending().len(),
    ensures
        r == Err::<u64, EngineError>(EngineError::EventQueueFull),
        book_unchanged(b1, b0),
        queue_unchanged(q1, q0),
{
}

} // verus!
