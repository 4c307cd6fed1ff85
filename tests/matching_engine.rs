use mango_engine::account::{
    compute_health, HealthVariant, MarginGroup, MarketConfig, PerpPosition, RiskAccount,
};
use mango_engine::book::{Order, OrderBook};
use mango_engine::engine::{place_perp_order, OrderRequest, OrderType};
use mango_engine::error::EngineError;
use mango_engine::matching::{match_against, Taker};
use mango_engine::oracle::{RawFeed, PRICE_ONE};
use mango_engine::price_cache::PriceCache;
use mango_engine::queue::{Event, EventKind, EventQueue, Side};
use mango_engine::settle::consume_events;

fn group(init_leverage: u64, maint_leverage: u64) -> MarginGroup {
    MarginGroup {
        num_assets: 2,
        markets: vec![MarketConfig {
            base_asset: 1,
            base_lot_size: 1,
            quote_lot_size: 1,
            init_leverage,
            maint_leverage,
        }],
    }
}

fn cache_at(price: u64, slot: u64) -> PriceCache {
    let mut cache = PriceCache::new(2);
    cache.refresh(1, &RawFeed::Fixed { price, publish_slot: slot }, slot).unwrap();
    cache
}

fn funded(owner: u64, g: &MarginGroup, quote: u64) -> RiskAccount {
    let mut a = RiskAccount::new(owner, g);
    a.deposit(0, quote).unwrap();
    a
}

fn limit(side: Side, price: u64, quantity: u64) -> OrderRequest {
    OrderRequest {
        market_index: 0,
        side,
        price,
        quantity,
        order_type: OrderType::Limit,
        reduce_only: false,
    }
}

fn fills(events: &[Event]) -> Vec<(u64, u64, u64)> {
    events
        .iter()
        .filter(|e| e.kind == EventKind::Fill)
        .map(|e| (e.maker_order_id, e.base_qty, e.price))
        .collect()
}

#[test]
fn fifo_at_equal_price() {
    let g = group(10, 20);
    let cache = cache_at(PRICE_ONE, 0);
    let maker = funded(0, &g, 1_000_000);
    let taker = funded(1, &g, 1_000_000);
    let mut book = OrderBook::new();
    let mut queue = EventQueue::new(64);
    let a = place_perp_order(&mut book, &mut queue, &g, &cache, &maker, 0, &limit(Side::Ask, 100, 5), 0, 10).unwrap();
    let b = place_perp_order(&mut book, &mut queue, &g, &cache, &maker, 0, &limit(Side::Ask, 100, 5), 0, 10).unwrap();
    assert_eq!(book.asks.len(), 2);
    assert_eq!(book.asks[0].order_id, a);
    // crossing order smaller than A + B
    place_perp_order(&mut book, &mut queue, &g, &cache, &taker, 1, &limit(Side::Bid, 100, 7), 0, 10).unwrap();
    assert_eq!(fills(&queue.events), vec![(a, 5, 100), (b, 2, 100)]);
    assert_eq!(book.asks, vec![Order { owner: 0, order_id: b, price: 100, quantity: 3 }]);
    assert!(book.bids.is_empty());
}

#[test]
fn book_keeps_price_time_priority() {
    let g = group(10, 20);
    let cache = cache_at(PRICE_ONE, 0);
    let maker = funded(0, &g, 1_000_000);
    let mut book = OrderBook::new();
    let mut queue = EventQueue::new(64);
    let prices = [101, 99, 100, 99];
    for p in prices {
        place_perp_order(&mut book, &mut queue, &g, &cache, &maker, 0, &limit(Side::Bid, p, 1), 0, 10).unwrap();
    }
    let order: Vec<(u64, u64)> = book.bids.iter().map(|o| (o.price, o.order_id)).collect();
    assert_eq!(order, vec![(101, 0), (100, 2), (99, 1), (99, 3)]);
    assert!(queue.events.is_empty());
}

#[test]
fn taker_trades_at_maker_price_across_levels() {
    let g = group(10, 20);
    let cache = cache_at(PRICE_ONE, 0);
    let maker = funded(0, &g, 1_000_000);
    let taker = funded(1, &g, 1_000_000);
    let mut book = OrderBook::new();
    let mut queue = EventQueue::new(64);
    let a = place_perp_order(&mut book, &mut queue, &g, &cache, &maker, 0, &limit(Side::Bid, 98, 4), 0, 10).unwrap();
    let b = place_perp_order(&mut book, &mut queue, &g, &cache, &maker, 0, &limit(Side::Bid, 99, 3), 0, 10).unwrap();
    let t = place_perp_order(&mut book, &mut queue, &g, &cache, &taker, 1, &limit(Side::Ask, 97, 10), 0, 10).unwrap();
    assert_eq!(fills(&queue.events), vec![(b, 3, 99), (a, 4, 98)]);
    assert_eq!(queue.events[0].quote_qty, 297);
    assert_eq!(queue.events[0].taker, 1);
    assert_eq!(queue.events[1].kind, EventKind::Out);
    assert_eq!(queue.events[1].maker_order_id, b);
    assert!(book.bids.is_empty());
    assert_eq!(book.asks, vec![Order { owner: 1, order_id: t, price: 97, quantity: 3 }]);
}

#[test]
fn matched_quantity_is_conserved() {
    let side = vec![
        Order { owner: 0, order_id: 0, price: 10, quantity: 4 },
        Order { owner: 1, order_id: 1, price: 11, quantity: 6 },
        Order { owner: 2, order_id: 2, price: 12, quantity: 5 },
    ];
    let taker = Taker { market_index: 0, owner: 3, side: Side::Bid, limit: 11 };
    let (rest, events, left) = match_against(&side, &taker, 8);
    let before: u64 = side.iter().map(|o| o.quantity).sum();
    let after: u64 = rest.iter().map(|o| o.quantity).sum();
    let filled: u64 = events.iter().filter(|e| e.kind == EventKind::Fill).map(|e| e.base_qty).sum();
    assert_eq!(left, 0);
    assert_eq!(filled, 8);
    assert_eq!(before - after, filled);
    for e in events.iter().filter(|e| e.kind == EventKind::Fill) {
        let maker = side.iter().find(|o| o.order_id == e.maker_order_id).unwrap();
        assert!(e.base_qty <= maker.quantity);
    }
    assert_eq!(rest[0], Order { owner: 1, order_id: 1, price: 11, quantity: 2 });
    let (_, events2, left2) = match_against(&side, &taker, 20);
    assert_eq!(left2, 10);
    let filled2: u64 = events2.iter().filter(|e| e.kind == EventKind::Fill).map(|e| e.base_qty).sum();
    assert_eq!(filled2, 10);
}

#[test]
fn immediate_or_cancel_discards_remainder() {
    let g = group(10, 20);
    let cache = cache_at(PRICE_ONE, 0);
    let maker = funded(0, &g, 1_000_000);
    let taker = funded(1, &g, 1_000_000);
    let mut book = OrderBook::new();
    let mut queue = EventQueue::new(64);
    place_perp_order(&mut book, &mut queue, &g, &cache, &maker, 0, &limit(Side::Ask, 50, 2), 0, 10).unwrap();
    let mut req = limit(Side::Bid, 50, 5);
    req.order_type = OrderType::ImmediateOrCancel;
    let id = place_perp_order(&mut book, &mut queue, &g, &cache, &taker, 1, &req, 0, 10).unwrap();
    assert!(book.asks.is_empty() && book.bids.is_empty());
    let last = queue.events[queue.events.len() - 1];
    assert_eq!(last.kind, EventKind::Out);
    assert_eq!(last.maker_order_id, id);
    assert_eq!(last.base_qty, 3);
    assert_eq!(book.next_order_id, id + 1);
}

#[test]
fn market_order_ignores_price() {
    let g = group(10, 20);
    let cache = cache_at(PRICE_ONE, 0);
    let maker = funded(0, &g, 1_000_000);
    let taker = funded(1, &g, 1_000_000);
    let mut book = OrderBook::new();
    let mut queue = EventQueue::new(64);
    place_perp_order(&mut book, &mut queue, &g, &cache, &maker, 0, &limit(Side::Ask, 1_000, 2), 0, 10).unwrap();
    let mut req = limit(Side::Bid, 0, 2);
    req.order_type = OrderType::Market;
    place_perp_order(&mut book, &mut queue, &g, &cache, &taker, 1, &req, 0, 10).unwrap();
    assert_eq!(fills(&queue.events), vec![(0, 2, 1_000)]);
    assert!(book.asks.is_empty());
}

#[test]
fn invalid_orders_are_rejected() {
    let g = group(10, 20);
    let cache = cache_at(PRICE_ONE, 0);
    let acct = funded(0, &g, 1_000);
    let mut book = OrderBook::new();
    let mut queue = EventQueue::new(8);
    let zero_qty = limit(Side::Bid, 10, 0);
    assert_eq!(place_perp_order(&mut book, &mut queue, &g, &cache, &acct, 0, &zero_qty, 0, 10), Err(EngineError::InvalidLotSize));
    let zero_price = limit(Side::Bid, 0, 1);
    assert_eq!(place_perp_order(&mut book, &mut queue, &g, &cache, &acct, 0, &zero_price, 0, 10), Err(EngineError::InvalidLotSize));
    let mut bad_market = limit(Side::Bid, 10, 1);
    bad_market.market_index = 1;
    assert_eq!(place_perp_order(&mut book, &mut queue, &g, &cache, &acct, 0, &bad_market, 0, 10), Err(EngineError::AccountMismatch));
    assert!(book.bids.is_empty());
    assert_eq!(book.next_order_id, 0);
}

#[test]
fn stale_cache_blocks_matching() {
    let g = group(10, 20);
    let cache = cache_at(PRICE_ONE, 100);
    let maker = funded(0, &g, 1_000_000);
    let taker = funded(1, &g, 1_000_000);
    let mut book = OrderBook::new();
    let mut queue = EventQueue::new(64);
    place_perp_order(&mut book, &mut queue, &g, &cache, &maker, 0, &limit(Side::Ask, 10, 5), 105, 10).unwrap();
    let r = place_perp_order(&mut book, &mut queue, &g, &cache, &taker, 1, &limit(Side::Bid, 10, 5), 111, 10);
    assert_eq!(r, Err(EngineError::PriceStale));
    assert_eq!(book.asks.len(), 1);
    assert_eq!(book.asks[0].quantity, 5);
    assert!(queue.events.is_empty());
}

#[test]
fn reduce_only_cannot_grow_long() {
    let g = group(10, 20);
    let cache = cache_at(PRICE_ONE, 0);
    let mut acct = funded(1, &g, 1_000_000);
    acct.perp_positions[0] = PerpPosition { base_position: 10, quote_position: -10 };
    let maker = funded(0, &g, 1_000_000);
    let mut book = OrderBook::new();
    let mut queue = EventQueue::new(64);
    place_perp_order(&mut book, &mut queue, &g, &cache, &maker, 0, &limit(Side::Ask, 1, 20), 0, 10).unwrap();
    let mut grow = limit(Side::Bid, 1, 1);
    grow.reduce_only = true;
    assert_eq!(place_perp_order(&mut book, &mut queue, &g, &cache, &acct, 1, &grow, 0, 10), Err(EngineError::ReduceOnlyViolation));
    assert_eq!(book.asks[0].quantity, 20);
    assert!(queue.events.is_empty());
}

#[test]
fn reduce_only_is_capped_at_position() {
    let g = group(10, 20);
    let cache = cache_at(PRICE_ONE, 0);
    let mut acct = funded(1, &g, 1_000_000);
    acct.perp_positions[0] = PerpPosition { base_position: 10, quote_position: -10 };
    let maker = funded(0, &g, 1_000_000);
    let mut book = OrderBook::new();
    let mut queue = EventQueue::new(64);
    place_perp_order(&mut book, &mut queue, &g, &cache, &maker, 0, &limit(Side::Bid, 1, 50), 0, 10).unwrap();
    let mut reduce = limit(Side::Ask, 1, 15);
    reduce.reduce_only = true;
    reduce.order_type = OrderType::ImmediateOrCancel;
    place_perp_order(&mut book, &mut queue, &g, &cache, &acct, 1, &reduce, 0, 10).unwrap();
    assert_eq!(fills(&queue.events), vec![(0, 10, 1)]);
    assert_eq!(book.bids[0].quantity, 40);
    let mut accounts = vec![maker, acct];
    assert_eq!(consume_events(&mut queue, &mut accounts, &g, 64), Ok(1));
    assert_eq!(accounts[1].perp_positions[0].base_position, 0);
}

#[test]
fn full_event_queue_rejects_and_rolls_back() {
    let g = group(10, 20);
    let cache = cache_at(PRICE_ONE, 0);
    let maker = funded(0, &g, 1_000_000);
    let taker = funded(1, &g, 1_000_000);
    let mut book = OrderBook::new();
    let mut queue = EventQueue::new(3);
    place_perp_order(&mut book, &mut queue, &g, &cache, &maker, 0, &limit(Side::Ask, 10, 4), 0, 10).unwrap();
    place_perp_order(&mut book, &mut queue, &g, &cache, &maker, 0, &limit(Side::Ask, 10, 4), 0, 10).unwrap();
    // a full fill of the first ask produces a fill and an exit
    place_perp_order(&mut book, &mut queue, &g, &cache, &taker, 1, &limit(Side::Bid, 10, 4), 0, 10).unwrap();
    assert_eq!(queue.events.len(), 2);
    // one slot left: a partial fill fits
    place_perp_order(&mut book, &mut queue, &g, &cache, &taker, 1, &limit(Side::Bid, 10, 1), 0, 10).unwrap();
    assert_eq!(queue.events.len(), 3);
    assert_eq!(queue.free_space(), 0);
    let asks_before = book.asks.clone();
    let next_before = book.next_order_id;
    let r = place_perp_order(&mut book, &mut queue, &g, &cache, &taker, 1, &limit(Side::Bid, 10, 1), 0, 10);
    assert_eq!(r, Err(EngineError::EventQueueFull));
    assert_eq!(book.asks, asks_before);
    assert!(book.bids.is_empty());
    assert_eq!(book.next_order_id, next_before);
    assert_eq!(queue.events.len(), 3);
    let mut accounts = vec![maker, taker];
    assert_eq!(consume_events(&mut queue, &mut accounts, &g, 64), Ok(3));
    assert_eq!(accounts[1].perp_positions[0], PerpPosition { base_position: 5, quote_position: -50 });
    assert_eq!(accounts[0].perp_positions[0], PerpPosition { base_position: -5, quote_position: 50 });
    let r2 = place_perp_order(&mut book, &mut queue, &g, &cache, &accounts[1], 1, &limit(Side::Bid, 10, 1), 0, 10);
    assert!(r2.is_ok());
}

#[test]
fn cancel_removes_only_own_orders() {
    let g = group(10, 20);
    let cache = cache_at(PRICE_ONE, 0);
    let maker = funded(0, &g, 1_000_000);
    let mut book = OrderBook::new();
    let mut queue = EventQueue::new(8);
    let id = place_perp_order(&mut book, &mut queue, &g, &cache, &maker, 0, &limit(Side::Bid, 10, 4), 0, 10).unwrap();
    assert_eq!(book.cancel_order(1, id), Err(EngineError::OrderNotFound));
    assert_eq!(book.cancel_order(0, id + 1), Err(EngineError::OrderNotFound));
    assert_eq!(book.bids.len(), 1);
    let removed = book.cancel_order(0, id).unwrap();
    assert_eq!(removed, Order { owner: 0, order_id: id, price: 10, quantity: 4 });
    assert!(book.bids.is_empty());
    assert_eq!(book.cancel_order(0, id), Err(EngineError::OrderNotFound));
}

#[test]
fn consume_events_settles_in_order_and_stops_on_error() {
    let g = group(10, 20);
    let mut queue = EventQueue::new(8);
    let fill = Event {
        kind: EventKind::Fill,
        market_index: 0,
        maker: 0,
        taker: 1,
        taker_side: Side::Ask,
        maker_order_id: 0,
        price: 7,
        base_qty: 3,
        quote_qty: 21,
    };
    let mut bad = fill;
    bad.maker = 5;
    queue.push_all(&vec![fill, bad, fill]).unwrap();
    let mut accounts = vec![RiskAccount::new(0, &g), RiskAccount::new(1, &g)];
    assert_eq!(consume_events(&mut queue, &mut accounts, &g, 8), Err(EngineError::AccountMismatch));
    assert_eq!(queue.events.len(), 2);
    assert_eq!(accounts[0].perp_positions[0], PerpPosition { base_position: 3, quote_position: -21 });
    assert_eq!(accounts[1].perp_positions[0], PerpPosition { base_position: -3, quote_position: 21 });
    assert_eq!(queue.pop_front(), Some(bad));
    assert_eq!(consume_events(&mut queue, &mut accounts, &g, 0), Ok(0));
    assert_eq!(consume_events(&mut queue, &mut accounts, &g, 8), Ok(1));
    assert_eq!(accounts[1].perp_positions[0].base_position, -6);
    assert_eq!(queue.seq_num, 3);
}

#[test]
fn maintenance_health_flips_with_extra_notional() {
    // account A deposits 1,000 quote units; the market's leverage is 10x
    let g = group(10, 10);
    let cache = cache_at(PRICE_ONE, 0);
    let mut a = funded(0, &g, 1_000);
    let b = funded(1, &g, 100_000);
    let mut book = OrderBook::new();
    let mut queue = EventQueue::new(64);
    place_perp_order(&mut book, &mut queue, &g, &cache, &b, 1, &limit(Side::Ask, 1, 9_500), 0, 10).unwrap();
    place_perp_order(&mut book, &mut queue, &g, &cache, &a, 0, &limit(Side::Bid, 1, 9_500), 0, 10).unwrap();
    let mut accounts = vec![a, b];
    consume_events(&mut queue, &mut accounts, &g, 64).unwrap();
    a = accounts.remove(0);
    let b = accounts.remove(0);
    assert_eq!(a.perp_positions[0], PerpPosition { base_position: 9_500, quote_position: -9_500 });
    let pre = compute_health(&a, &g, &cache, HealthVariant::Maintenance, 0, 10).unwrap();
    assert!(pre >= 0);
    assert_eq!(pre, 50 * PRICE_ONE as i128);
    // an additional 1,000 of notional is rejected
    place_perp_order(&mut book, &mut queue, &g, &cache, &b, 1, &limit(Side::Ask, 1, 1_000), 0, 10).unwrap();
    let events_before = queue.events.len();
    let r = place_perp_order(&mut book, &mut queue, &g, &cache, &a, 0, &limit(Side::Bid, 1, 1_000), 0, 10);
    assert_eq!(r, Err(EngineError::InsufficientHealth));
    assert_eq!(queue.events.len(), events_before);
    assert_eq!(book.asks[0].quantity, 1_000);
    // had it filled, maintenance health would be negative
    let mut post = RiskAccount::new(0, &g);
    post.deposits = a.deposits.clone();
    post.perp_positions[0] = PerpPosition { base_position: 10_500, quote_position: -10_500 };
    let post_health = compute_health(&post, &g, &cache, HealthVariant::Maintenance, 0, 10).unwrap();
    assert!(post_health < 0);
    assert_eq!(post_health, -50 * PRICE_ONE as i128);
}
