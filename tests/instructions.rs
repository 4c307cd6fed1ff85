use mango_engine::account::{MarginGroup, MarketConfig, PerpPosition};
use mango_engine::book::to_lots;
use mango_engine::engine::{OrderRequest, OrderType};
use mango_engine::error::EngineError;
use mango_engine::oracle::{RawFeed, PRICE_ONE};
use mango_engine::processor::{Engine, Instruction, Outcome};
use mango_engine::queue::{EventKind, Side};

fn engine() -> Engine {
    let group = MarginGroup {
        num_assets: 2,
        markets: vec![MarketConfig {
            base_asset: 1,
            base_lot_size: 10,
            quote_lot_size: 5,
            init_leverage: 5,
            maint_leverage: 10,
        }],
    };
    Engine::new(group, 16)
}

fn order(side: Side, price: u64, quantity: u64) -> OrderRequest {
    OrderRequest {
        market_index: 0,
        side,
        price,
        quantity,
        order_type: OrderType::Limit,
        reduce_only: false,
    }
}

#[test]
fn lots_truncate_fractions() {
    assert_eq!(to_lots(105, 10), Ok(10));
    assert_eq!(to_lots(9, 10), Ok(0));
    assert_eq!(to_lots(100, 10), Ok(10));
    assert_eq!(to_lots(5, 0), Err(EngineError::InvalidLotSize));
}

#[test]
fn engine_starts_empty() {
    let e = engine();
    assert!(e.accounts.is_empty());
    assert_eq!(e.markets.len(), 1);
    assert_eq!(e.markets[0].queue.capacity, 16);
    assert!(e.cache.entries.iter().all(|x| x.is_none()));
}

#[test]
fn instructions_run_a_full_trade() {
    let mut e = engine();
    assert_eq!(
        e.process(11, &Instruction::InitAccount, 0, 5),
        Ok(Outcome::AccountCreated { account: 0 })
    );
    assert_eq!(
        e.process(12, &Instruction::InitAccount, 0, 5),
        Ok(Outcome::AccountCreated { account: 1 })
    );
    assert_eq!(e.accounts[1].owner, 12);
    let feed = RawFeed::Fixed { price: 2 * PRICE_ONE, publish_slot: 3 };
    assert_eq!(e.process(0, &Instruction::RefreshPrice { asset_index: 1, feed }, 1, 5), Ok(Outcome::Done));
    for account in 0..2 {
        let dep = Instruction::Deposit { account, asset_index: 0, amount: 1_000_000 };
        assert_eq!(e.process(11 + account as u64, &dep, 1, 5), Ok(Outcome::Done));
    }
    let ask = Instruction::PlacePerpOrder { account: 0, order: order(Side::Ask, 4, 30) };
    assert_eq!(e.process(11, &ask, 2, 5), Ok(Outcome::OrderPlaced { order_id: 0 }));
    let bid = Instruction::PlacePerpOrder { account: 1, order: order(Side::Bid, 5, 20) };
    assert_eq!(e.process(12, &bid, 2, 5), Ok(Outcome::OrderPlaced { order_id: 1 }));
    let q = &e.markets[0].queue.events;
    assert_eq!(q.len(), 1);
    assert_eq!(q[0].kind, EventKind::Fill);
    assert_eq!((q[0].base_qty, q[0].price, q[0].quote_qty), (20, 4, 80));
    let consume = Instruction::ConsumeEvents { market_index: 0, max_events: 10 };
    assert_eq!(e.process(0, &consume, 3, 5), Ok(Outcome::EventsConsumed { count: 1 }));
    // 80 quote lots of 5 native units each
    assert_eq!(e.accounts[1].perp_positions[0], PerpPosition { base_position: 20, quote_position: -400 });
    assert_eq!(e.accounts[0].perp_positions[0], PerpPosition { base_position: -20, quote_position: 400 });
    let cancel = Instruction::CancelOrder { account: 0, market_index: 0, order_id: 0 };
    match e.process(11, &cancel, 3, 5) {
        Ok(Outcome::OrderCancelled { order }) => assert_eq!(order.quantity, 10),
        other => panic!("unexpected {:?}", other),
    }
    assert_eq!(e.process(11, &cancel, 3, 5), Err(EngineError::OrderNotFound));
    let wd = Instruction::Withdraw { account: 0, asset_index: 0, amount: 10, allow_borrow: false };
    assert_eq!(e.process(11, &wd, 3, 5), Ok(Outcome::Done));
    assert_eq!(e.accounts[0].deposits[0], 999_990);
}

#[test]
fn instructions_reject_unknown_references() {
    let mut e = engine();
    e.process(1, &Instruction::InitAccount, 0, 5).unwrap();
    let bad_account = Instruction::Deposit { account: 1, asset_index: 0, amount: 5 };
    assert_eq!(e.process(1, &bad_account, 0, 5), Err(EngineError::AccountMismatch));
    let bad_asset = Instruction::Deposit { account: 0, asset_index: 2, amount: 5 };
    assert_eq!(e.process(1, &bad_asset, 0, 5), Err(EngineError::AccountMismatch));
    let mut o = order(Side::Bid, 1, 1);
    o.market_index = 1;
    let bad_market = Instruction::PlacePerpOrder { account: 0, order: o };
    assert_eq!(e.process(1, &bad_market, 0, 5), Err(EngineError::AccountMismatch));
    let bad_consume = Instruction::ConsumeEvents { market_index: 3, max_events: 1 };
    assert_eq!(e.process(1, &bad_consume, 0, 5), Err(EngineError::AccountMismatch));
    let bad_refresh = Instruction::RefreshPrice { asset_index: 2, feed: RawFeed::Fixed { price: 1, publish_slot: 0 } };
    assert_eq!(e.process(1, &bad_refresh, 0, 5), Err(EngineError::AccountMismatch));
    let bad_withdraw = Instruction::Withdraw { account: 4, asset_index: 0, amount: 1, allow_borrow: true };
    assert_eq!(e.process(1, &bad_withdraw, 0, 5), Err(EngineError::AccountMismatch));
    assert_eq!(e.accounts[0].deposits, vec![0, 0]);
}

#[test]
fn instructions_require_the_owner() {
    let mut e = engine();
    e.process(1, &Instruction::InitAccount, 0, 5).unwrap();
    e.process(2, &Instruction::InitAccount, 0, 5).unwrap();
    let dep = Instruction::Deposit { account: 0, asset_index: 0, amount: 5 };
    assert_eq!(e.process(2, &dep, 0, 5), Err(EngineError::AccountMismatch));
    assert_eq!(e.process(1, &dep, 0, 5), Ok(Outcome::Done));
    let wd = Instruction::Withdraw { account: 0, asset_index: 0, amount: 5, allow_borrow: false };
    assert_eq!(e.process(2, &wd, 0, 5), Err(EngineError::AccountMismatch));
    let place = Instruction::PlacePerpOrder { account: 0, order: order(Side::Bid, 1, 1) };
    assert_eq!(e.process(2, &place, 0, 5), Err(EngineError::AccountMismatch));
    let cancel = Instruction::CancelOrder { account: 0, market_index: 0, order_id: 0 };
    assert_eq!(e.process(2, &cancel, 0, 5), Err(EngineError::AccountMismatch));
    assert_eq!(e.accounts[0].deposits[0], 5);
}

#[test]
fn order_without_price_is_unavailable() {
    let mut e = engine();
    e.process(1, &Instruction::InitAccount, 0, 5).unwrap();
    e.process(1, &Instruction::Deposit { account: 0, asset_index: 0, amount: 1_000 }, 0, 5).unwrap();
    let ix = Instruction::PlacePerpOrder { account: 0, order: order(Side::Bid, 1, 1) };
    assert_eq!(e.process(1, &ix, 0, 5), Err(EngineError::PriceUnavailable));
    assert!(e.markets[0].book.bids.is_empty());
}
