use mango_engine::error::EngineError;
use mango_engine::oracle::{normalize_price, RawFeed, MAX_PRICE, PRICE_ONE};
use mango_engine::price_cache::PriceCache;

#[test]
fn normalize_fixed_feed_keeps_price() {
    let feed = RawFeed::Fixed { price: 2_500_000, publish_slot: 1 };
    assert_eq!(normalize_price(&feed), Ok(2_500_000));
}

#[test]
fn normalize_scaled_feed_rescales() {
    let feed = RawFeed::Scaled { mantissa: 12345, decimals: 2, publish_slot: 1 };
    assert_eq!(normalize_price(&feed), Ok(123_450_000));
}

#[test]
fn normalize_scaled_feed_truncates() {
    let feed = RawFeed::Scaled { mantissa: 1_234_567, decimals: 9, publish_slot: 1 };
    assert_eq!(normalize_price(&feed), Ok(1234));
}

#[test]
fn normalize_rejects_unusable_feeds() {
    let zero = RawFeed::Fixed { price: 0, publish_slot: 1 };
    assert_eq!(normalize_price(&zero), Err(EngineError::PriceUnavailable));
    let huge = RawFeed::Fixed { price: MAX_PRICE + 1, publish_slot: 1 };
    assert_eq!(normalize_price(&huge), Err(EngineError::PriceUnavailable));
    let tiny = RawFeed::Scaled { mantissa: 1, decimals: 7, publish_slot: 1 };
    assert_eq!(normalize_price(&tiny), Err(EngineError::PriceUnavailable));
    let bad_exp = RawFeed::Scaled { mantissa: 1, decimals: 19, publish_slot: 1 };
    assert_eq!(normalize_price(&bad_exp), Err(EngineError::PriceUnavailable));
    let largest = RawFeed::Fixed { price: MAX_PRICE, publish_slot: 1 };
    assert_eq!(normalize_price(&largest), Ok(MAX_PRICE));
}

#[test]
fn cache_refresh_then_read() {
    let mut cache = PriceCache::new(3);
    let feed = RawFeed::Fixed { price: 7 * PRICE_ONE, publish_slot: 10 };
    assert_eq!(cache.refresh(1, &feed, 100), Ok(()));
    assert_eq!(cache.read(1, 105, 10), Ok(7 * PRICE_ONE));
    let entry = cache.entries[1].unwrap();
    assert_eq!(entry.last_update_slot, 100);
    assert_eq!(entry.source_slot, 10);
}

#[test]
fn cache_quote_asset_is_one() {
    let cache = PriceCache::new(3);
    assert_eq!(cache.read(0, 1_000_000, 0), Ok(PRICE_ONE));
}

#[test]
fn cache_read_missing_is_unavailable() {
    let cache = PriceCache::new(3);
    assert_eq!(cache.read(2, 0, 10), Err(EngineError::PriceUnavailable));
    assert_eq!(cache.read(9, 0, 10), Err(EngineError::PriceUnavailable));
}

#[test]
fn cache_read_old_entry_is_stale() {
    let mut cache = PriceCache::new(2);
    let feed = RawFeed::Fixed { price: PRICE_ONE, publish_slot: 1 };
    cache.refresh(1, &feed, 100).unwrap();
    assert_eq!(cache.read(1, 110, 10), Ok(PRICE_ONE));
    assert_eq!(cache.read(1, 111, 10), Err(EngineError::PriceStale));
}

#[test]
fn cache_refuses_regressing_feed() {
    let mut cache = PriceCache::new(2);
    let newer = RawFeed::Fixed { price: 2 * PRICE_ONE, publish_slot: 50 };
    let older = RawFeed::Scaled { mantissa: 3, decimals: 0, publish_slot: 49 };
    cache.refresh(1, &newer, 100).unwrap();
    assert_eq!(cache.refresh(1, &older, 101), Err(EngineError::StaleOracleSource));
    assert_eq!(cache.read(1, 101, 10), Ok(2 * PRICE_ONE));
    let same_slot = RawFeed::Scaled { mantissa: 3, decimals: 0, publish_slot: 50 };
    assert_eq!(cache.refresh(1, &same_slot, 102), Ok(()));
    assert_eq!(cache.read(1, 102, 10), Ok(3 * PRICE_ONE));
}

#[test]
fn cache_refresh_unknown_asset() {
    let mut cache = PriceCache::new(2);
    let feed = RawFeed::Fixed { price: PRICE_ONE, publish_slot: 1 };
    assert_eq!(cache.refresh(2, &feed, 1), Err(EngineError::AccountMismatch));
}

#[test]
fn cache_refresh_unusable_feed_changes_nothing() {
    let mut cache = PriceCache::new(2);
    let feed = RawFeed::Fixed { price: 0, publish_slot: 1 };
    assert_eq!(cache.refresh(1, &feed, 1), Err(EngineError::PriceUnavailable));
    assert!(cache.entries[1].is_none());
}

#[test]
fn cache_snapshot_reports_first_failure() {
    let mut cache = PriceCache::new(3);
    cache.refresh(1, &RawFeed::Fixed { price: 5, publish_slot: 1 }, 0).unwrap();
    assert_eq!(cache.snapshot(2, 0, 10), Ok(vec![PRICE_ONE, 5]));
    assert_eq!(cache.snapshot(3, 0, 10), Err(EngineError::PriceUnavailable));
    assert_eq!(cache.snapshot(2, 11, 10), Err(EngineError::PriceStale));
}
