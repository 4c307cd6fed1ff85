//! Risk accounting and perpetual-futures matching for a cross-margined
//! trading engine: an oracle price cache, account valuation, a price-time
//! priority order book, and the event queue that links matching to
//! settlement.
pub mod account;
pub mod book;
pub mod engine;
pub mod error;
pub mod matching;
pub mod oracle;
pub mod price_cache;
pub mod processor;
pub mod queue;
pub mod settle;
