use vstd::prelude::*;

verus! {

/// Every way an engine operation can fail. Each is terminal for the
/// instruction that raised it: the operation leaves its inputs unchanged.
#[derive(Clone, Copy, Debug, PartialEq, Eq, Structural)]
pub enum EngineError {
    /// A feed's own timestamp went backwards relative to the cached entry.
    StaleOracleSource,
    /// No usable price exists for the asset.
    PriceUnavailable,
    /// The cached price is older than the caller's staleness bound.
    PriceStale,
    /// The account's health would be negative.
    InsufficientHealth,
    /// A reduce-only order would grow the position.
    ReduceOnlyViolation,
    /// The event queue cannot take every event the operation produces.
    EventQueueFull,
    /// No resting order with that id belongs to the caller.
    OrderNotFound,
    /// An index or reference does not name an existing asset, market or account.
    AccountMismatch,
    /// A price or quantity is zero or outside the market's representable range.
    InvalidLotSize,
    /// A withdrawal exceeds the deposit and borrowing was not allowed.
    InsufficientFunds,
    /// A balance or position would leave its representable range.
    Overflow,
}

} // verus!
