use vstd::prelude::*;

use crate::error::EngineError;
use crate::oracle::{feed_slot, feed_usable, feed_value, normalize_price, RawFeed, PRICE_ONE, MAX_PRICE};

verus! {

/// The asset every balance is valued in; its price is one by definition.
pub const QUOTE_INDEX: usize = 0;

/// The last accepted price of one asset.
#[derive(Clone, Copy, Debug, PartialEq, Eq, Structural)]
pub struct PriceEntry {
    /// Fixed-point price, in `(0, MAX_PRICE]`.
    pub price: u64,
    /// The slot at which the cache accepted the price.
    pub last_update_slot: u64,
    /// The feed's own timestamp for the accepted price.
    pub source_slot: u64,
}

/// One optional entry per listed asset.
pub struct PriceCache {
    pub entries: Vec<Option<PriceEntry>>,
}

/// The outcome of reading one asset's price with a staleness bound.
pub open spec fn read_spec(
    entries: Seq<Option<PriceEntry>>,
    asset_index: int,
    now_slot: u64,
    max_staleness: u64,
) -> Result<u64, EngineError> {
    if asset_index == QUOTE_INDEX {
        Ok(PRICE_ONE)
    } else if asset_index < 0 || asset_index >= entries.len() {
        Err(EngineError::PriceUnavailable)
    } else {
        match entries[asset_index] {
            None => Err(EngineError::PriceUnavailable),
            Some(e) => if now_slot >= e.last_update_slot && now_slot - e.last_update_slot
                > max_staleness {
                Err(EngineError::PriceStale)
            } else {
                Ok(e.price)
            },
        }
    }
}

/// The outcome of reading the prices of the first `n` assets, stopping at
/// the first failure.
pub open spec fn snapshot_spec(
    entries: Seq<Option<PriceEntry>>,
    n: int,
    now_slot: u64,
    max_staleness: u64,
) -> Result<Seq<u64>, EngineError>
    decreases n,
{
    if n <= 0 {
        Ok(Seq::empty())
    } else {
        match snapshot_spec(entries, n - 1, now_slot, max_staleness) {
            Err(e) => Err(e),
            Ok(s) => match read_spec(entries, n - 1, now_slot, max_staleness) {
                Err(e) => Err(e),
                Ok(p) => Ok(s.push(p)),
            },
        }
    }
}

impl PriceCache {
    pub open spec fn wf(&self) -> bool {
        forall|i: int|
            0 <= i < self.entries@.len() && #[trigger] self.entries@[i] is Some ==> 0
                < self.entries@[i]->Some_0.price <= MAX_PRICE
    }

    /// A cache for `num_assets` assets, none of them priced yet.
    pub fn new(num_assets: usize) -> (r: PriceCache)
        ensures
            r.wf(),
            r.entries@.len() == num_assets,
            forall|i: int| 0 <= i < num_assets ==> #[trigger] r.entries@[i] is None,
    {
        let mut entries: Vec<Option<PriceEntry>> = Vec::new();
        let mut i: usize = 0;
        while i < num_assets
            invariant
                i <= num_assets,
                entries@.len() == i,
                forall|j: int| 0 <= j < i ==> #[trigger] entries@[j] is None,
            decreases num_assets - i,
        {
            entries.push(None);
            i = i + 1;
        }
        PriceCache { entries }
    }

    /// Accepts a new price for `asset_index` from `feed`, stamped with
    /// `now_slot`. Fails with `AccountMismatch` for an unknown asset,
    /// `StaleOracleSource` when the feed's timestamp is older than the one
    /// last accepted, and `PriceUnavailable` when the feed is not usable.
    pub fn refresh(&mut self, asset_index: usize, feed: &RawFeed, now_slot: u64) -> (r: Result<
        (),
        EngineError,
    >)
        requires
            old(self).wf(),
        ensures
            final(self).wf(),
            asset_index >= old(self).entries@.len() ==> r == Err::<(), EngineError>(
                EngineError::AccountMismatch,
            ),
            asset_index < old(self).entries@.len() && old(self).entries@[asset_index as int] is Some
                && feed_slot(*feed) < old(self).entries@[asset_index as int]->Some_0.source_slot
                ==> r == Err::<(), EngineError>(EngineError::StaleOracleSource),
            asset_index < old(self).entries@.len() && !(old(self).entries@[asset_index as int] is Some
                && feed_slot(*feed) < old(self).entries@[asset_index as int]->Some_0.source_slot)
                ==> (feed_usable(*feed) <==> r is Ok),
            r is Err ==> *final(self) == *old(self),
            !feed_usable(*feed) && asset_index < old(self).entries@.len() && !(
            old(self).entries@[asset_index as int] is Some && feed_slot(*feed) < old(
                self,
            ).entries@[asset_index as int]->Some_0.source_slot) ==> r == Err::<(), EngineError>(
                EngineError::PriceUnavailable,
            ),
            r is Ok ==> final(self).entries@ == old(self).entries@.update(
                asset_index as int,
                Some(
                    PriceEntry {
                        price: feed_value(*feed) as u64,
                        last_update_slot: now_slot,
                        source_slot: feed_slot(*feed),
                    },
                ),
            ),
    {
        if asset_index >= self.entries.len() {
            return Err(EngineError::AccountMismatch);
        }
        let slot = match feed {
            RawFeed::Fixed { publish_slot, .. } => *publish_slot,
            RawFeed::Scaled { publish_slot, .. } => *publish_slot,
        };
        match self.entries[asset_index] {
            Some(e) => {
                if slot < e.source_slot {
                    return Err(EngineError::StaleOracleSource);
                }
            },
            None => {},
        }
        let price = normalize_price(feed)?;
        self.entries.set(
            asset_index,
            Some(PriceEntry { price, last_update_slot: now_slot, source_slot: slot }),
        );
        Ok(())
    }

    /// The price of `asset_index`, provided it was updated no more than
    /// `max_staleness` slots before `now_slot`. The quote asset is always
    /// priced at one.
    pub fn read(&self, asset_index: usize, now_slot: u64, max_staleness: u64) -> (r: Result<
        u64,
        EngineError,
    >)
        ensures
            r == read_spec(self.entries@, asset_index as int, now_slot, max_staleness),
    {
        if asset_index == QUOTE_INDEX {
            return Ok(PRICE_ONE);
        }
        if asset_index >= self.entries.len() {
            return Err(EngineError::PriceUnavailable);
        }
        match self.entries[asset_index] {
            None => Err(EngineError::PriceUnavailable),
            Some(e) => {
                if now_slot >= e.last_update_slot && now_slot - e.last_update_slot > max_staleness {
                    Err(EngineError::PriceStale)
                } else {
                    Ok(e.price)
                }
            },
        }
    }

    /// The prices of the first `n` assets, each read with the same
    /// staleness bound; the first asset that cannot be read decides the
    /// error.
    pub fn snapshot(&self, n: usize, now_slot: u64, max_staleness: u64) -> (r: Result<
        Vec<u64>,
        EngineError,
    >)
        ensures
            match snapshot_spec(self.entries@, n as int, now_slot, max_staleness) {
                Ok(s) => r matches Ok(v) && v@ == s,
                Err(e) => r == Err::<Vec<u64>, EngineError>(e),
            },
    {
        let mut out: Vec<u64> = Vec::new();
        let mut i: usize = 0;
        while i < n
            invariant
                i <= n,
                snapshot_spec(self.entries@, i as int, now_slot, max_staleness) == Ok::<
                    Seq<u64>,
                    EngineError,
                >(out@),
            decreases n - i,
        {
            let p = self.read(i, now_slot, max_staleness);
            match p {
                Err(e) => {
                    proof {
                        lemma_snapshot_err_sticks(
                            self.entries@,
                            (i + 1) as int,
                            n as int,
                            now_slot,
                            max_staleness,
                        );
                    }
                    return Err(e);
                },
                Ok(v) => {
                    out.push(v);
                },
            }
            i = i + 1;
        }
        Ok(out)
    }
}

proof fn lemma_snapshot_err_sticks(
    entries: Seq<Option<PriceEntry>>,
    a: int,
    b: int,
    now_slot: u64,
    max_staleness: u64,
)
    requires
        0 < a <= b,
        snapshot_spec(entries, a, now_slot, max_staleness) is Err,
    ensures
        snapshot_spec(entries, b, now_slot, max_staleness) == snapshot_spec(
            entries,
            a,
            now_slot,
            max_staleness,
        ),
    decreases b - a,
{
    if a < b {
        lemma_snapshot_err_sticks(entries, a, b - 1, now_slot, max_staleness);
    }
}

/// A successful snapshot has one price per asset, each in `(0, MAX_PRICE]`.
pub proof fn lemma_snapshot_prices(
    entries: Seq<Option<PriceEntry>>,
    n: int,
    now_slot: u64,
    max_staleness: u64,
)
    requires
        forall|i: int|
            0 <= i < entries.len() && #[trigger] entries[i] is Some ==> 0 < entries[i]->Some_0.price
                <= MAX_PRICE,
        snapshot_spec(entries, n, now_slot, max_staleness) is Ok,
    ensures
        ({
            let s = snapshot_spec(entries, n, now_slot, max_staleness)->Ok_0;
            &&& s.len() == if n < 0 { 0 } else { n }
            &&& forall|i: int|
                0 <= i < s.len() ==> s[i] == read_spec(entries, i, now_slot, max_staleness)->Ok_0
                    && 0 < #[trigger] s[i] <= MAX_PRICE
        }),
    decreases n,
{
    if n > 0 {
        lemma_snapshot_prices(entries, n - 1, now_slot, max_staleness);
    }
}

/// Whether entry `i` is present and older than the staleness bound.
pub open spec fn is_stale(entries: Seq<Option<PriceEntry>>, i: int, now_slot: u64, max_staleness: u64) -> bool {
    &&& entries[i] is Some
    &&& now_slot >= entries[i]->Some_0.last_update_slot
    &&& now_slot - entries[i]->Some_0.last_update_slot > max_staleness
}

/// When every non-quote asset below `n` has a cached price and one of them
/// is stale, reading the first `n` prices fails with `PriceStale`.
pub proof fn lemma_snapshot_stale(entries: Seq<Option<PriceEntry>>, n: int, now_slot: u64, max_staleness: u64)
    requires
        n <= entries.len(),
        forall|i: int| 0 < i < n ==> #[trigger] entries[i] is Some,
        exists|i: int| 0 < i < n && #[trigger] is_stale(entries, i, now_slot, max_staleness),
    ensures
        snapshot_spec(entries, n, now_slot, max_staleness) == Err::<Seq<u64>, EngineError>(
            EngineError::PriceStale,
        ),
    decreases n,
{
    if is_stale(entries, n - 1, now_slot, max_staleness) && n - 1 > 0 {
        if exists|i: int| 0 < i < n - 1 && #[trigger] is_stale(entries, i, now_slot, max_staleness) {
            lemma_snapshot_stale(entries, n - 1, now_slot, max_staleness);
        } else {
            lemma_snapshot_ok_when_fresh(entries, n - 1, now_slot, max_staleness);
        }
    } else {
        let i = choose|i: int| 0 < i < n && #[trigger] is_stale(entries, i, now_slot, max_staleness);
        assert(i < n - 1);
        lemma_snapshot_stale(entries, n - 1, now_slot, max_staleness);
    }
}

proof fn lemma_snapshot_ok_when_fresh(entries: Seq<Option<PriceEntry>>, n: int, now_slot: u64, max_staleness: u64)
    requires
        n <= entries.len(),
        forall|i: int| 0 < i < n ==> #[trigger] entries[i] is Some,
        forall|i: int| 0 < i < n ==> !#[trigger] is_stale(entries, i, now_slot, max_staleness),
    ensures
        snapshot_spec(entries, n, now_slot, max_staleness) is Ok,
    decreases n,
{
    if n > 0 {
        lemma_snapshot_ok_when_fresh(entries, n - 1, now_slot, max_staleness);
        if n - 1 > 0 {
            assert(!is_stale(entries, n - 1, now_slot, max_staleness));
        }
    }
}

} // verus!
