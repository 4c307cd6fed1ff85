use vstd::prelude::*;

use crate::error::EngineError;

verus! {

/// Prices are fixed-point numbers with six decimal places: a stored price `p`
/// means `p / PRICE_ONE` quote native units per native unit of the asset.
pub const PRICE_ONE: u64 = 1000000;

/// The largest price the engine accepts (2^40 in fixed-point units).
pub const MAX_PRICE: u64 = 1099511627776;

/// The largest decimal exponent a scaled feed may carry.
pub const MAX_FEED_DECIMALS: u32 = 18;

/// A raw reading from an external price source, in one of the shapes the
/// engine understands.
#[derive(Clone, Copy, Debug, PartialEq, Eq, Structural)]
pub enum RawFeed {
    /// A price already in the engine's fixed-point format.
    Fixed { price: u64, publish_slot: u64 },
    /// A decimal mantissa: the price is `mantissa * 10^-decimals`.
    Scaled { mantissa: u64, decimals: u32, publish_slot: u64 },
}

pub open spec fn pow10(n: nat) -> nat
    decreases n,
{
    if n == 0 {
        1
    } else {
        10 * pow10((n - 1) as nat)
    }
}

/// The feed's own timestamp.
pub open spec fn feed_slot(feed: RawFeed) -> u64 {
    match feed {
        RawFeed::Fixed { publish_slot, .. } => publish_slot,
        RawFeed::Scaled { publish_slot, .. } => publish_slot,
    }
}

/// The feed's price in the engine's fixed-point format, truncated toward
/// zero, before any range check.
pub open spec fn feed_value(feed: RawFeed) -> int {
    match feed {
        RawFeed::Fixed { price, .. } => price as int,
        RawFeed::Scaled { mantissa, decimals, .. } => (mantissa * PRICE_ONE) as int / pow10(
            decimals as nat,
        ) as int,
    }
}

/// A feed can be used when its exponent is in range and its value is a
/// non-zero price no larger than `MAX_PRICE`.
pub open spec fn feed_usable(feed: RawFeed) -> bool {
    &&& match feed {
        RawFeed::Fixed { .. } => true,
        RawFeed::Scaled { decimals, .. } => decimals <= MAX_FEED_DECIMALS,
    }
    &&& 0 < feed_value(feed) <= MAX_PRICE
}

proof fn lemma_pow10_positive(n: nat)
    ensures
        pow10(n) >= 1,
    decreases n,
{
    if n > 0 {
        lemma_pow10_positive((n - 1) as nat);
    }
}

proof fn lemma_pow10_bound(n: nat)
    requires
        n <= 19,
    ensures
        pow10(n) <= 10000000000000000000,
{
    lemma_pow10_mono(n, 19);
    reveal_with_fuel(pow10, 20);
}

proof fn lemma_pow10_mono(a: nat, b: nat)
    requires
        a <= b,
    ensures
        pow10(a) <= pow10(b),
    decreases b,
{
    if a < b {
        lemma_pow10_mono(a, (b - 1) as nat);
        lemma_pow10_positive((b - 1) as nat);
    }
}

fn pow10_exec(n: u32) -> (r: u64)
    requires
        n <= 19,
    ensures
        r == pow10(n as nat),
{
    let mut r: u64 = 1;
    let mut i: u32 = 0;
    while i < n
        invariant
            i <= n <= 19,
            r == pow10(i as nat),
        decreases n - i,
    {
        proof {
            lemma_pow10_bound((i + 1) as nat);
        }
        r = r * 10;
        i = i + 1;
    }
    r
}

/// Converts a raw feed into the engine's fixed-point price format.
/// Fails with `PriceUnavailable` exactly when the feed is not usable.
pub fn normalize_price(feed: &RawFeed) -> (r: Result<u64, EngineError>)
    ensures
        feed_usable(*feed) ==> r == Ok::<u64, EngineError>(feed_value(*feed) as u64),
        !feed_usable(*feed) ==> r == Err::<u64, EngineError>(EngineError::PriceUnavailable),
{
    match feed {
        RawFeed::Fixed { price, .. } => {
            if *price == 0 || *price > MAX_PRICE {
                Err(EngineError::PriceUnavailable)
            } else {
                Ok(*price)
            }
        },
        RawFeed::Scaled { mantissa, decimals, .. } => {
            if *decimals > MAX_FEED_DECIMALS {
                return Err(EngineError::PriceUnavailable);
            }
            let den = pow10_exec(*decimals);
            proof {
                lemma_pow10_positive(*decimals as nat);
            }
            let m: u128 = *mantissa as u128;
            assert(m * 1000000 <= 18446744073709551615u128 * 1000000) by (nonlinear_arith)
                requires
                    m <= 18446744073709551615u128,
            ;
            let num: u128 = m * (PRICE_ONE as u128);
            let q: u128 = num / (den as u128);
            if q == 0 || q > MAX_PRICE as u128 {
                Err(EngineError::PriceUnavailable)
            } else {
                Ok(q as u64)
            }
        },
    }
}

} // verus!
