use vstd::prelude::*;

use crate::error::EngineError;
use crate::oracle::{MAX_PRICE, PRICE_ONE};
use crate::price_cache::{PriceCache, PriceEntry, snapshot_spec, lemma_snapshot_prices};

verus! {

/// The most assets a group can list, the quote asset included.
pub const MAX_ASSETS: usize = 16;

/// The most perpetual markets a group can list.
pub const MAX_MARKETS: usize = 16;

/// The largest lot size of a market, in native units.
pub const MAX_LOT_SIZE: u64 = 1048576;

/// The largest leverage multiplier a market may configure.
pub const MAX_LEVERAGE: u64 = 1000;

/// The largest absolute perpetual position, in base lots.
pub const MAX_BASE_POSITION: i64 = 1099511627776;

/// Which leverage threshold a valuation applies.
#[derive(Clone, Copy, Debug, PartialEq, Eq, Structural)]
pub enum HealthVariant {
    /// The stricter threshold that gates borrows, withdrawals and orders.
    Initial,
    /// The looser threshold below which an account may be liquidated.
    Maintenance,
}

/// The fixed parameters of one perpetual market.
#[derive(Clone, Copy, Debug, PartialEq, Eq, Structural)]
pub struct MarketConfig {
    /// The asset whose cached price values the market's positions.
    pub base_asset: usize,
    /// Native base units per base lot.
    pub base_lot_size: u64,
    /// Native quote units per quote lot.
    pub quote_lot_size: u64,
    /// Leverage allowed when opening risk.
    pub init_leverage: u64,
    /// Leverage tolerated before liquidation.
    pub maint_leverage: u64,
}

/// An account's position in one perpetual market.
#[derive(Clone, Copy, Debug, PartialEq, Eq, Structural)]
pub struct PerpPosition {
    /// Signed position in base lots; positive is long.
    pub base_position: i64,
    /// Signed quote balance in native quote units.
    pub quote_position: i64,
}

/// The configuration shared by every account of a group.
pub struct MarginGroup {
    pub num_assets: usize,
    pub markets: Vec<MarketConfig>,
}

/// Balances and positions of one owner.
pub struct RiskAccount {
    pub owner: u64,
    pub deposits: Vec<u64>,
    pub borrows: Vec<u64>,
    pub perp_positions: Vec<PerpPosition>,
}

/// The mathematical content of a `RiskAccount`.
pub struct RiskAccountView {
    pub owner: u64,
    pub deposits: Seq<u64>,
    pub borrows: Seq<u64>,
    pub perp_positions: Seq<PerpPosition>,
}

impl View for RiskAccount {
    type V = RiskAccountView;

    open spec fn view(&self) -> RiskAccountView {
        RiskAccountView {
            owner: self.owner,
            deposits: self.deposits@,
            borrows: self.borrows@,
            perp_positions: self.perp_positions@,
        }
    }
}

pub open spec fn market_wf(m: MarketConfig, num_assets: int) -> bool {
    &&& m.base_asset < num_assets
    &&& 1 <= m.base_lot_size <= MAX_LOT_SIZE
    &&& 1 <= m.quote_lot_size <= MAX_LOT_SIZE
    &&& 1 <= m.init_leverage <= m.maint_leverage <= MAX_LEVERAGE
}

pub open spec fn position_wf(p: PerpPosition) -> bool {
    -MAX_BASE_POSITION <= p.base_position <= MAX_BASE_POSITION
}

impl MarginGroup {
    pub open spec fn wf(&self) -> bool {
        &&& 1 <= self.num_assets <= MAX_ASSETS
        &&& self.markets@.len() <= MAX_MARKETS
        &&& forall|i: int|
            0 <= i < self.markets@.len() ==> market_wf(#[trigger] self.markets@[i], self.num_assets as int)
    }
}

impl RiskAccountView {
    /// The account has one balance per asset and one position per market
    /// of `group`, each position within range.
    pub open spec fn wf(&self, num_assets: int, markets: Seq<MarketConfig>) -> bool {
        &&& self.deposits.len() == num_assets
        &&& self.borrows.len() == num_assets
        &&& self.perp_positions.len() == markets.len()
        &&& forall|i: int|
            0 <= i < self.perp_positions.len() ==> position_wf(#[trigger] self.perp_positions[i])
    }
}

pub open spec fn abs(x: int) -> int {
    if x < 0 {
        -x
    } else {
        x
    }
}

/// Sum over the first `n` assets of `(deposit - borrow) * price`.
pub open spec fn token_value(
    deposits: Seq<u64>,
    borrows: Seq<u64>,
    prices: Seq<u64>,
    n: int,
) -> int
    decreases n,
{
    if n <= 0 {
        0
    } else {
        token_value(deposits, borrows, prices, n - 1) + (deposits[n - 1] - borrows[n - 1])
            * prices[n - 1]
    }
}

pub open spec fn leverage(m: MarketConfig, variant: HealthVariant) -> int {
    match variant {
        HealthVariant::Initial => m.init_leverage as int,
        HealthVariant::Maintenance => m.maint_leverage as int,
    }
}

/// Value of a position at `price`, in fixed-point quote units.
pub open spec fn notional(p: PerpPosition, m: MarketConfig, price: u64) -> int {
    p.base_position * m.base_lot_size * price
}

/// Unrealized value of a position minus its margin requirement: the
/// absolute notional divided by the leverage, rounded up.
pub open spec fn perp_contribution(
    p: PerpPosition,
    m: MarketConfig,
    price: u64,
    variant: HealthVariant,
) -> int {
    let n = notional(p, m, price);
    n + p.quote_position * PRICE_ONE - (abs(n) + leverage(m, variant) - 1) / leverage(m, variant)
}

/// Sum of the contributions of the first `n` markets.
pub open spec fn perp_value(
    perps: Seq<PerpPosition>,
    markets: Seq<MarketConfig>,
    prices: Seq<u64>,
    variant: HealthVariant,
    n: int,
) -> int
    decreases n,
{
    if n <= 0 {
        0
    } else {
        perp_value(perps, markets, prices, variant, n - 1) + perp_contribution(
            perps[n - 1],
            markets[n - 1],
            prices[markets[n - 1].base_asset as int],
            variant,
        )
    }
}

/// The account's health at the given prices, in fixed-point quote units.
pub open spec fn health_spec(
    a: RiskAccountView,
    markets: Seq<MarketConfig>,
    prices: Seq<u64>,
    variant: HealthVariant,
) -> int {
    token_value(a.deposits, a.borrows, prices, a.deposits.len() as int) + perp_value(
        a.perp_positions,
        markets,
        prices,
        variant,
        markets.len() as int,
    )
}

/// Prices for `num_assets` assets, each in `(0, MAX_PRICE]`.
pub open spec fn prices_wf(prices: Seq<u64>, num_assets: int) -> bool {
    &&& prices.len() == num_assets
    &&& forall|i: int| 0 <= i < prices.len() ==> 0 < #[trigger] prices[i] <= MAX_PRICE
}

/// The health the cache yields: an error when a price cannot be read.
pub open spec fn cached_health(
    a: RiskAccountView,
    group_assets: int,
    markets: Seq<MarketConfig>,
    cache: Seq<Option<PriceEntry>>,
    now_slot: u64,
    max_staleness: u64,
    variant: HealthVariant,
) -> Result<int, EngineError> {
    match snapshot_spec(cache, group_assets, now_slot, max_staleness) {
        Err(e) => Err(e),
        Ok(prices) => Ok(health_spec(a, markets, prices, variant)),
    }
}

proof fn lemma_token_term_bound(d: u64, b: u64, p: u64)
    requires
        p <= MAX_PRICE,
    ensures
        -0x100_0000_0000_0000_0000_0000_0000 <= (d - b) * p <= 0x100_0000_0000_0000_0000_0000_0000,
{
    let x: int = d - b;
    assert(-0x1_0000_0000_0000_0000 <= x <= 0x1_0000_0000_0000_0000);
    assert(-0x100_0000_0000_0000_0000_0000_0000 <= x * p <= 0x100_0000_0000_0000_0000_0000_0000)
        by (nonlinear_arith)
        requires
            -0x1_0000_0000_0000_0000 <= x <= 0x1_0000_0000_0000_0000,
            0 <= p <= 0x100_0000_0000,
    ;
}

proof fn lemma_notional_bound(p: PerpPosition, m: MarketConfig, price: u64)
    requires
        position_wf(p),
        m.base_lot_size <= MAX_LOT_SIZE,
        price <= MAX_PRICE,
    ensures
        -0x10_0000_0000_0000_0000_0000_0000 <= notional(p, m, price)
            <= 0x10_0000_0000_0000_0000_0000_0000,
{
    let b: int = p.base_position as int;
    let l: int = m.base_lot_size as int;
    let q: int = price as int;
    assert(-0x10_0000_0000_0000_0000_0000_0000 <= b * l * q <= 0x10_0000_0000_0000_0000_0000_0000)
        by (nonlinear_arith)
        requires
            -0x100_0000_0000 <= b <= 0x100_0000_0000,
            0 <= l <= 0x10_0000,
            0 <= q <= 0x100_0000_0000,
    ;
}

/// One market's contribution to health, computed exactly.
pub fn perp_contribution_exec(
    p: &PerpPosition,
    m: &MarketConfig,
    price: u64,
    variant: HealthVariant,
) -> (r: i128)
    requires
        position_wf(*p),
        1 <= m.init_leverage <= m.maint_leverage <= MAX_LEVERAGE,
        m.base_lot_size <= MAX_LOT_SIZE,
        price <= MAX_PRICE,
    ensures
        r == perp_contribution(*p, *m, price, variant),
        -0x40_0000_0000_0000_0000_0000_0000 <= r <= 0x40_0000_0000_0000_0000_0000_0000,
{
    proof {
        lemma_notional_bound(*p, *m, price);
    }
    let b = p.base_position as i128;
    let l = m.base_lot_size as i128;
    let q = price as i128;
    assert(-0x10_0000_0000_0000_0000_0000_0000 <= b * l <= 0x10_0000_0000_0000_0000_0000_0000)
        by (nonlinear_arith)
        requires
            -0x100_0000_0000 <= b <= 0x100_0000_0000,
            0 <= l <= 0x10_0000,
    ;
    let n: i128 = b * l * q;
    let abs_n: i128 = if n < 0 {
        -n
    } else {
        n
    };
    let lev: i128 = match variant {
        HealthVariant::Initial => m.init_leverage as i128,
        HealthVariant::Maintenance => m.maint_leverage as i128,
    };
    let req: i128 = (abs_n + lev - 1) / lev;
    assert(0 <= req <= abs_n + lev) by (nonlinear_arith)
        requires
            req == (abs_n + lev - 1) as int / lev as int,
            abs_n >= 0,
            lev >= 1,
    ;
    let qp = p.quote_position as i128;
    assert(-0x100_0000_0000_0000_0000_0000 <= qp * 1000000 <= 0x100_0000_0000_0000_0000_0000)
        by (nonlinear_arith)
        requires
            -0x8000_0000_0000_0000 <= qp <= 0x8000_0000_0000_0000,
    ;
    let quote: i128 = qp * (PRICE_ONE as i128);
    n + quote - req
}

/// The account's health at the given prices.
pub fn health_from_prices(
    account: &RiskAccount,
    group: &MarginGroup,
    prices: &Vec<u64>,
    variant: HealthVariant,
) -> (r: i128)
    requires
        group.wf(),
        account@.wf(group.num_assets as int, group.markets@),
        prices_wf(prices@, group.num_assets as int),
    ensures
        r == health_spec(account@, group.markets@, prices@, variant),
        -0x2000_0000_0000_0000_0000_0000_0000 <= r <= 0x2000_0000_0000_0000_0000_0000_0000,
{
    let n_assets = account.deposits.len();
    let mut tokens: i128 = 0;
    let mut i: usize = 0;
    while i < n_assets
        invariant
            i <= n_assets == account.deposits@.len() == account.borrows@.len() == prices@.len(),
            n_assets <= MAX_ASSETS,
            prices_wf(prices@, group.num_assets as int),
            tokens == token_value(account.deposits@, account.borrows@, prices@, i as int),
            -0x100_0000_0000_0000_0000_0000_0000 * i <= tokens <= 0x100_0000_0000_0000_0000_0000_0000
                * i,
        decreases n_assets - i,
    {
        let d = account.deposits[i];
        let b = account.borrows[i];
        let p = prices[i];
        proof {
            lemma_token_term_bound(d, b, p);
        }
        let term: i128 = ((d as i128) - (b as i128)) * (p as i128);
        tokens = tokens + term;
        i = i + 1;
    }
    let n_markets = group.markets.len();
    let mut perps: i128 = 0;
    let mut j: usize = 0;
    while j < n_markets
        invariant
            j <= n_markets == group.markets@.len() == account.perp_positions@.len(),
            group.wf(),
            account@.wf(group.num_assets as int, group.markets@),
            prices_wf(prices@, group.num_assets as int),
            perps == perp_value(account.perp_positions@, group.markets@, prices@, variant, j as int),
            -0x40_0000_0000_0000_0000_0000_0000 * j <= perps <= 0x40_0000_0000_0000_0000_0000_0000
                * j,
        decreases n_markets - j,
    {
        let m = &group.markets[j];
        assert(market_wf(group.markets@[j as int], group.num_assets as int));
        let c = perp_contribution_exec(&account.perp_positions[j], m, prices[m.base_asset], variant);
        perps = perps + c;
        j = j + 1;
    }
    tokens + perps
}

/// A market's contribution to health once the position has moved by
/// `delta` lots at the cached price: the position's current value is kept,
/// and the margin requirement is that of the moved position.
pub open spec fn projected_contribution(
    p: PerpPosition,
    m: MarketConfig,
    price: u64,
    variant: HealthVariant,
    delta: int,
) -> int {
    let n = (p.base_position + delta) * m.base_lot_size * price;
    notional(p, m, price) + p.quote_position * PRICE_ONE - (abs(n) + leverage(m, variant) - 1)
        / leverage(m, variant)
}

/// The account's health once its position in market `mi` has moved by
/// `delta` lots at the cached price.
pub open spec fn projected_health(
    a: RiskAccountView,
    markets: Seq<MarketConfig>,
    prices: Seq<u64>,
    variant: HealthVariant,
    mi: int,
    delta: int,
) -> int {
    let p = a.perp_positions[mi];
    let m = markets[mi];
    let price = prices[m.base_asset as int];
    health_spec(a, markets, prices, variant) - perp_contribution(p, m, price, variant)
        + projected_contribution(p, m, price, variant, delta)
}

/// Computes `projected_health` exactly.
pub fn projected_health_exec(
    account: &RiskAccount,
    group: &MarginGroup,
    prices: &Vec<u64>,
    variant: HealthVariant,
    mi: usize,
    delta: i64,
) -> (r: i128)
    requires
        group.wf(),
        account@.wf(group.num_assets as int, group.markets@),
        prices_wf(prices@, group.num_assets as int),
        mi < group.markets@.len(),
        -0x8000_0000 <= delta <= 0x8000_0000,
    ensures
        r == projected_health(account@, group.markets@, prices@, variant, mi as int, delta as int),
{
    let h = health_from_prices(account, group, prices, variant);
    let m = &group.markets[mi];
    assert(market_wf(group.markets@[mi as int], group.num_assets as int));
    let p = &account.perp_positions[mi];
    assert(position_wf(account@.perp_positions[mi as int]));
    let price = prices[m.base_asset];
    let old_c = perp_contribution_exec(p, m, price, variant);
    let moved = PerpPosition { base_position: p.base_position + delta, quote_position: 0 };
    let b = moved.base_position as i128;
    let l = m.base_lot_size as i128;
    let q = price as i128;
    assert(-0x40_0000_0000_0000_0000_0000_0000 <= b * l * q <= 0x40_0000_0000_0000_0000_0000_0000)
        by (nonlinear_arith)
        requires
            -0x200_0000_0000 <= b <= 0x200_0000_0000,
            0 <= l <= 0x10_0000,
            0 <= q <= 0x100_0000_0000,
    ;
    assert(-0x40_0000_0000_0000_0000_0000 <= b * l <= 0x40_0000_0000_0000_0000_0000)
        by (nonlinear_arith)
        requires
            -0x200_0000_0000 <= b <= 0x200_0000_0000,
            0 <= l <= 0x10_0000,
    ;
    let n: i128 = b * l * q;
    let abs_n: i128 = if n < 0 {
        -n
    } else {
        n
    };
    let lev: i128 = match variant {
        HealthVariant::Initial => m.init_leverage as i128,
        HealthVariant::Maintenance => m.maint_leverage as i128,
    };
    let req: i128 = (abs_n + lev - 1) / lev;
    assert(0 <= req <= abs_n + lev) by (nonlinear_arith)
        requires
            req == (abs_n + lev - 1) as int / lev as int,
            abs_n >= 0,
            lev >= 1,
    ;
    proof {
        lemma_notional_bound(*p, *m, price);
    }
    let pb = p.base_position as i128;
    assert(-0x10_0000_0000_0000_0000_0000 <= pb * l <= 0x10_0000_0000_0000_0000_0000)
        by (nonlinear_arith)
        requires
            -0x100_0000_0000 <= pb <= 0x100_0000_0000,
            0 <= l <= 0x10_0000,
    ;
    let cur: i128 = pb * l * q;
    let qp = p.quote_position as i128;
    assert(-0x100_0000_0000_0000_0000_0000 <= qp * 1000000 <= 0x100_0000_0000_0000_0000_0000)
        by (nonlinear_arith)
        requires
            -0x8000_0000_0000_0000 <= qp <= 0x8000_0000_0000_0000,
    ;
    let new_c: i128 = cur + qp * (PRICE_ONE as i128) - req;
    h - old_c + new_c
}

/// The account's health under `variant`, with every price read from
/// `cache` under the staleness bound. Fails with the error of the first
/// asset whose price cannot be read.
pub fn compute_health(
    account: &RiskAccount,
    group: &MarginGroup,
    cache: &PriceCache,
    variant: HealthVariant,
    now_slot: u64,
    max_staleness: u64,
) -> (r: Result<i128, EngineError>)
    requires
        group.wf(),
        cache.wf(),
        account@.wf(group.num_assets as int, group.markets@),
    ensures
        match cached_health(
            account@,
            group.num_assets as int,
            group.markets@,
            cache.entries@,
            now_slot,
            max_staleness,
            variant,
        ) {
            Ok(h) => r matches Ok(v) && v == h,
            Err(e) => r == Err::<i128, EngineError>(e),
        },
{
    let prices = cache.snapshot(group.num_assets, now_slot, max_staleness)?;
    proof {
        lemma_snapshot_prices(cache.entries@, group.num_assets as int, now_slot, max_staleness);
    }
    Ok(health_from_prices(account, group, &prices, variant))
}

/// Succeeds exactly when the account's health under `variant` is
/// non-negative; fails with `InsufficientHealth` when it is negative, or
/// with the price error when a price cannot be read.
pub fn assert_healthy(
    account: &RiskAccount,
    group: &MarginGroup,
    cache: &PriceCache,
    variant: HealthVariant,
    now_slot: u64,
    max_staleness: u64,
) -> (r: Result<(), EngineError>)
    requires
        group.wf(),
        cache.wf(),
        account@.wf(group.num_assets as int, group.markets@),
    ensures
        match cached_health(
            account@,
            group.num_assets as int,
            group.markets@,
            cache.entries@,
            now_slot,
            max_staleness,
            variant,
        ) {
            Ok(h) => if h < 0 {
                r == Err::<(), EngineError>(EngineError::InsufficientHealth)
            } else {
                r is Ok
            },
            Err(e) => r == Err::<(), EngineError>(e),
        },
{
    let h = compute_health(account, group, cache, variant, now_slot, max_staleness)?;
    if h < 0 {
        Err(EngineError::InsufficientHealth)
    } else {
        Ok(())
    }
}

/// Whether the account may be liquidated: its maintenance health is
/// negative.
pub fn is_liquidatable(
    account: &RiskAccount,
    group: &MarginGroup,
    cache: &PriceCache,
    now_slot: u64,
    max_staleness: u64,
) -> (r: Result<bool, EngineError>)
    requires
        group.wf(),
        cache.wf(),
        account@.wf(group.num_assets as int, group.markets@),
    ensures
        match cached_health(
            account@,
            group.num_assets as int,
            group.markets@,
            cache.entries@,
            now_slot,
            max_staleness,
            HealthVariant::Maintenance,
        ) {
            Ok(h) => r == Ok::<bool, EngineError>(h < 0),
            Err(e) => r == Err::<bool, EngineError>(e),
        },
{
    let h = compute_health(account, group, cache, HealthVariant::Maintenance, now_slot, max_staleness)?;
    Ok(h < 0)
}

proof fn lemma_token_value_monotone(
    d1: Seq<u64>,
    b1: Seq<u64>,
    d2: Seq<u64>,
    b2: Seq<u64>,
    prices: Seq<u64>,
    n: int,
)
    requires
        0 <= n <= d1.len(),
        d1.len() == b1.len() == d2.len() == b2.len() <= prices.len(),
        forall|i: int| 0 <= i < d1.len() ==> #[trigger] d1[i] <= d2[i] && b1[i] >= b2[i],
    ensures
        token_value(d1, b1, prices, n) <= token_value(d2, b2, prices, n),
    decreases n,
{
    if n > 0 {
        lemma_token_value_monotone(d1, b1, d2, b2, prices, n - 1);
        let x: int = d1[n - 1] - b1[n - 1];
        let y: int = d2[n - 1] - b2[n - 1];
        let p: int = prices[n - 1] as int;
        assert(x <= y);
        assert(x * p <= y * p) by (nonlinear_arith)
            requires
                x <= y,
                p >= 0,
        ;
    }
}

/// Health monotonicity: an account whose deposits are each at least, and
/// whose borrows are each at most, those of another account with the same
/// perpetual positions has at least its health, under either variant and
/// at any prices.
pub proof fn lemma_health_monotone(
    a: RiskAccountView,
    b: RiskAccountView,
    markets: Seq<MarketConfig>,
    prices: Seq<u64>,
    variant: HealthVariant,
)
    requires
        a.deposits.len() == a.borrows.len() == b.deposits.len() == b.borrows.len() <= prices.len(),
        a.perp_positions == b.perp_positions,
        forall|i: int|
            0 <= i < a.deposits.len() ==> #[trigger] a.deposits[i] <= b.deposits[i] && a.borrows[i]
                >= b.borrows[i],
    ensures
        health_spec(a, markets, prices, variant) <= health_spec(b, markets, prices, variant),
{
    lemma_token_value_monotone(
        a.deposits,
        a.borrows,
        b.deposits,
        b.borrows,
        prices,
        a.deposits.len() as int,
    );
}

/// The balances of one asset after a withdrawal of `amount`: deposits are
/// drawn first, and the rest is borrowed when that is allowed.
pub open spec fn withdraw_balances(d: u64, b: u64, amount: u64, allow_borrow: bool) -> Result<
    (u64, u64),
    EngineError,
> {
    if amount <= d {
        Ok(((d - amount) as u64, b))
    } else if !allow_borrow {
        Err(EngineError::InsufficientFunds)
    } else if b + (amount - d) > u64::MAX {
        Err(EngineError::Overflow)
    } else {
        Ok((0, (b + (amount - d)) as u64))
    }
}

/// The balances of one asset after a deposit of `amount`: outstanding
/// borrows are repaid first.
pub open spec fn deposit_balances(d: u64, b: u64, amount: u64) -> Result<(u64, u64), EngineError> {
    if amount <= b {
        Ok((d, (b - amount) as u64))
    } else if d + (amount - b) > u64::MAX {
        Err(EngineError::Overflow)
    } else {
        Ok(((d + (amount - b)) as u64, 0))
    }
}

/// The account with the balances of asset `i` replaced.
pub open spec fn with_balances(a: RiskAccountView, i: int, d: u64, b: u64) -> RiskAccountView {
    RiskAccountView {
        owner: a.owner,
        deposits: a.deposits.update(i, d),
        borrows: a.borrows.update(i, b),
        perp_positions: a.perp_positions,
    }
}

/// The outcome of a withdrawal: the new account view, or the error.
pub open spec fn withdraw_spec(
    a: RiskAccountView,
    group_assets: int,
    markets: Seq<MarketConfig>,
    cache: Seq<Option<PriceEntry>>,
    asset_index: int,
    amount: u64,
    allow_borrow: bool,
    now_slot: u64,
    max_staleness: u64,
) -> Result<RiskAccountView, EngineError> {
    if asset_index >= group_assets {
        Err(EngineError::AccountMismatch)
    } else {
        match withdraw_balances(a.deposits[asset_index], a.borrows[asset_index], amount, allow_borrow) {
            Err(e) => Err(e),
            Ok((d, b)) => {
                let n = with_balances(a, asset_index, d, b);
                match cached_health(n, group_assets, markets, cache, now_slot, max_staleness, HealthVariant::Initial) {
                    Err(e) => Err(e),
                    Ok(h) => if h < 0 {
                        Err(EngineError::InsufficientHealth)
                    } else {
                        Ok(n)
                    },
                }
            },
        }
    }
}

impl RiskAccount {
    /// A fresh account for `owner` with every balance and position zero.
    pub fn new(owner: u64, group: &MarginGroup) -> (r: RiskAccount)
        ensures
            r@.wf(group.num_assets as int, group.markets@),
            r.owner == owner,
            forall|i: int| 0 <= i < group.num_assets ==> #[trigger] r.deposits@[i] == 0 && r.borrows@[i] == 0,
            forall|i: int|
                0 <= i < group.markets@.len() ==> #[trigger] r.perp_positions@[i] == (PerpPosition {
                    base_position: 0,
                    quote_position: 0,
                }),
    {
        let mut deposits: Vec<u64> = Vec::new();
        let mut borrows: Vec<u64> = Vec::new();
        let mut i: usize = 0;
        while i < group.num_assets
            invariant
                i <= group.num_assets,
                deposits@.len() == i,
                borrows@.len() == i,
                forall|j: int| 0 <= j < i ==> #[trigger] deposits@[j] == 0 && borrows@[j] == 0,
            decreases group.num_assets - i,
        {
            deposits.push(0);
            borrows.push(0);
            i = i + 1;
        }
        let mut perp_positions: Vec<PerpPosition> = Vec::new();
        let mut j: usize = 0;
        while j < group.markets.len()
            invariant
                j <= group.markets@.len(),
                perp_positions@.len() == j,
                forall|k: int|
                    0 <= k < j ==> #[trigger] perp_positions@[k] == (PerpPosition {
                        base_position: 0,
                        quote_position: 0,
                    }),
            decreases group.markets@.len() - j,
        {
            perp_positions.push(PerpPosition { base_position: 0, quote_position: 0 });
            j = j + 1;
        }
        RiskAccount { owner, deposits, borrows, perp_positions }
    }

    /// Credits `amount` of `asset_index`, repaying any borrow first. Fails
    /// with `AccountMismatch` for an unknown asset and `Overflow` when the
    /// deposit would not fit.
    pub fn deposit(&mut self, asset_index: usize, amount: u64) -> (r: Result<(), EngineError>)
        requires
            old(self).deposits@.len() == old(self).borrows@.len(),
        ensures
            asset_index >= old(self).deposits@.len() ==> r == Err::<(), EngineError>(
                EngineError::AccountMismatch,
            ),
            asset_index < old(self).deposits@.len() ==> match deposit_balances(
                old(self).deposits@[asset_index as int],
                old(self).borrows@[asset_index as int],
                amount,
            ) {
                Ok((d, b)) => r is Ok && final(self)@ == with_balances(
                    old(self)@,
                    asset_index as int,
                    d,
                    b,
                ),
                Err(e) => r == Err::<(), EngineError>(e),
            },
            r is Err ==> final(self)@ == old(self)@,
    {
        if asset_index >= self.deposits.len() {
            return Err(EngineError::AccountMismatch);
        }
        let d = self.deposits[asset_index];
        let b = self.borrows[asset_index];
        if amount <= b {
            self.borrows.set(asset_index, b - amount);
            proof {
                assert(self.deposits@ =~= old(self).deposits@.update(asset_index as int, d));
            }
            Ok(())
        } else if d > u64::MAX - (amount - b) {
            Err(EngineError::Overflow)
        } else {
            self.deposits.set(asset_index, d + (amount - b));
            self.borrows.set(asset_index, 0);
            Ok(())
        }
    }

    /// Debits `amount` of `asset_index`, borrowing what the deposit does
    /// not cover when `allow_borrow` is set, and only if the account's
    /// initial health stays non-negative at prices read under the staleness
    /// bound. On any error the account is unchanged.
    pub fn withdraw(
        &mut self,
        group: &MarginGroup,
        cache: &PriceCache,
        asset_index: usize,
        amount: u64,
        allow_borrow: bool,
        now_slot: u64,
        max_staleness: u64,
    ) -> (r: Result<(), EngineError>)
        requires
            group.wf(),
            cache.wf(),
            old(self)@.wf(group.num_assets as int, group.markets@),
        ensures
            final(self)@.wf(group.num_assets as int, group.markets@),
            match withdraw_spec(
                old(self)@,
                group.num_assets as int,
                group.markets@,
                cache.entries@,
                asset_index as int,
                amount,
                allow_borrow,
                now_slot,
                max_staleness,
            ) {
                Ok(n) => r is Ok && final(self)@ == n,
                Err(e) => r == Err::<(), EngineError>(e) && final(self)@ == old(self)@,
            },
    {
        if asset_index >= group.num_assets {
            return Err(EngineError::AccountMismatch);
        }
        let d = self.deposits[asset_index];
        let b = self.borrows[asset_index];
        let (nd, nb): (u64, u64) = if amount <= d {
            (d - amount, b)
        } else if !allow_borrow {
            return Err(EngineError::InsufficientFunds);
        } else if b > u64::MAX - (amount - d) {
            return Err(EngineError::Overflow);
        } else {
            (0, b + (amount - d))
        };
        self.deposits.set(asset_index, nd);
        self.borrows.set(asset_index, nb);
        let checked = assert_healthy(self, group, cache, HealthVariant::Initial, now_slot, max_staleness);
        match checked {
            Ok(()) => Ok(()),
            Err(e) => {
                self.deposits.set(asset_index, d);
                self.borrows.set(asset_index, b);
                proof {
                    assert(self.deposits@ =~= old(self).deposits@);
                    assert(self.borrows@ =~= old(self).borrows@);
                }
                Err(e)
            },
        }
    }
}

} // verus!
