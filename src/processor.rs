use vstd::prelude::*;

use crate::account::{
    MarginGroup, PerpPosition, RiskAccount, RiskAccountView, deposit_balances, with_balances,
    withdraw_spec,
};
use crate::book::{Order, OrderBook, cancel_outcome};
use crate::engine::{OrderRequest, place_outcome, place_perp_order};
use crate::error::EngineError;
use crate::oracle::{RawFeed, feed_slot, feed_usable, feed_value};
use crate::price_cache::{PriceCache, PriceEntry};
use crate::queue::EventQueue;
use crate::settle::{accounts_wf, consume_events, consume_spec, views};

verus! {

/// The book and event queue of one perpetual market.
pub struct PerpMarket {
    pub book: OrderBook,
    pub queue: EventQueue,
}

/// Everything the instructions read and write.
pub struct Engine {
    pub group: MarginGroup,
    pub cache: PriceCache,
    pub accounts: Vec<RiskAccount>,
    pub markets: Vec<PerpMarket>,
}

/// One instruction, as decoded from a transaction. Instructions that name
/// an account act for that account's owner and must be signed by it.
#[derive(Clone, Copy, Debug, PartialEq, Eq, Structural)]
pub enum Instruction {
    /// Creates an account owned by the signer.
    InitAccount,
    Deposit { account: usize, asset_index: usize, amount: u64 },
    Withdraw { account: usize, asset_index: usize, amount: u64, allow_borrow: bool },
    PlacePerpOrder { account: usize, order: OrderRequest },
    CancelOrder { account: usize, market_index: usize, order_id: u64 },
    ConsumeEvents { market_index: usize, max_events: usize },
    RefreshPrice { asset_index: usize, feed: RawFeed },
}

/// What a successful instruction reports.
#[derive(Clone, Copy, Debug, PartialEq, Eq, Structural)]
pub enum Outcome {
    Done,
    AccountCreated { account: usize },
    OrderPlaced { order_id: u64 },
    OrderCancelled { order: Order },
    EventsConsumed { count: usize },
}

impl Engine {
    pub open spec fn wf(&self) -> bool {
        &&& self.group.wf()
        &&& self.cache.wf()
        &&& self.cache.entries@.len() == self.group.num_assets
        &&& accounts_wf(self.accounts@, self.group.num_assets as int, self.group.markets@)
        &&& self.markets@.len() == self.group.markets@.len()
        &&& forall|i: int|
            0 <= i < self.markets@.len() ==> (#[trigger] self.markets@[i]).book.wf()
                && self.markets@[i].queue.wf()
    }

    /// Whether `account` exists and is owned by `signer`.
    pub fn is_owner(&self, account: usize, signer: u64) -> (r: bool)
        ensures
            r == owned_by(self.accounts@, account, signer),
    {
        account < self.accounts.len() && self.accounts[account].owner == signer
    }

    /// An engine for `group` with no accounts, no prices, empty books, and
    /// event queues of `queue_capacity` events.
    pub fn new(group: MarginGroup, queue_capacity: usize) -> (r: Engine)
        requires
            group.wf(),
        ensures
            r.wf(),
            r.group == group,
            r.accounts@.len() == 0,
            forall|i: int| 0 <= i < group.num_assets ==> #[trigger] r.cache.entries@[i] is None,
            forall|i: int|
                0 <= i < r.markets@.len() ==> (#[trigger] r.markets@[i]).book.bids@.len() == 0
                    && r.markets@[i].book.asks@.len() == 0 && r.markets@[i].book.next_order_id == 0
                    && r.markets@[i].queue.pending().len() == 0 && r.markets@[i].queue.capacity
                    == queue_capacity,
    {
        let cache = PriceCache::new(group.num_assets);
        let mut markets: Vec<PerpMarket> = Vec::new();
        let mut i: usize = 0;
        while i < group.markets.len()
            invariant
                i <= group.markets@.len(),
                markets@.len() == i,
                forall|j: int|
                    0 <= j < i ==> (#[trigger] markets@[j]).book.wf() && markets@[j].queue.wf()
                        && markets@[j].book.bids@.len() == 0 && markets@[j].book.asks@.len() == 0
                        && markets@[j].book.next_order_id == 0 && markets@[j].queue.pending().len()
                        == 0 && markets@[j].queue.capacity == queue_capacity,
            decreases group.markets@.len() - i,
        {
            markets.push(PerpMarket { book: OrderBook::new(), queue: EventQueue::new(queue_capacity) });
            i = i + 1;
        }
        let accounts: Vec<RiskAccount> = Vec::new();
        Engine { group, cache, accounts, markets }
    }

    /// Validates `ix`, signed by `signer`, against the engine's accounts and
    /// markets, then carries it out. A reference to a missing account,
    /// asset or market, or to an account that `signer` does not own, fails
    /// with `AccountMismatch`. Every instruction either succeeds or fails
    /// leaving the engine as it was; the one exception is `ConsumeEvents`,
    /// which keeps the events it settled before the one that failed.
    pub fn process(&mut self, signer: u64, ix: &Instruction, now_slot: u64, max_staleness: u64) -> (r:
        Result<Outcome, EngineError>)
        requires
            old(self).wf(),
        ensures
            final(self).wf(),
            final(self).group == old(self).group,
            process_outcome(*old(self), *final(self), signer, *ix, now_slot, max_staleness, r),
    {
        match *ix {
            Instruction::InitAccount => Ok(Outcome::AccountCreated { account: self.init_account(signer) }),
            Instruction::Deposit { account, asset_index, amount } => self.deposit_ix(
                signer,
                account,
                asset_index,
                amount,
            ),
            Instruction::Withdraw { account, asset_index, amount, allow_borrow } => self.withdraw_ix(
                signer,
                account,
                asset_index,
                amount,
                allow_borrow,
                now_slot,
                max_staleness,
            ),
            Instruction::PlacePerpOrder { account, order } => self.place_ix(
                signer,
                account,
                &order,
                now_slot,
                max_staleness,
            ),
            Instruction::CancelOrder { account, market_index, order_id } => self.cancel_ix(
                signer,
                account,
                market_index,
                order_id,
            ),
            Instruction::ConsumeEvents { market_index, max_events } => self.consume_ix(
                market_index,
                max_events,
            ),
            Instruction::RefreshPrice { asset_index, feed } => {
                let res = self.cache.refresh(asset_index, &feed, now_slot);
                match res {
                    Ok(()) => Ok(Outcome::Done),
                    Err(e) => Err(e),
                }
            },
        }
    }

    fn init_account(&mut self, signer: u64) -> (id: usize)
        requires
            old(self).wf(),
        ensures
            final(self).wf(),
            final(self).group == old(self).group,
            init_outcome(*old(self), *final(self), signer, Ok(Outcome::AccountCreated { account: id })),
    {
        let acct = RiskAccount::new(signer, &self.group);
        let id = self.accounts.len();
        self.accounts.push(acct);
        proof {
            assert forall|j: int| 0 <= j < self.accounts@.len() implies (#[trigger] self.accounts@[j])@.wf(
                self.group.num_assets as int,
                self.group.markets@,
            ) by {
                if j < id {
                    assert(old(self).accounts@[j]@.wf(self.group.num_assets as int, self.group.markets@));
                }
            }
            assert(self.accounts@[id as int].deposits@ =~= fresh_account(signer, &self.group).deposits);
            assert(self.accounts@[id as int].borrows@ =~= fresh_account(signer, &self.group).borrows);
            assert(self.accounts@[id as int].perp_positions@ =~= fresh_account(signer, &self.group).perp_positions);
        }
        id
    }

    fn deposit_ix(&mut self, signer: u64, account: usize, asset_index: usize, amount: u64) -> (r: Result<
        Outcome,
        EngineError,
    >)
        requires
            old(self).wf(),
        ensures
            final(self).wf(),
            final(self).group == old(self).group,
            deposit_outcome(*old(self), *final(self), signer, account, asset_index, amount, r),
    {
        if !self.is_owner(account, signer) || asset_index >= self.group.num_assets {
            return Err(EngineError::AccountMismatch);
        }
        proof {
            assert(self.accounts@[account as int]@.wf(self.group.num_assets as int, self.group.markets@));
        }
        let res = self.accounts[account].deposit(asset_index, amount);
        proof {
            lemma_accounts_after_update(old(self).accounts@, self.accounts@, account as int, self.group.num_assets as int, self.group.markets@);
            if res is Err {
                assert(views(self.accounts@) =~= views(old(self).accounts@));
            }
        }
        match res {
            Ok(()) => Ok(Outcome::Done),
            Err(e) => Err(e),
        }
    }

    fn withdraw_ix(
        &mut self,
        signer: u64,
        account: usize,
        asset_index: usize,
        amount: u64,
        allow_borrow: bool,
        now_slot: u64,
        max_staleness: u64,
    ) -> (r: Result<Outcome, EngineError>)
        requires
            old(self).wf(),
        ensures
            final(self).wf(),
            final(self).group == old(self).group,
            withdraw_outcome(*old(self), *final(self), signer, account, asset_index, amount, allow_borrow, now_slot, max_staleness, r),
    {
        if !self.is_owner(account, signer) {
            return Err(EngineError::AccountMismatch);
        }
        proof {
            assert(self.accounts@[account as int]@.wf(self.group.num_assets as int, self.group.markets@));
        }
        let res = self.accounts[account].withdraw(
            &self.group,
            &self.cache,
            asset_index,
            amount,
            allow_borrow,
            now_slot,
            max_staleness,
        );
        proof {
            lemma_accounts_after_update(old(self).accounts@, self.accounts@, account as int, self.group.num_assets as int, self.group.markets@);
            if res is Err {
                assert(views(self.accounts@) =~= views(old(self).accounts@));
            }
        }
        match res {
            Ok(()) => Ok(Outcome::Done),
            Err(e) => Err(e),
        }
    }

    fn place_ix(&mut self, signer: u64, account: usize, order: &OrderRequest, now_slot: u64, max_staleness: u64) -> (r:
        Result<Outcome, EngineError>)
        requires
            old(self).wf(),
        ensures
            final(self).wf(),
            final(self).group == old(self).group,
            place_ix_outcome(*old(self), *final(self), signer, account, *order, now_slot, max_staleness, r),
    {
        if !self.is_owner(account, signer) || order.market_index >= self.markets.len() {
            return Err(EngineError::AccountMismatch);
        }
        let mi = order.market_index;
        proof {
            assert(self.accounts@[account as int]@.wf(self.group.num_assets as int, self.group.markets@));
            assert(self.markets@[mi as int].book.wf() && self.markets@[mi as int].queue.wf());
        }
        let m = &mut self.markets[mi];
        let res = place_perp_order(
            &mut m.book,
            &mut m.queue,
            &self.group,
            &self.cache,
            &self.accounts[account],
            account,
            order,
            now_slot,
            max_staleness,
        );
        proof {
            lemma_markets_after_update(old(self).markets@, self.markets@, mi as int);
        }
        match res {
            Ok(id) => Ok(Outcome::OrderPlaced { order_id: id }),
            Err(e) => Err(e),
        }
    }

    fn cancel_ix(&mut self, signer: u64, account: usize, market_index: usize, order_id: u64) -> (r: Result<
        Outcome,
        EngineError,
    >)
        requires
            old(self).wf(),
        ensures
            final(self).wf(),
            final(self).group == old(self).group,
            cancel_ix_outcome(*old(self), *final(self), signer, account, market_index, order_id, r),
    {
        if !self.is_owner(account, signer) || market_index >= self.markets.len() {
            return Err(EngineError::AccountMismatch);
        }
        proof {
            assert(self.markets@[market_index as int].book.wf() && self.markets@[market_index as int].queue.wf());
        }
        let res = self.markets[market_index].book.cancel_order(account, order_id);
        proof {
            lemma_markets_after_update(old(self).markets@, self.markets@, market_index as int);
        }
        match res {
            Ok(o) => Ok(Outcome::OrderCancelled { order: o }),
            Err(e) => Err(e),
        }
    }

    fn consume_ix(&mut self, market_index: usize, max_events: usize) -> (r: Result<Outcome, EngineError>)
        requires
            old(self).wf(),
        ensures
            final(self).wf(),
            final(self).group == old(self).group,
            consume_ix_outcome(*old(self), *final(self), market_index, max_events, r),
    {
        if market_index >= self.markets.len() {
            return Err(EngineError::AccountMismatch);
        }
        proof {
            assert(self.markets@[market_index as int].book.wf() && self.markets@[market_index as int].queue.wf());
        }
        let res = consume_events(
            &mut self.markets[market_index].queue,
            &mut self.accounts,
            &self.group,
            max_events,
        );
        proof {
            lemma_markets_after_update(old(self).markets@, self.markets@, market_index as int);
        }
        match res {
            Ok(n) => Ok(Outcome::EventsConsumed { count: n }),
            Err(e) => Err(e),
        }
    }
}

/// What `process` does, instruction by instruction.
pub open spec fn process_outcome(
    e0: Engine,
    e1: Engine,
    signer: u64,
    ix: Instruction,
    now_slot: u64,
    max_staleness: u64,
    r: Result<Outcome, EngineError>,
) -> bool {
    match ix {
        Instruction::InitAccount => init_outcome(e0, e1, signer, r),
        Instruction::Deposit { account, asset_index, amount } => deposit_outcome(
            e0,
            e1,
            signer,
            account,
            asset_index,
            amount,
            r,
        ),
        Instruction::Withdraw { account, asset_index, amount, allow_borrow } => withdraw_outcome(
            e0,
            e1,
            signer,
            account,
            asset_index,
            amount,
            allow_borrow,
            now_slot,
            max_staleness,
            r,
        ),
        Instruction::PlacePerpOrder { account, order } => place_ix_outcome(
            e0,
            e1,
            signer,
            account,
            order,
            now_slot,
            max_staleness,
            r,
        ),
        Instruction::CancelOrder { account, market_index, order_id } => cancel_ix_outcome(
            e0,
            e1,
            signer,
            account,
            market_index,
            order_id,
            r,
        ),
        Instruction::ConsumeEvents { market_index, max_events } => consume_ix_outcome(
            e0,
            e1,
            market_index,
            max_events,
            r,
        ),
        Instruction::RefreshPrice { asset_index, feed } => {
            &&& e1.accounts == e0.accounts
            &&& e1.markets == e0.markets
            &&& refresh_outcome(e0.cache.entries@, e1.cache.entries@, asset_index, feed, now_slot, r)
        },
    }
}

/// A new account owned by `signer` is appended.
pub open spec fn init_outcome(e0: Engine, e1: Engine, signer: u64, r: Result<Outcome, EngineError>) -> bool {
    &&& r == Ok::<Outcome, EngineError>(Outcome::AccountCreated { account: e0.accounts@.len() as usize })
    &&& e1.accounts@.len() == e0.accounts@.len() + 1
    &&& forall|j: int| 0 <= j < e0.accounts@.len() ==> #[trigger] e1.accounts@[j] == e0.accounts@[j]
    &&& e1.accounts@[e0.accounts@.len() as int]@ == fresh_account(signer, &e0.group)
    &&& e1.markets == e0.markets
    &&& e1.cache == e0.cache
}

pub open spec fn deposit_outcome(
    e0: Engine,
    e1: Engine,
    signer: u64,
    account: usize,
    asset_index: usize,
    amount: u64,
    r: Result<Outcome, EngineError>,
) -> bool {
    &&& e1.markets == e0.markets
    &&& e1.cache == e0.cache
    &&& if !owned_by(e0.accounts@, account, signer) || asset_index >= e0.group.num_assets {
        r == Err::<Outcome, EngineError>(EngineError::AccountMismatch) && e1.accounts == e0.accounts
    } else {
        let a = e0.accounts@[account as int]@;
        match deposit_balances(a.deposits[asset_index as int], a.borrows[asset_index as int], amount) {
            Ok((d, b)) => r == Ok::<Outcome, EngineError>(Outcome::Done) && only_account_changed(
                e0.accounts@,
                e1.accounts@,
                account as int,
                with_balances(a, asset_index as int, d, b),
            ),
            Err(e) => r == Err::<Outcome, EngineError>(e) && views(e1.accounts@) == views(e0.accounts@),
        }
    }
}

pub open spec fn withdraw_outcome(
    e0: Engine,
    e1: Engine,
    signer: u64,
    account: usize,
    asset_index: usize,
    amount: u64,
    allow_borrow: bool,
    now_slot: u64,
    max_staleness: u64,
    r: Result<Outcome, EngineError>,
) -> bool {
    &&& e1.markets == e0.markets
    &&& e1.cache == e0.cache
    &&& if !owned_by(e0.accounts@, account, signer) {
        r == Err::<Outcome, EngineError>(EngineError::AccountMismatch) && e1.accounts == e0.accounts
    } else {
        match withdraw_spec(
            e0.accounts@[account as int]@,
            e0.group.num_assets as int,
            e0.group.markets@,
            e0.cache.entries@,
            asset_index as int,
            amount,
            allow_borrow,
            now_slot,
            max_staleness,
        ) {
            Ok(n) => r == Ok::<Outcome, EngineError>(Outcome::Done) && only_account_changed(
                e0.accounts@,
                e1.accounts@,
                account as int,
                n,
            ),
            Err(e) => r == Err::<Outcome, EngineError>(e) && views(e1.accounts@) == views(e0.accounts@),
        }
    }
}

pub open spec fn place_ix_outcome(
    e0: Engine,
    e1: Engine,
    signer: u64,
    account: usize,
    order: OrderRequest,
    now_slot: u64,
    max_staleness: u64,
    r: Result<Outcome, EngineError>,
) -> bool {
    &&& e1.accounts == e0.accounts
    &&& e1.cache == e0.cache
    &&& if !owned_by(e0.accounts@, account, signer) || order.market_index >= e0.markets@.len() {
        r == Err::<Outcome, EngineError>(EngineError::AccountMismatch) && e1.markets == e0.markets
    } else {
        let mi = order.market_index as int;
        let m0 = e0.markets@[mi];
        let m1 = e1.markets@[mi];
        &&& only_market_changed(e0.markets@, e1.markets@, mi)
        &&& exists|res: Result<u64, EngineError>|
            place_outcome(
                &m0.book,
                &m0.queue,
                &m1.book,
                &m1.queue,
                &e0.group,
                &e0.cache,
                e0.accounts@[account as int]@,
                account,
                order,
                now_slot,
                max_staleness,
                res,
            ) && r == match res {
                Ok(id) => Ok::<Outcome, EngineError>(Outcome::OrderPlaced { order_id: id }),
                Err(e) => Err::<Outcome, EngineError>(e),
            }
    }
}

pub open spec fn cancel_ix_outcome(
    e0: Engine,
    e1: Engine,
    signer: u64,
    account: usize,
    market_index: usize,
    order_id: u64,
    r: Result<Outcome, EngineError>,
) -> bool {
    &&& e1.accounts == e0.accounts
    &&& e1.cache == e0.cache
    &&& if !owned_by(e0.accounts@, account, signer) || market_index >= e0.markets@.len() {
        r == Err::<Outcome, EngineError>(EngineError::AccountMismatch) && e1.markets == e0.markets
    } else {
        let m0 = e0.markets@[market_index as int];
        let m1 = e1.markets@[market_index as int];
        &&& only_market_changed(e0.markets@, e1.markets@, market_index as int)
        &&& m1.queue == m0.queue
        &&& exists|res: Result<Order, EngineError>|
            cancel_outcome(&m0.book, &m1.book, account, order_id, res) && r == match res {
                Ok(o) => Ok::<Outcome, EngineError>(Outcome::OrderCancelled { order: o }),
                Err(e) => Err::<Outcome, EngineError>(e),
            }
    }
}

pub open spec fn consume_ix_outcome(
    e0: Engine,
    e1: Engine,
    market_index: usize,
    max_events: usize,
    r: Result<Outcome, EngineError>,
) -> bool {
    &&& e1.cache == e0.cache
    &&& if market_index >= e0.markets@.len() {
        r == Err::<Outcome, EngineError>(EngineError::AccountMismatch) && e1.markets == e0.markets
            && e1.accounts == e0.accounts
    } else {
        let m0 = e0.markets@[market_index as int];
        let m1 = e1.markets@[market_index as int];
        let c = consume_spec(views(e0.accounts@), e0.group.markets@, m0.queue.pending(), max_events as nat);
        &&& only_market_changed(e0.markets@, e1.markets@, market_index as int)
        &&& m1.book == m0.book
        &&& views(e1.accounts@) == c.0
        &&& m1.queue.pending() == m0.queue.pending().subrange(c.1 as int, m0.queue.pending().len() as int)
        &&& match c.2 {
            None => r == Ok::<Outcome, EngineError>(Outcome::EventsConsumed { count: c.1 as usize }),
            Some(e) => r == Err::<Outcome, EngineError>(e),
        }
    }
}

pub open spec fn owned_by(accounts: Seq<RiskAccount>, account: usize, signer: u64) -> bool {
    account < accounts.len() && accounts[account as int].owner == signer
}

/// The view of an account just created for `owner`.
pub open spec fn fresh_account(owner: u64, group: &MarginGroup) -> RiskAccountView {
    RiskAccountView {
        owner,
        deposits: Seq::new(group.num_assets as nat, |i: int| 0u64),
        borrows: Seq::new(group.num_assets as nat, |i: int| 0u64),
        perp_positions: Seq::new(
            group.markets@.len(),
            |i: int| PerpPosition { base_position: 0, quote_position: 0 },
        ),
    }
}

/// Account `i` now has view `v`, and every other account is as it was.
pub open spec fn only_account_changed(
    a0: Seq<RiskAccount>,
    a1: Seq<RiskAccount>,
    i: int,
    v: RiskAccountView,
) -> bool {
    &&& a1.len() == a0.len()
    &&& a1[i]@ == v
    &&& forall|j: int| 0 <= j < a0.len() && j != i ==> #[trigger] a1[j] == a0[j]
}

/// Every market but `i` is as it was.
pub open spec fn only_market_changed(m0: Seq<PerpMarket>, m1: Seq<PerpMarket>, i: int) -> bool {
    &&& m1.len() == m0.len()
    &&& forall|j: int| 0 <= j < m0.len() && j != i ==> #[trigger] m1[j] == m0[j]
}

/// How `PriceCache::refresh` leaves the cache, reported as an outcome.
pub open spec fn refresh_outcome(
    e0: Seq<Option<PriceEntry>>,
    e1: Seq<Option<PriceEntry>>,
    asset_index: usize,
    feed: RawFeed,
    now_slot: u64,
    r: Result<Outcome, EngineError>,
) -> bool {
    if asset_index >= e0.len() {
        r == Err::<Outcome, EngineError>(EngineError::AccountMismatch) && e1 == e0
    } else if e0[asset_index as int] is Some && feed_slot(feed)
        < e0[asset_index as int]->Some_0.source_slot {
        r == Err::<Outcome, EngineError>(EngineError::StaleOracleSource) && e1 == e0
    } else if !feed_usable(feed) {
        r == Err::<Outcome, EngineError>(EngineError::PriceUnavailable) && e1 == e0
    } else {
        r == Ok::<Outcome, EngineError>(Outcome::Done) && e1 == e0.update(
            asset_index as int,
            Some(
                PriceEntry {
                    price: feed_value(feed) as u64,
                    last_update_slot: now_slot,
                    source_slot: feed_slot(feed),
                },
            ),
        )
    }
}

proof fn lemma_accounts_after_update(
    a0: Seq<RiskAccount>,
    a1: Seq<RiskAccount>,
    i: int,
    num_assets: int,
    markets: Seq<crate::account::MarketConfig>,
)
    requires
        accounts_wf(a0, num_assets, markets),
        0 <= i < a0.len(),
        a1.len() == a0.len(),
        a1[i]@.wf(num_assets, markets),
        forall|j: int| 0 <= j < a0.len() && j != i ==> #[trigger] a1[j] == a0[j],
    ensures
        accounts_wf(a1, num_assets, markets),
{
    assert forall|j: int| 0 <= j < a1.len() implies (#[trigger] a1[j])@.wf(num_assets, markets) by {
        if j != i {
            assert(a0[j]@.wf(num_assets, markets));
        }
    }
}

proof fn lemma_markets_after_update(m0: Seq<PerpMarket>, m1: Seq<PerpMarket>, i: int)
    requires
        0 <= i < m0.len(),
        m1 == m0.update(i, m1[i]),
    ensures
        only_market_changed(m0, m1, i),
{
}

} // verus!
