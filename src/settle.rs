use vstd::prelude::*;

use crate::account::{MAX_BASE_POSITION, MarginGroup, MarketConfig, PerpPosition, RiskAccount, RiskAccountView, market_wf};
use crate::error::EngineError;
use crate::queue::{Event, EventKind, EventQueue, Side};

verus! {

/// The views of a list of accounts.
pub open spec fn views(accounts: Seq<RiskAccount>) -> Seq<RiskAccountView> {
    Seq::new(accounts.len(), |i: int| accounts[i]@)
}

pub open spec fn accounts_wf(accounts: Seq<RiskAccount>, num_assets: int, markets: Seq<MarketConfig>) -> bool {
    forall|i: int| 0 <= i < accounts.len() ==> (#[trigger] accounts[i])@.wf(num_assets, markets)
}

/// The position moved by `db` base lots and `dq` native quote units, if
/// the result stays within range.
pub open spec fn shifted(p: PerpPosition, db: int, dq: int) -> Option<PerpPosition> {
    let b = p.base_position + db;
    let q = p.quote_position + dq;
    if -MAX_BASE_POSITION <= b <= MAX_BASE_POSITION && i64::MIN <= q <= i64::MAX {
        Some(PerpPosition { base_position: b as i64, quote_position: q as i64 })
    } else {
        None
    }
}

/// The change a fill makes to the taker's position: base lots, and
/// native quote units.
pub open spec fn taker_deltas(e: Event, m: MarketConfig) -> (int, int) {
    let quote = e.quote_qty * m.quote_lot_size;
    match e.taker_side {
        Side::Bid => (e.base_qty as int, -quote),
        Side::Ask => (-e.base_qty, quote as int),
    }
}

pub open spec fn with_position(a: RiskAccountView, mi: int, p: PerpPosition) -> RiskAccountView {
    RiskAccountView { perp_positions: a.perp_positions.update(mi, p), ..a }
}

/// Applies one event to the accounts: a fill moves the taker's position
/// and then the maker's by the opposite amounts; an exit changes nothing.
pub open spec fn settle_spec(accounts: Seq<RiskAccountView>, markets: Seq<MarketConfig>, e: Event) -> Result<
    Seq<RiskAccountView>,
    EngineError,
> {
    if e.kind == EventKind::Out {
        Ok(accounts)
    } else if e.base_qty > i64::MAX || e.quote_qty > i64::MAX {
        Err(EngineError::Overflow)
    } else if e.market_index >= markets.len() || e.taker >= accounts.len() || e.maker
        >= accounts.len() {
        Err(EngineError::AccountMismatch)
    } else {
        let mi = e.market_index as int;
        let d = taker_deltas(e, markets[mi]);
        let t = accounts[e.taker as int];
        match shifted(t.perp_positions[mi], d.0, d.1) {
            None => Err(EngineError::Overflow),
            Some(tp) => {
                let a1 = accounts.update(e.taker as int, with_position(t, mi, tp));
                let mk = a1[e.maker as int];
                match shifted(mk.perp_positions[mi], -d.0, -d.1) {
                    None => Err(EngineError::Overflow),
                    Some(mp) => Ok(a1.update(e.maker as int, with_position(mk, mi, mp))),
                }
            },
        }
    }
}

/// Settles up to `n` events from the front of `events` in order, stopping
/// at the first that cannot be settled: the accounts after the settled
/// events, how many were settled, and the error that stopped it, if any.
pub open spec fn consume_spec(
    accounts: Seq<RiskAccountView>,
    markets: Seq<MarketConfig>,
    events: Seq<Event>,
    n: nat,
) -> (Seq<RiskAccountView>, nat, Option<EngineError>)
    decreases n,
{
    if n == 0 || events.len() == 0 {
        (accounts, 0, None)
    } else {
        match settle_spec(accounts, markets, events[0]) {
            Err(e) => (accounts, 0, Some(e)),
            Ok(a1) => {
                let r = consume_spec(a1, markets, events.drop_first(), (n - 1) as nat);
                (r.0, r.1 + 1, r.2)
            },
        }
    }
}

fn shift_exec(p: &PerpPosition, db: i128, dq: i128) -> (r: Option<PerpPosition>)
    requires
        -0x1_0000_0000_0000_0000 <= db <= 0x1_0000_0000_0000_0000,
        -0x100_0000_0000_0000_0000_0000 <= dq <= 0x100_0000_0000_0000_0000_0000,
    ensures
        r == shifted(*p, db as int, dq as int),
{
    let b = p.base_position as i128 + db;
    let q = p.quote_position as i128 + dq;
    if -(MAX_BASE_POSITION as i128) <= b && b <= MAX_BASE_POSITION as i128 && i64::MIN as i128 <= q
        && q <= i64::MAX as i128 {
        Some(PerpPosition { base_position: b as i64, quote_position: q as i64 })
    } else {
        None
    }
}

fn set_position(accounts: &mut Vec<RiskAccount>, i: usize, mi: usize, p: PerpPosition)
    requires
        i < old(accounts)@.len(),
        mi < old(accounts)@[i as int].perp_positions@.len(),
    ensures
        final(accounts)@.len() == old(accounts)@.len(),
        forall|j: int| 0 <= j < old(accounts)@.len() && j != i ==> #[trigger] final(accounts)@[j] == old(accounts)@[j],
        final(accounts)@[i as int]@ == with_position(old(accounts)@[i as int]@, mi as int, p),
{
    accounts[i].perp_positions.set(mi, p);
}

/// Applies one event to `accounts`, or fails, changing nothing.
pub fn settle_event(accounts: &mut Vec<RiskAccount>, group: &MarginGroup, e: &Event) -> (r: Result<(), EngineError>)
    requires
        group.wf(),
        accounts_wf(old(accounts)@, group.num_assets as int, group.markets@),
    ensures
        accounts_wf(final(accounts)@, group.num_assets as int, group.markets@),
        match settle_spec(views(old(accounts)@), group.markets@, *e) {
            Ok(v) => r is Ok && views(final(accounts)@) == v,
            Err(err) => r == Err::<(), EngineError>(err) && views(final(accounts)@) == views(old(accounts)@),
        },
{
    proof {
        assert(views(old(accounts)@).len() == old(accounts)@.len());
    }
    if let EventKind::Out = e.kind {
        return Ok(());
    }
    if e.base_qty > i64::MAX as u64 || e.quote_qty > i64::MAX as u64 {
        return Err(EngineError::Overflow);
    }
    if e.market_index >= group.markets.len() || e.taker >= accounts.len() || e.maker >= accounts.len() {
        return Err(EngineError::AccountMismatch);
    }
    let mi = e.market_index;
    let m = &group.markets[mi];
    assert(market_wf(group.markets@[mi as int], group.num_assets as int));
    let qq = e.quote_qty as i128;
    let ql = m.quote_lot_size as i128;
    assert(0 <= qq * ql <= 0x10_0000_0000_0000_0000_0000) by (nonlinear_arith)
        requires
            0 <= qq <= 0x8000_0000_0000_0000,
            0 <= ql <= 0x10_0000,
    ;
    let quote: i128 = qq * ql;
    let (db, dq): (i128, i128) = match e.taker_side {
        Side::Bid => (e.base_qty as i128, -quote),
        Side::Ask => (-(e.base_qty as i128), quote),
    };
    let ghost a0 = views(old(accounts)@);
    assert(accounts@[e.taker as int]@.wf(group.num_assets as int, group.markets@));
    let old_tp = accounts[e.taker].perp_positions[mi];
    let tp = match shift_exec(&old_tp, db, dq) {
        None => return Err(EngineError::Overflow),
        Some(p) => p,
    };
    set_position(accounts, e.taker, mi, tp);
    let ghost a1 = views(accounts@);
    proof {
        assert(a1 =~= a0.update(e.taker as int, with_position(a0[e.taker as int], mi as int, tp)));
    }
    assert(accounts@[e.maker as int]@.perp_positions.len() == group.markets@.len());
    let old_mp = accounts[e.maker].perp_positions[mi];
    let mp = match shift_exec(&old_mp, -db, -dq) {
        None => {
            set_position(accounts, e.taker, mi, old_tp);
            proof {
                assert(views(accounts@) =~= a0) by {
                    assert forall|j: int| 0 <= j < a0.len() implies views(accounts@)[j] == a0[j] by {
                        if j == e.taker as int {
                            assert(views(accounts@)[j].perp_positions =~= a0[j].perp_positions);
                        }
                    }
                }
                assert forall|j: int| 0 <= j < accounts@.len() implies (#[trigger] accounts@[j])@.wf(group.num_assets as int, group.markets@) by {
                    assert(old(accounts)@[j]@.wf(group.num_assets as int, group.markets@));
                    if j == e.taker as int {
                        assert(accounts@[j]@.perp_positions =~= old(accounts)@[j]@.perp_positions);
                    }
                }
            }
            return Err(EngineError::Overflow);
        },
        Some(p) => p,
    };
    set_position(accounts, e.maker, mi, mp);
    proof {
        assert(views(accounts@) =~= a1.update(e.maker as int, with_position(a1[e.maker as int], mi as int, mp)));
        assert forall|j: int| 0 <= j < accounts@.len() implies (#[trigger] accounts@[j])@.wf(group.num_assets as int, group.markets@) by {
            assert(old(accounts)@[j]@.wf(group.num_assets as int, group.markets@));
        }
    }
    Ok(())
}

/// Settles up to `max_events` events from the front of `queue` into
/// `accounts`, in order, removing each one settled. Stops at the first
/// event that cannot be settled, which stays at the front, and returns its
/// error; otherwise returns how many events were settled.
pub fn consume_events(
    queue: &mut EventQueue,
    accounts: &mut Vec<RiskAccount>,
    group: &MarginGroup,
    max_events: usize,
) -> (r: Result<usize, EngineError>)
    requires
        old(queue).wf(),
        group.wf(),
        accounts_wf(old(accounts)@, group.num_assets as int, group.markets@),
    ensures
        final(queue).wf(),
        final(queue).capacity == old(queue).capacity,
        final(queue).seq_num == old(queue).seq_num,
        accounts_wf(final(accounts)@, group.num_assets as int, group.markets@),
        ({
            let c = consume_spec(views(old(accounts)@), group.markets@, old(queue).pending(), max_events as nat);
            &&& views(final(accounts)@) == c.0
            &&& c.1 <= old(queue).pending().len()
            &&& final(queue).pending() == old(queue).pending().subrange(c.1 as int, old(queue).pending().len() as int)
            &&& match c.2 {
                None => r == Ok::<usize, EngineError>(c.1 as usize),
                Some(e) => r == Err::<usize, EngineError>(e),
            }
        }),
{
    let ghost a0 = views(old(accounts)@);
    let ghost ev0 = old(queue).pending();
    let mut count: usize = 0;
    proof {
        assert(ev0.subrange(0, ev0.len() as int) =~= ev0);
    }
    while count < max_events && queue.len() > 0
        invariant
            a0 == views(old(accounts)@),
            ev0 == old(queue).pending(),
            count <= max_events,
            count <= ev0.len(),
            queue.wf(),
            queue.capacity == old(queue).capacity,
            queue.seq_num == old(queue).seq_num,
            group.wf(),
            accounts_wf(accounts@, group.num_assets as int, group.markets@),
            queue.pending() == ev0.subrange(count as int, ev0.len() as int),
            ({
                let c = consume_spec(views(accounts@), group.markets@, queue.pending(), (max_events - count) as nat);
                consume_spec(a0, group.markets@, ev0, max_events as nat) == (c.0, (c.1 + count) as nat, c.2)
            }),
        decreases max_events - count,
    {
        let e = queue.events[0];
        let settled = settle_event(accounts, group, &e);
        match settled {
            Err(err) => {
                proof {
                    let c = consume_spec(views(accounts@), group.markets@, queue.pending(), (max_events - count) as nat);
                    assert(c == (views(accounts@), 0nat, Some(err)));
                }
                return Err(err);
            },
            Ok(()) => {},
        }
        let ghost before = queue.pending();
        let _ = queue.pop_front();
        proof {
            assert(before.drop_first() =~= ev0.subrange(count + 1, ev0.len() as int));
        }
        count = count + 1;
    }
    proof {
        let c = consume_spec(views(accounts@), group.markets@, queue.pending(), (max_events - count) as nat);
        assert(c == (views(accounts@), 0nat, None::<EngineError>));
    }
    Ok(count)
}

} // verus!
