//! The rewards engine: linear reward batches per market side, an index
//! accumulator advanced before any read of per-account bases, per-account
//! catch-up distribution, batch lifecycle operations and premium boosters.
//!
//! A batch pays `speed` tokens (WAD-scaled) per second between `last_time`
//! and `end_time`. Advancing the state divides the accrued rewards by the
//! side's base total (collateral tokens, or borrows discounted to
//! inception plus one); rewards that cannot move the index are routed to
//! the undistributed pot.

use crate::controller::{
    count_batches, Controller, MarketEntry, MarketType, RewardsBatch, RewardsBooster,
    StorageModule, SwapStep, MAX_PREMIUM, MIN_REWARDS_BATCH_TOLERANCE,
};
use crate::store::has_key;
use crate::errors::Error;
use crate::market::WAD_SQUARED;
use crate::math::{mul_div_floor, mul_le, WAD};
use vstd::prelude::*;

verus! {

/// One payment produced by a claim: rewards of one token for one account,
/// either raw or routed through a booster swap.
#[derive(Clone, Copy, Debug, PartialEq, Eq, Structural)]
pub struct RewardPayment {
    pub account: u64,
    pub token_id: u64,
    pub amount: u128,
    pub boosted: bool,
}

/// One step of a batch: the batch after advancing its index to `now`
/// against the side's base `denom`, and the rewards routed to the
/// undistributed pot; `None` when a value leaves 128 bits.
pub open spec fn spec_batch_update(b: RewardsBatch, denom: int, now: u64) -> Option<
    (RewardsBatch, int),
> {
    let stop = if now > b.end_time {
        b.end_time
    } else {
        now
    };
    if b.last_time >= stop {
        Some((b, 0))
    } else {
        let b1 = RewardsBatch { last_time: stop, ..b };
        if b.speed == 0 {
            Some((b1, 0))
        } else {
            let accrued = b.speed * (stop - b.last_time);
            if accrued > u128::MAX {
                Option::None
            } else if denom == 0 {
                let delta = accrued / (WAD as int);
                if b.distributed_amount + delta > u128::MAX {
                    Option::None
                } else {
                    Some(
                        (
                            RewardsBatch {
                                distributed_amount: (b.distributed_amount + delta) as u128,
                                ..b1
                            },
                            delta,
                        ),
                    )
                }
            } else {
                let di = accrued * WAD / denom;
                if di == 0 {
                    Some((b1, accrued / (WAD as int)))
                } else if b.index + di > u128::MAX {
                    Option::None
                } else {
                    Some((RewardsBatch { index: (b.index + di) as u128, ..b1 }, 0))
                }
            }
        }
    }
}

/// The rewards one account catches up on from one batch: its base times
/// the index gain since its stored snapshot, which defaults to the batch's
/// starting index. A snapshot above the batch index contributes nothing.
pub open spec fn spec_distribute_delta(b: RewardsBatch, prev: Option<u128>, base: int) -> int {
    let p = match prev {
        Option::Some(v) => v as int,
        Option::None => WAD_SQUARED as int,
    };
    if b.index >= p {
        base * (b.index - p) / (WAD_SQUARED as int)
    } else {
        0
    }
}

/// Whether a batch pays one side of one market.
pub open spec fn batch_selected(b: RewardsBatch, m: u64, side: MarketType) -> bool {
    b.money_market == m && b.market_type == side
}

/// The rewards routed to `token`'s undistributed pot when the batches
/// from position `i` on are advanced to `now`.
pub open spec fn spec_routed_from(
    c: Controller,
    m: u64,
    side: MarketType,
    denom: int,
    now: u64,
    token: u64,
    i: int,
) -> int
    decreases c.batches@.len() - i,
{
    if i < 0 || i >= c.batches@.len() {
        0
    } else {
        let b = c.batches@[i];
        let here: int = if batch_selected(b, m, side) && b.token_id == token && spec_batch_update(
            b,
            denom,
            now,
        ) is Some {
            spec_batch_update(b, denom, now).unwrap().1
        } else {
            0
        };
        here + spec_routed_from(c, m, side, denom, now, token, i + 1)
    }
}

/// The catch-up credit an account collects in `token` from the batches
/// from position `i` on.
pub open spec fn spec_credit_from(
    c: Controller,
    m: u64,
    side: MarketType,
    account: u64,
    base: int,
    token: u64,
    i: int,
) -> int
    decreases c.batches@.len() - i,
{
    if i < 0 || i >= c.batches@.len() {
        0
    } else {
        let b = c.batches@[i];
        let here: int = if batch_selected(b, m, side) && b.token_id == token {
            spec_distribute_delta(b, c.batch_indexes.lookup(m, b.id, account), base)
        } else {
            0
        };
        here + spec_credit_from(c, m, side, account, base, token, i + 1)
    }
}

/// Whether advancing one side of one market to `now` stays within 128
/// bits: every selected batch's step fits, and every undistributed pot
/// has room for what is routed to it.
pub open spec fn update_fits(c: Controller, m: u64, side: MarketType, denom: int, now: u64) -> bool {
    &&& forall|i: int|
        0 <= i < c.batches@.len() && batch_selected(#[trigger] c.batches@[i], m, side)
            ==> spec_batch_update(c.batches@[i], denom, now) is Some
    &&& forall|t: u64|
        undist_of(c, t) + #[trigger] spec_routed_from(c, m, side, denom, now, t, 0) <= u128::MAX
}

/// Whether catching one account up on one side of one market stays
/// within 128 bits: every batch can absorb its distributed increment,
/// and every accrued balance has room for its credit.
pub open spec fn distribution_fits(
    c: Controller,
    m: u64,
    side: MarketType,
    account: u64,
    base: int,
) -> bool {
    &&& forall|i: int|
        0 <= i < c.batches@.len() && batch_selected(#[trigger] c.batches@[i], m, side)
            ==> c.batches@[i].distributed_amount + spec_distribute_delta(
            c.batches@[i],
            c.batch_indexes.lookup(m, c.batches@[i].id, account),
            base,
        ) <= u128::MAX
    &&& forall|t: u64|
        accrued_of(c, account, t) + #[trigger] spec_credit_from(c, m, side, account, base, t, 0)
            <= u128::MAX
}

/// The undistributed rewards recorded for a token.
pub open spec fn undist_of(c: Controller, token: u64) -> int {
    match c.undistributed.lookup(token, 0, 0) {
        Option::Some(v) => v as int,
        Option::None => 0,
    }
}

/// The accrued, unclaimed rewards of an account in a token.
pub open spec fn accrued_of(c: Controller, account: u64, token: u64) -> int {
    match c.account_rewards.lookup(account, token, 0) {
        Option::Some(v) => v as int,
        Option::None => 0,
    }
}

/// The rewards entry points of the controller.
pub trait RewardsModule: StorageModule {
    /// Advances all supply-side batches of one market to `now`.
    fn update_supply_rewards_batches_state(&mut self, m: u64, now: u64) -> (r: Result<(), Error>)
        requires
            old(self).ctl().wf(),
        ensures
            final(self).ctl().wf(),
            final(self).ctl().markets == old(self).ctl().markets,
            final(self).ctl().collaterals == old(self).ctl().collaterals,
            final(self).ctl().memberships == old(self).ctl().memberships,
            match r {
                Ok(()) => {
                    let denom = old(self).ctl().markets.lookup(
                        m,
                        0,
                        0,
                    ).unwrap().total_collateral_tokens as int;
                    {
                        &&& old(self).ctl().whitelisted(m)
                        &&& final(self).ctl().batches@.len() == old(self).ctl().batches@.len()
                        &&& forall|i: int|
                            0 <= i < old(self).ctl().batches@.len() ==> #[trigger] final(self).ctl().batches@[i] == (if old(self).ctl().batches@[i].money_market
                                == m && old(self).ctl().batches@[i].market_type
                                == MarketType::Supply {
                                spec_batch_update(
                                    old(self).ctl().batches@[i],
                                    denom,
                                    now,
                                ).unwrap().0
                            } else {
                                old(self).ctl().batches@[i]
                            })
                        &&& forall|i: int|
                            0 <= i < old(self).ctl().batches@.len() ==> (#[trigger] final(self).ctl().batches@[i]).index >= old(self).ctl().batches@[i].index
                        &&& forall|t: u64|
                            #[trigger] undist_of(final(self).ctl(), t) == undist_of(
                                old(self).ctl(),
                                t,
                            ) + spec_routed_from(
                                old(self).ctl(),
                                m,
                                MarketType::Supply,
                                denom,
                                now,
                                t,
                                0,
                            )
                        &&& final(self).ctl().account_rewards == old(self).ctl().account_rewards
                        &&& final(self).ctl().batch_indexes == old(self).ctl().batch_indexes
                    }
                },
                Err(e) => e == Error::NotWhitelisted && !old(self).ctl().whitelisted(m) && final(self).ctl() == old(self).ctl() || e == Error::Arithmetic && old(self).ctl().whitelisted(m)
                    && !update_fits(
                    old(self).ctl(),
                    m,
                    MarketType::Supply,
                    old(self).ctl().markets.lookup(m, 0, 0).unwrap().total_collateral_tokens as int,
                    now,
                ),
            },
    ;

    /// Advances all borrow-side batches of one market to `now`, against
    /// the market's borrows discounted to inception (plus one when they
    /// are not zero, capping index dust).
    fn update_borrow_rewards_batches_state(
        &mut self,
        m: u64,
        base_total_borrows: u128,
        now: u64,
    ) -> (r: Result<(), Error>)
        requires
            old(self).ctl().wf(),
        ensures
            final(self).ctl().wf(),
            final(self).ctl().markets == old(self).ctl().markets,
            final(self).ctl().collaterals == old(self).ctl().collaterals,
            final(self).ctl().memberships == old(self).ctl().memberships,
            match r {
                Ok(()) => {
                    let denom: int = if base_total_borrows == 0 {
                        0
                    } else {
                        base_total_borrows + 1
                    };
                    {
                        &&& old(self).ctl().whitelisted(m)
                        &&& final(self).ctl().batches@.len() == old(self).ctl().batches@.len()
                        &&& forall|i: int|
                            0 <= i < old(self).ctl().batches@.len() ==> #[trigger] final(self).ctl().batches@[i] == (if old(self).ctl().batches@[i].money_market
                                == m && old(self).ctl().batches@[i].market_type
                                == MarketType::Borrow {
                                spec_batch_update(
                                    old(self).ctl().batches@[i],
                                    denom,
                                    now,
                                ).unwrap().0
                            } else {
                                old(self).ctl().batches@[i]
                            })
                        &&& forall|i: int|
                            0 <= i < old(self).ctl().batches@.len() ==> (#[trigger] final(self).ctl().batches@[i]).index >= old(self).ctl().batches@[i].index
                        &&& forall|t: u64|
                            #[trigger] undist_of(final(self).ctl(), t) == undist_of(
                                old(self).ctl(),
                                t,
                            ) + spec_routed_from(
                                old(self).ctl(),
                                m,
                                MarketType::Borrow,
                                denom,
                                now,
                                t,
                                0,
                            )
                        &&& final(self).ctl().account_rewards == old(self).ctl().account_rewards
                        &&& final(self).ctl().batch_indexes == old(self).ctl().batch_indexes
                    }
                },
                Err(e) => e == Error::NotWhitelisted && !old(self).ctl().whitelisted(m) && final(self).ctl() == old(self).ctl() || e == Error::Arithmetic && (base_total_borrows
                    == u128::MAX || !update_fits(
                    old(self).ctl(),
                    m,
                    MarketType::Borrow,
                    if base_total_borrows == 0 {
                        0int
                    } else {
                        base_total_borrows + 1
                    },
                    now,
                )),
            },
    ;

    /// Catches one supplier up on all supply-side batches of a market:
    /// the account earns its collateral share of each index gain, and the
    /// batch records the rewards as distributed.
    fn distribute_supplier_batches_rewards(&mut self, m: u64, supplier: u64) -> (r: Result<
        (),
        Error,
    >)
        requires
            old(self).ctl().wf(),
        ensures
            final(self).ctl().wf(),
            final(self).ctl().markets == old(self).ctl().markets,
            final(self).ctl().collaterals == old(self).ctl().collaterals,
            final(self).ctl().memberships == old(self).ctl().memberships,
            match r {
                Ok(()) => {
                    let base = crate::controller::spec_collateral(
                        old(self).ctl().collaterals@,
                        m,
                        supplier,
                    );
                    {
                        &&& final(self).ctl().batches@.len() == old(self).ctl().batches@.len()
                        &&& forall|i: int|
                            0 <= i < old(self).ctl().batches@.len() ==> #[trigger] final(self).ctl().batches@[i] == (if old(self).ctl().batches@[i].money_market
                                == m && old(self).ctl().batches@[i].market_type
                                == MarketType::Supply {
                                RewardsBatch {
                                    distributed_amount: (old(self).ctl().batches@[i].distributed_amount + spec_distribute_delta(
                                        old(self).ctl().batches@[i],
                                        old(self).ctl().batch_indexes.lookup(
                                            m,
                                            old(self).ctl().batches@[i].id,
                                            supplier,
                                        ),
                                        base,
                                    )) as u128,
                                    ..old(self).ctl().batches@[i]
                                }
                            } else {
                                old(self).ctl().batches@[i]
                            })
                        &&& forall|t: u64|
                            #[trigger] accrued_of(final(self).ctl(), supplier, t) == accrued_of(
                                old(self).ctl(),
                                supplier,
                                t,
                            ) + spec_credit_from(
                                old(self).ctl(),
                                m,
                                MarketType::Supply,
                                supplier,
                                base,
                                t,
                                0,
                            )
                        &&& forall|a2: u64, t2: u64|
                            a2 != supplier ==> #[trigger] accrued_of(final(self).ctl(), a2, t2)
                                == accrued_of(old(self).ctl(), a2, t2)
                        &&& forall|k: int|
                            0 <= k < old(self).ctl().batches@.len() && batch_selected(
                                #[trigger] old(self).ctl().batches@[k],
                                m,
                                MarketType::Supply,
                            ) ==> final(self).ctl().batch_indexes.lookup(
                                m,
                                old(self).ctl().batches@[k].id,
                                supplier,
                            ) == Some(old(self).ctl().batches@[k].index)
                        &&& forall|x: u64, y: u64, z: u64|
                            !(x == m && z == supplier) ==> #[trigger] final(self).ctl().batch_indexes.lookup(x, y, z) == old(self).ctl().batch_indexes.lookup(x, y, z)
                        &&& final(self).ctl().undistributed == old(self).ctl().undistributed
                    }
                },
                Err(e) => e == Error::Arithmetic && !distribution_fits(
                    old(self).ctl(),
                    m,
                    MarketType::Supply,
                    supplier,
                    crate::controller::spec_collateral(old(self).ctl().collaterals@, m, supplier),
                ),
            },
    ;

    /// Catches one borrower up on all borrow-side batches of a market;
    /// `base_borrow` is the account's principal discounted to inception,
    /// read from the market.
    fn distribute_borrower_batches_rewards(&mut self, m: u64, borrower: u64, base_borrow: u128) -> (r:
        Result<(), Error>)
        requires
            old(self).ctl().wf(),
        ensures
            final(self).ctl().wf(),
            final(self).ctl().markets == old(self).ctl().markets,
            final(self).ctl().collaterals == old(self).ctl().collaterals,
            final(self).ctl().memberships == old(self).ctl().memberships,
            match r {
                Ok(()) => {
                    &&& final(self).ctl().batches@.len() == old(self).ctl().batches@.len()
                    &&& forall|i: int|
                        0 <= i < old(self).ctl().batches@.len() ==> #[trigger] final(self).ctl().batches@[i] == (if old(self).ctl().batches@[i].money_market == m
                            && old(self).ctl().batches@[i].market_type == MarketType::Borrow {
                            RewardsBatch {
                                distributed_amount: (old(self).ctl().batches@[i].distributed_amount + spec_distribute_delta(
                                    old(self).ctl().batches@[i],
                                    old(self).ctl().batch_indexes.lookup(
                                        m,
                                        old(self).ctl().batches@[i].id,
                                        borrower,
                                    ),
                                    base_borrow as int,
                                )) as u128,
                                ..old(self).ctl().batches@[i]
                            }
                        } else {
                            old(self).ctl().batches@[i]
                        })
                    &&& forall|t: u64|
                        #[trigger] accrued_of(final(self).ctl(), borrower, t) == accrued_of(
                            old(self).ctl(),
                            borrower,
                            t,
                        ) + spec_credit_from(
                            old(self).ctl(),
                            m,
                            MarketType::Borrow,
                            borrower,
                            base_borrow as int,
                            t,
                            0,
                        )
                    &&& forall|a2: u64, t2: u64|
                        a2 != borrower ==> #[trigger] accrued_of(final(self).ctl(), a2, t2)
                            == accrued_of(old(self).ctl(), a2, t2)
                    &&& forall|k: int|
                        0 <= k < old(self).ctl().batches@.len() && batch_selected(
                            #[trigger] old(self).ctl().batches@[k],
                            m,
                            MarketType::Borrow,
                        ) ==> final(self).ctl().batch_indexes.lookup(
                            m,
                            old(self).ctl().batches@[k].id,
                            borrower,
                        ) == Some(old(self).ctl().batches@[k].index)
                    &&& forall|x: u64, y: u64, z: u64|
                        !(x == m && z == borrower) ==> #[trigger] final(self).ctl().batch_indexes.lookup(x, y, z) == old(self).ctl().batch_indexes.lookup(x, y, z)
                    &&& final(self).ctl().undistributed == old(self).ctl().undistributed
                },
                Err(e) => e == Error::Arithmetic && !distribution_fits(
                    old(self).ctl(),
                    m,
                    MarketType::Borrow,
                    borrower,
                    base_borrow as int,
                ),
            },
    ;
}

impl RewardsModule for Controller {
    fn update_supply_rewards_batches_state(&mut self, m: u64, now: u64) -> (r: Result<(), Error>) {
        let entry = match self.market_entry(m) {
            None => { return Err(Error::NotWhitelisted) },
            Some(e) => e,
        };
        let denom = entry.total_collateral_tokens;
        self.update_batches_internal(m, MarketType::Supply, denom, now)
    }

    fn update_borrow_rewards_batches_state(
        &mut self,
        m: u64,
        base_total_borrows: u128,
        now: u64,
    ) -> (r: Result<(), Error>) {
        if self.market_entry(m).is_none() {
            return Err(Error::NotWhitelisted);
        }
        let denom: u128 = if base_total_borrows == 0 {
            0
        } else {
            if base_total_borrows == u128::MAX {
                return Err(Error::Arithmetic);
            }
            base_total_borrows + 1
        };
        self.update_batches_internal(m, MarketType::Borrow, denom, now)
    }

    fn distribute_supplier_batches_rewards(&mut self, m: u64, supplier: u64) -> (r: Result<
        (),
        Error,
    >) {
        let base = self.get_account_collateral_tokens(m, supplier);
        self.distribute_batches_internal(m, MarketType::Supply, supplier, base)
    }

    fn distribute_borrower_batches_rewards(&mut self, m: u64, borrower: u64, base_borrow: u128) -> (r:
        Result<(), Error>) {
        self.distribute_batches_internal(m, MarketType::Borrow, borrower, base_borrow)
    }
}

impl Controller {
    /// Advances all batches of one side of one market to `now`.
    #[verifier::rlimit(80)]
    fn update_batches_internal(&mut self, m: u64, side: MarketType, denom: u128, now: u64) -> (r:
        Result<(), Error>)
        requires
            old(self).wf(),
        ensures
            final(self).wf(),
            final(self).markets == old(self).markets,
            final(self).collaterals == old(self).collaterals,
            final(self).memberships == old(self).memberships,
            match r {
                Ok(()) => {
                    &&& final(self).batches@.len() == old(self).batches@.len()
                    &&& forall|i: int|
                        0 <= i < old(self).batches@.len() ==> #[trigger] final(self).batches@[i]
                            == (if old(self).batches@[i].money_market == m && old(self).batches@[i].market_type == side {
                            spec_batch_update(old(self).batches@[i], denom as int, now).unwrap().0
                        } else {
                            old(self).batches@[i]
                        })
                    &&& forall|i: int|
                        0 <= i < old(self).batches@.len() ==> (#[trigger] final(self).batches@[i]).index >= old(self).batches@[i].index
                    &&& forall|t: u64|
                        #[trigger] undist_of(*final(self), t) == undist_of(*old(self), t)
                            + spec_routed_from(*old(self), m, side, denom as int, now, t, 0)
                    &&& final(self).account_rewards == old(self).account_rewards
                    &&& final(self).batch_indexes == old(self).batch_indexes
                },
                Err(e) => e == Error::Arithmetic && !update_fits(
                    *old(self),
                    m,
                    side,
                    denom as int,
                    now,
                ),
            },
    {
        let ghost c0 = *self;
        let mut i: usize = 0;
        while i < self.batches.len()
            invariant
                self.wf(),
                c0.wf(),
                c0 == *old(self),
                i <= self.batches@.len(),
                self.batches@.len() == c0.batches@.len(),
                forall|k: int|
                    0 <= k < i ==> #[trigger] self.batches@[k] == (if c0.batches@[k].money_market
                        == m && c0.batches@[k].market_type == side {
                        spec_batch_update(c0.batches@[k], denom as int, now).unwrap().0
                    } else {
                        c0.batches@[k]
                    }),
                forall|k: int|
                    i <= k < c0.batches@.len() ==> #[trigger] self.batches@[k] == c0.batches@[k],
                forall|k: int|
                    0 <= k < c0.batches@.len() ==> (#[trigger] self.batches@[k]).index
                        >= c0.batches@[k].index,
                forall|t: u64|
                    #[trigger] undist_of(*self, t) + spec_routed_from(
                        c0,
                        m,
                        side,
                        denom as int,
                        now,
                        t,
                        i as int,
                    ) == undist_of(c0, t) + spec_routed_from(c0, m, side, denom as int, now, t, 0),
                self.markets == c0.markets,
                self.collaterals == c0.collaterals,
                self.memberships == c0.memberships,
                self.account_rewards == c0.account_rewards,
                self.batch_indexes == c0.batch_indexes,
            decreases self.batches@.len() - i,
        {
            let ghost c_entry = *self;
            let b = self.batches[i];
            let ghost routed_here: int = 0;
            if b.money_market == m && matches_side(b.market_type, side) {
                let stop = if now > b.end_time {
                    b.end_time
                } else {
                    now
                };
                if b.last_time < stop {
                    if b.speed == 0 {
                        let updated = RewardsBatch { last_time: stop, ..b };
                        let ghost pre = *self;
                        self.batches.set(i, updated);
                        proof {
                            lemma_batches_wf_after_update(pre, *self, i as int, updated);
                        }
                    } else {
                        let dt: u64 = stop - b.last_time;
                        let accrued = match b.speed.checked_mul(dt as u128) {
                            None => {
                                proof {
                                    assert(spec_batch_update(
                                        c0.batches@[i as int],
                                        denom as int,
                                        now,
                                    ) is None);
                                }
                                return Err(Error::Arithmetic);
                            },
                            Some(v) => v,
                        };
                        if denom == 0 {
                            let delta = accrued / WAD;
                            let new_distributed = match b.distributed_amount.checked_add(delta) {
                                None => {
                                    proof {
                                        assert(spec_batch_update(
                                            c0.batches@[i as int],
                                            denom as int,
                                            now,
                                        ) is None);
                                    }
                                    return Err(Error::Arithmetic);
                                },
                                Some(v) => v,
                            };
                            let updated = RewardsBatch {
                                last_time: stop,
                                distributed_amount: new_distributed,
                                ..b
                            };
                            let ghost pre = *self;
                            self.batches.set(i, updated);
                            proof {
                                lemma_batches_wf_after_update(pre, *self, i as int, updated);
                            }
                            match self.add_undistributed(b.token_id, delta) {
                                Err(e) => {
                                    proof {
                                        assert(spec_routed_from(
                                            c0,
                                            m,
                                            side,
                                            denom as int,
                                            now,
                                            b.token_id,
                                            i as int,
                                        ) == delta + spec_routed_from(
                                            c0,
                                            m,
                                            side,
                                            denom as int,
                                            now,
                                            b.token_id,
                                            i as int + 1,
                                        ));
                                        assert(undist_of(c_entry, b.token_id) + delta
                                            > u128::MAX);
                                        lemma_update_pot_overflow(
                                            c0,
                                            c_entry,
                                            m,
                                            side,
                                            denom as int,
                                            now,
                                            b.token_id,
                                            i as int,
                                            delta as int,
                                        );
                                    }
                                    return Err(e);
                                },
                                Ok(()) => {},
                            }
                            proof {
                                routed_here = delta as int;
                            }
                        } else {
                            let di = match mul_div_floor(accrued, WAD, denom) {
                                None => {
                                    proof {
                                        assert(spec_batch_update(
                                            c0.batches@[i as int],
                                            denom as int,
                                            now,
                                        ) is None);
                                    }
                                    return Err(Error::Arithmetic);
                                },
                                Some(v) => v,
                            };
                            if di != 0 {
                                let new_index = match b.index.checked_add(di) {
                                    None => {
                                        proof {
                                            assert(spec_batch_update(
                                                c0.batches@[i as int],
                                                denom as int,
                                                now,
                                            ) is None);
                                        }
                                        return Err(Error::Arithmetic);
                                    },
                                    Some(v) => v,
                                };
                                let updated = RewardsBatch {
                                    last_time: stop,
                                    index: new_index,
                                    ..b
                                };
                                let ghost pre = *self;
                                self.batches.set(i, updated);
                                proof {
                                    lemma_batches_wf_after_update(pre, *self, i as int, updated);
                                }
                            } else {
                                let updated = RewardsBatch { last_time: stop, ..b };
                                let ghost pre = *self;
                                self.batches.set(i, updated);
                                proof {
                                    lemma_batches_wf_after_update(pre, *self, i as int, updated);
                                }
                                let residue = accrued / WAD;
                                match self.add_undistributed(b.token_id, residue) {
                                    Err(e) => {
                                        proof {
                                            assert(spec_routed_from(
                                                c0,
                                                m,
                                                side,
                                                denom as int,
                                                now,
                                                b.token_id,
                                                i as int,
                                            ) == residue + spec_routed_from(
                                                c0,
                                                m,
                                                side,
                                                denom as int,
                                                now,
                                                b.token_id,
                                                i as int + 1,
                                            ));
                                            assert(undist_of(c_entry, b.token_id) + residue
                                                > u128::MAX);
                                            lemma_update_pot_overflow(
                                                c0,
                                                c_entry,
                                                m,
                                                side,
                                                denom as int,
                                                now,
                                                b.token_id,
                                                i as int,
                                                residue as int,
                                            );
                                        }
                                        return Err(e);
                                    },
                                    Ok(()) => {},
                                }
                                proof {
                                    routed_here = residue as int;
                                }
                            }
                        }
                    }
                }
            }
            proof {
                assert(spec_routed_from(c0, m, side, denom as int, now, b.token_id, i as int)
                    == routed_here + spec_routed_from(
                    c0,
                    m,
                    side,
                    denom as int,
                    now,
                    b.token_id,
                    i as int + 1,
                ));
                assert forall|t: u64|
                    #[trigger] undist_of(*self, t) + spec_routed_from(
                        c0,
                        m,
                        side,
                        denom as int,
                        now,
                        t,
                        i as int + 1,
                    ) == undist_of(c0, t) + spec_routed_from(
                        c0,
                        m,
                        side,
                        denom as int,
                        now,
                        t,
                        0,
                    ) by {
                    assert(undist_of(c_entry, t) + spec_routed_from(
                        c0,
                        m,
                        side,
                        denom as int,
                        now,
                        t,
                        i as int,
                    ) == undist_of(c0, t) + spec_routed_from(c0, m, side, denom as int, now, t, 0));
                    if t == b.token_id {
                        assert(undist_of(*self, t) == undist_of(c_entry, t) + routed_here);
                    } else {
                        assert(undist_of(*self, t) == undist_of(c_entry, t));
                    }
                }
            }
            i = i + 1;
        }
        Ok(())
    }

    /// Adds rewards to a token's undistributed pot.
    fn add_undistributed(&mut self, token: u64, delta: u128) -> (r: Result<(), Error>)
        requires
            old(self).undistributed.wf(),
        ensures
            final(self).undistributed.wf(),
            match r {
                Ok(()) => {
                    &&& undist_of(*final(self), token) == undist_of(*old(self), token) + delta
                    &&& forall|t: u64|
                        t != token ==> #[trigger] final(self).undistributed.lookup(t, 0, 0) == old(self).undistributed.lookup(t, 0, 0)
                },
                Err(e) => e == Error::Arithmetic && *final(self) == *old(self) && undist_of(
                    *old(self),
                    token,
                ) + delta > u128::MAX,
            },
            final(self).markets == old(self).markets,
            final(self).batches == old(self).batches,
            final(self).collaterals == old(self).collaterals,
            final(self).memberships == old(self).memberships,
            final(self).account_rewards == old(self).account_rewards,
            final(self).batch_indexes == old(self).batch_indexes,
            final(self).boosters == old(self).boosters,
            final(self).max_markets_per_account == old(self).max_markets_per_account,
            final(self).global_seize_status == old(self).global_seize_status,
            final(self).boosting_state == old(self).boosting_state,
            final(self).boosting_supported == old(self).boosting_supported,
            final(self).max_slippage == old(self).max_slippage,
            final(self).ush_market_observer == old(self).ush_market_observer,
    {
        let current = match self.undistributed.get(token, 0, 0) {
            Some(v) => v,
            None => 0,
        };
        let new_total = match current.checked_add(delta) {
            None => { return Err(Error::Arithmetic) },
            Some(v) => v,
        };
        self.undistributed.set(token, 0, 0, new_total);
        Ok(())
    }

    /// Adds catch-up rewards to an account's accrued balance.
    fn add_accrued(&mut self, account: u64, token: u64, delta: u128) -> (r: Result<(), Error>)
        requires
            old(self).account_rewards.wf(),
        ensures
            final(self).account_rewards.wf(),
            match r {
                Ok(()) => {
                    &&& accrued_of(*final(self), account, token) == accrued_of(
                        *old(self),
                        account,
                        token,
                    ) + delta
                    &&& forall|a2: u64, t2: u64|
                        !(a2 == account && t2 == token) ==> #[trigger] accrued_of(
                            *final(self),
                            a2,
                            t2,
                        ) == accrued_of(*old(self), a2, t2)
                },
                Err(e) => e == Error::Arithmetic && *final(self) == *old(self) && accrued_of(
                    *old(self),
                    account,
                    token,
                ) + delta > u128::MAX,
            },
            final(self).markets == old(self).markets,
            final(self).batches == old(self).batches,
            final(self).collaterals == old(self).collaterals,
            final(self).memberships == old(self).memberships,
            final(self).batch_indexes == old(self).batch_indexes,
            final(self).undistributed == old(self).undistributed,
            final(self).boosters == old(self).boosters,
            final(self).max_markets_per_account == old(self).max_markets_per_account,
            final(self).global_seize_status == old(self).global_seize_status,
            final(self).boosting_state == old(self).boosting_state,
            final(self).boosting_supported == old(self).boosting_supported,
            final(self).max_slippage == old(self).max_slippage,
            final(self).ush_market_observer == old(self).ush_market_observer,
    {
        let current = match self.account_rewards.get(account, token, 0) {
            Some(v) => v,
            None => 0,
        };
        let new_accrued = match current.checked_add(delta) {
            None => { return Err(Error::Arithmetic) },
            Some(v) => v,
        };
        self.account_rewards.set(account, token, 0, new_accrued);
        Ok(())
    }

    /// Catches one account up on all batches of one side of one market.
    #[verifier::rlimit(60)]
    fn distribute_batches_internal(&mut self, m: u64, side: MarketType, account: u64, base: u128) -> (r:
        Result<(), Error>)
        requires
            old(self).wf(),
        ensures
            final(self).wf(),
            final(self).markets == old(self).markets,
            final(self).collaterals == old(self).collaterals,
            final(self).memberships == old(self).memberships,
            match r {
                Ok(()) => {
                    &&& final(self).batches@.len() == old(self).batches@.len()
                    &&& forall|i: int|
                        0 <= i < old(self).batches@.len() ==> #[trigger] final(self).batches@[i]
                            == (if old(self).batches@[i].money_market == m && old(self).batches@[i].market_type == side {
                            RewardsBatch {
                                distributed_amount: (old(self).batches@[i].distributed_amount
                                    + spec_distribute_delta(
                                    old(self).batches@[i],
                                    old(self).batch_indexes.lookup(
                                        m,
                                        old(self).batches@[i].id,
                                        account,
                                    ),
                                    base as int,
                                )) as u128,
                                ..old(self).batches@[i]
                            }
                        } else {
                            old(self).batches@[i]
                        })
                    &&& forall|t: u64|
                        #[trigger] accrued_of(*final(self), account, t) == accrued_of(
                            *old(self),
                            account,
                            t,
                        ) + spec_credit_from(*old(self), m, side, account, base as int, t, 0)
                    &&& forall|a2: u64, t2: u64|
                        a2 != account ==> #[trigger] accrued_of(*final(self), a2, t2)
                            == accrued_of(*old(self), a2, t2)
                    &&& forall|k: int|
                        0 <= k < old(self).batches@.len() && batch_selected(
                            #[trigger] old(self).batches@[k],
                            m,
                            side,
                        ) ==> final(self).batch_indexes.lookup(m, old(self).batches@[k].id, account)
                            == Some(old(self).batches@[k].index)
                    &&& forall|x: u64, y: u64, z: u64|
                        !(x == m && z == account) ==> #[trigger] final(self).batch_indexes.lookup(
                            x,
                            y,
                            z,
                        ) == old(self).batch_indexes.lookup(x, y, z)
                    &&& final(self).undistributed == old(self).undistributed
                },
                Err(e) => e == Error::Arithmetic && !distribution_fits(
                    *old(self),
                    m,
                    side,
                    account,
                    base as int,
                ),
            },
    {
        let ghost c0 = *self;
        let mut i: usize = 0;
        while i < self.batches.len()
            invariant
                self.wf(),
                c0.wf(),
                c0 == *old(self),
                i <= self.batches@.len(),
                self.batches@.len() == c0.batches@.len(),
                forall|k: int|
                    0 <= k < i ==> #[trigger] self.batches@[k] == (if c0.batches@[k].money_market
                        == m && c0.batches@[k].market_type == side {
                        RewardsBatch {
                            distributed_amount: (c0.batches@[k].distributed_amount
                                + spec_distribute_delta(
                                c0.batches@[k],
                                c0.batch_indexes.lookup(m, c0.batches@[k].id, account),
                                base as int,
                            )) as u128,
                            ..c0.batches@[k]
                        }
                    } else {
                        c0.batches@[k]
                    }),
                forall|k: int|
                    i <= k < c0.batches@.len() ==> #[trigger] self.batches@[k] == c0.batches@[k],
                forall|t: u64|
                    #[trigger] accrued_of(*self, account, t) + spec_credit_from(
                        c0,
                        m,
                        side,
                        account,
                        base as int,
                        t,
                        i as int,
                    ) == accrued_of(c0, account, t) + spec_credit_from(
                        c0,
                        m,
                        side,
                        account,
                        base as int,
                        t,
                        0,
                    ),
                forall|a2: u64, t2: u64|
                    a2 != account ==> #[trigger] accrued_of(*self, a2, t2) == accrued_of(
                        c0,
                        a2,
                        t2,
                    ),
                forall|x: u64, y: u64, z: u64|
                    !(x == m && z == account) ==> #[trigger] self.batch_indexes.lookup(x, y, z)
                        == c0.batch_indexes.lookup(x, y, z),
                forall|k: int|
                    0 <= k < i && batch_selected(#[trigger] c0.batches@[k], m, side)
                        ==> self.batch_indexes.lookup(m, c0.batches@[k].id, account) == Some(
                        c0.batches@[k].index,
                    ),
                forall|k: int|
                    i <= k < c0.batches@.len() && c0.batches@[k].money_market == m && (
                    #[trigger] c0.batches@[k]).market_type == side
                        ==> self.batch_indexes.lookup(m, c0.batches@[k].id, account)
                        == c0.batch_indexes.lookup(m, c0.batches@[k].id, account),
                self.markets == c0.markets,
                self.collaterals == c0.collaterals,
                self.memberships == c0.memberships,
                self.undistributed == c0.undistributed,
            decreases self.batches@.len() - i,
        {
            let ghost c_entry = *self;
            let b = self.batches[i];
            if b.money_market == m && matches_side(b.market_type, side) {
                let prev = match self.batch_indexes.get(m, b.id, account) {
                    Some(v) => v,
                    None => WAD_SQUARED,
                };
                let ghost pre_bi = self.batch_indexes;
                self.batch_indexes.set(m, b.id, account, b.index);
                let delta_index = if b.index >= prev {
                    b.index - prev
                } else {
                    0
                };
                proof {
                    assert(spec_distribute_delta(
                        c0.batches@[i as int],
                        c0.batch_indexes.lookup(m, c0.batches@[i as int].id, account),
                        base as int,
                    ) == base * (if b.index >= prev {
                        b.index - prev
                    } else {
                        0int
                    }) / (WAD_SQUARED as int) || b.index < prev);
                }
                let delta = match mul_div_floor(base, delta_index, WAD_SQUARED) {
                    None => {
                        proof {
                            lemma_distribute_step_overflow(c0, m, side, account, base as int, i as int);
                        }
                        return Err(Error::Arithmetic);
                    },
                    Some(v) => v,
                };
                let new_distributed = match b.distributed_amount.checked_add(delta) {
                    None => {
                        proof {
                            lemma_distribute_step_overflow(c0, m, side, account, base as int, i as int);
                        }
                        return Err(Error::Arithmetic);
                    },
                    Some(v) => v,
                };
                let updated = RewardsBatch { distributed_amount: new_distributed, ..b };
                let ghost pre = *self;
                self.batches.set(i, updated);
                proof {
                    lemma_batches_wf_after_update(pre, *self, i as int, updated);
                }
                match self.add_accrued(account, b.token_id, delta) {
                    Err(e) => {
                        proof {
                            assert(spec_credit_from(
                                c0,
                                m,
                                side,
                                account,
                                base as int,
                                b.token_id,
                                i as int,
                            ) == delta + spec_credit_from(
                                c0,
                                m,
                                side,
                                account,
                                base as int,
                                b.token_id,
                                i as int + 1,
                            ));
                            lemma_credit_nonneg(
                                c0,
                                m,
                                side,
                                account,
                                base as int,
                                b.token_id,
                                i as int + 1,
                            );
                            assert(accrued_of(c_entry, account, b.token_id) + delta > u128::MAX);
                            assert(accrued_of(c_entry, account, b.token_id) + spec_credit_from(
                                c0,
                                m,
                                side,
                                account,
                                base as int,
                                b.token_id,
                                i as int,
                            ) == accrued_of(c0, account, b.token_id) + spec_credit_from(
                                c0,
                                m,
                                side,
                                account,
                                base as int,
                                b.token_id,
                                0,
                            ));
                            assert(accrued_of(c0, account, b.token_id) + spec_credit_from(
                                c0,
                                m,
                                side,
                                account,
                                base as int,
                                b.token_id,
                                0,
                            ) > u128::MAX);
                        }
                        return Err(e);
                    },
                    Ok(()) => {},
                }
                proof {
                    assert forall|k: int|
                        i as int + 1 <= k < c0.batches@.len() && c0.batches@[k].money_market == m
                            && (#[trigger] c0.batches@[k]).market_type == side implies self.batch_indexes.lookup(
                        m,
                        c0.batches@[k].id,
                        account,
                    ) == c0.batch_indexes.lookup(m, c0.batches@[k].id, account) by {
                        assert(c0.batches@[k].id != b.id);
                    }
                    assert forall|k: int|
                        0 <= k < i as int + 1 && batch_selected(#[trigger] c0.batches@[k], m, side)
                            implies self.batch_indexes.lookup(m, c0.batches@[k].id, account)
                            == Some(c0.batches@[k].index) by {
                        if k < i as int {
                            assert(c0.batches@[k].id != b.id);
                            assert(c_entry.batch_indexes.lookup(m, c0.batches@[k].id, account)
                                == Some(c0.batches@[k].index));
                        } else {
                            assert(c0.batches@[k] == b);
                        }
                    }
                }
            }
            proof {
                let ghost credit_here: int = if batch_selected(c0.batches@[i as int], m, side) {
                    spec_distribute_delta(
                        c0.batches@[i as int],
                        c0.batch_indexes.lookup(m, c0.batches@[i as int].id, account),
                        base as int,
                    )
                } else {
                    0
                };
                assert forall|t: u64|
                    #[trigger] accrued_of(*self, account, t) + spec_credit_from(
                        c0,
                        m,
                        side,
                        account,
                        base as int,
                        t,
                        i as int + 1,
                    ) == accrued_of(c0, account, t) + spec_credit_from(
                        c0,
                        m,
                        side,
                        account,
                        base as int,
                        t,
                        0,
                    ) by {
                    assert(accrued_of(c_entry, account, t) + spec_credit_from(
                        c0,
                        m,
                        side,
                        account,
                        base as int,
                        t,
                        i as int,
                    ) == accrued_of(c0, account, t) + spec_credit_from(
                        c0,
                        m,
                        side,
                        account,
                        base as int,
                        t,
                        0,
                    ));
                    if batch_selected(c0.batches@[i as int], m, side) && t == c0.batches@[
                        i as int].token_id {
                        assert(accrued_of(*self, account, t) == accrued_of(c_entry, account, t)
                            + credit_here);
                    } else {
                        assert(accrued_of(*self, account, t) == accrued_of(c_entry, account, t));
                    }
                }
                assert forall|a2: u64, t2: u64| a2 != account implies #[trigger] accrued_of(
                    *self,
                    a2,
                    t2,
                ) == accrued_of(c0, a2, t2) by {
                    assert(accrued_of(c_entry, a2, t2) == accrued_of(c0, a2, t2));
                }
                assert forall|x: u64, y: u64, z: u64| !(x == m && z == account) implies #[trigger] self.batch_indexes.lookup(
                    x,
                    y,
                    z,
                ) == c0.batch_indexes.lookup(x, y, z) by {
                    assert(c_entry.batch_indexes.lookup(x, y, z) == c0.batch_indexes.lookup(
                        x,
                        y,
                        z,
                    ));
                }
            }
            i = i + 1;
        }
        Ok(())
    }
}

/// When one batch's distributed increment does not fit, the whole
/// distribution does not fit.
proof fn lemma_distribute_step_overflow(
    c0: Controller,
    m: u64,
    side: MarketType,
    account: u64,
    base: int,
    i: int,
)
    requires
        0 <= i < c0.batches@.len(),
        batch_selected(c0.batches@[i], m, side),
        c0.batches@[i].distributed_amount + spec_distribute_delta(
            c0.batches@[i],
            c0.batch_indexes.lookup(m, c0.batches@[i].id, account),
            base,
        ) > u128::MAX,
    ensures
        !distribution_fits(c0, m, side, account, base),
{
}

/// Whether a batch with this identifier exists for this market.
pub open spec fn batch_present(s: Seq<RewardsBatch>, m: u64, id: u64) -> bool {
    exists|i: int| 0 <= i < s.len() && (#[trigger] s[i]).money_market == m && s[i].id == id
}

/// The index of the batch with this identifier.
pub open spec fn batch_index_of(s: Seq<RewardsBatch>, m: u64, id: u64) -> int {
    choose|i: int| 0 <= i < s.len() && (#[trigger] s[i]).money_market == m && s[i].id == id
}

impl Controller {
    /// The position of the batch `(m, id)`, if any.
    fn batch_position(&self, m: u64, id: u64) -> (r: Option<usize>)
        ensures
            match r {
                Some(i) => i < self.batches@.len() && self.batches@[i as int].money_market == m
                    && self.batches@[i as int].id == id,
                None => !batch_present(self.batches@, m, id),
            },
    {
        let mut i: usize = 0;
        while i < self.batches.len()
            invariant
                i <= self.batches@.len(),
                forall|j: int|
                    0 <= j < i ==> !((#[trigger] self.batches@[j]).money_market == m
                        && self.batches@[j].id == id),
            decreases self.batches@.len() - i,
        {
            let b = &self.batches[i];
            if b.money_market == m && b.id == id {
                return Some(i);
            }
            i = i + 1;
        }
        None
    }

    /// How many rewards batches a market carries.
    fn count_market_batches(&self, m: u64) -> (r: u64)
        requires
            self.batches@.len() <= u64::MAX,
        ensures
            r == count_batches(self.batches@, m),
    {
        let mut i: usize = 0;
        let mut n: u64 = 0;
        proof {
            assert(self.batches@.take(0) =~= Seq::<RewardsBatch>::empty());
        }
        while i < self.batches.len()
            invariant
                i <= self.batches@.len(),
                self.batches@.len() <= u64::MAX,
                n == count_batches(self.batches@.take(i as int), m),
                n <= i,
            decreases self.batches@.len() - i,
        {
            proof {
                assert(self.batches@.take(i as int + 1).drop_last() =~= self.batches@.take(
                    i as int,
                ));
                assert(self.batches@.take(i as int + 1).last() == self.batches@[i as int]);
            }
            if self.batches[i].money_market == m {
                n = n + 1;
            }
            i = i + 1;
        }
        proof {
            assert(self.batches@.take(self.batches@.len() as int) =~= self.batches@);
        }
        n
    }

    /// Whether a token has a batch that is still paying anywhere.
    fn token_has_active_rewards_batch(&self, token: u64, now: u64) -> (r: bool)
        ensures
            r == exists|i: int|
                0 <= i < self.batches@.len() && (#[trigger] self.batches@[i]).token_id == token
                    && now < self.batches@[i].end_time,
    {
        let mut i: usize = 0;
        while i < self.batches.len()
            invariant
                i <= self.batches@.len(),
                forall|j: int|
                    0 <= j < i ==> !((#[trigger] self.batches@[j]).token_id == token && now
                        < self.batches@[j].end_time),
            decreases self.batches@.len() - i,
        {
            let b = &self.batches[i];
            if b.token_id == token && now < b.end_time {
                return true;
            }
            i = i + 1;
        }
        false
    }

    /// Appends a new batch and bumps the market's next identifier, as one
    /// step so that the batch bookkeeping stays consistent.
    fn push_batch(&mut self, b: RewardsBatch, e: MarketEntry)
        requires
            old(self).wf(),
            old(self).whitelisted(b.money_market),
            e.market == b.money_market,
            e.wf(),
            e.total_collateral_tokens == sum_collateral_of(*old(self), b.money_market),
            b.id == old(self).markets.lookup(b.money_market, 0, 0).unwrap().next_batch_id,
            e.next_batch_id > b.id,
            count_batches(old(self).batches@, b.money_market) + 1 <= e.max_rewards_batches,
            b.last_time <= b.end_time,
        ensures
            final(self).wf(),
            final(self).batches@ == old(self).batches@.push(b),
            final(self).markets.lookup(b.money_market, 0, 0) == Some(e),
            forall|x: u64|
                x != b.money_market ==> #[trigger] final(self).markets.lookup(x, 0, 0) == old(self).markets.lookup(x, 0, 0),
            final(self).collaterals == old(self).collaterals,
            final(self).memberships == old(self).memberships,
            final(self).account_rewards == old(self).account_rewards,
            final(self).batch_indexes == old(self).batch_indexes,
            final(self).undistributed == old(self).undistributed,
    {
        let ghost c0 = *self;
        let m = b.money_market;
        self.batches.push(b);
        self.markets.set(m, 0, 0, e);
        proof {
            let s1 = self.batches@;
            assert(s1 =~= c0.batches@.push(b));
            assert forall|m2: u64| #[trigger] count_batches(s1, m2) == count_batches(
                c0.batches@,
                m2,
            ) + (if b.money_market == m2 {
                1int
            } else {
                0int
            }) by {
                assert(s1.drop_last() =~= c0.batches@);
            }
            assert forall|i: int| 0 <= i < self.markets.entries.len() implies has_key(
                #[trigger] self.markets.entries[i],
                self.markets.entries[i].val.market,
                0,
                0,
            ) && self.markets.entries[i].val.wf()
                && self.markets.entries[i].val.total_collateral_tokens == sum_collateral_of(
                *self,
                self.markets.entries[i].val.market,
            ) && count_batches(s1, self.markets.entries[i].val.market)
                <= self.markets.entries[i].val.max_rewards_batches && (forall|j: int|
                0 <= j < s1.len() && (#[trigger] s1[j]).money_market
                    == self.markets.entries[i].val.market ==> s1[j].id
                    < self.markets.entries[i].val.next_batch_id) by {
                let en = self.markets.entries[i];
                self.markets.lemma_lookup_at(en.k1, en.k2, en.k3, i);
                if en.k1 == m && en.k2 == 0 && en.k3 == 0 {
                    assert(en.val == e);
                } else {
                    assert(self.markets.lookup(en.k1, en.k2, en.k3) == c0.markets.lookup(
                        en.k1,
                        en.k2,
                        en.k3,
                    ));
                    assert(c0.markets.contains_key(en.k1, en.k2, en.k3));
                    let j = choose|p: int|
                        0 <= p < c0.markets.entries.len() && has_key(
                            #[trigger] c0.markets.entries[p],
                            en.k1,
                            en.k2,
                            en.k3,
                        );
                    c0.markets.lemma_lookup_at(en.k1, en.k2, en.k3, j);
                    assert(c0.markets.entries[j].val == en.val);
                    assert(has_key(c0.markets.entries[j], c0.markets.entries[j].val.market, 0, 0));
                    assert(en.val.market != m);
                }
            }
            assert forall|i: int| 0 <= i < self.collaterals.len() implies self.whitelisted(
                (#[trigger] self.collaterals[i]).market,
            ) by {
                let x = self.collaterals[i].market;
                assert(c0.whitelisted(x));
                if x != m {
                    assert(self.markets.lookup(x, 0, 0) == c0.markets.lookup(x, 0, 0));
                    assert(c0.markets.lookup(x, 0, 0) is Some);
                }
                assert(self.markets.lookup(x, 0, 0) is Some);
            }
            assert forall|i: int| 0 <= i < s1.len() implies self.whitelisted(
                (#[trigger] s1[i]).money_market,
            ) by {
                let x = s1[i].money_market;
                if i < c0.batches@.len() {
                    assert(s1[i] == c0.batches@[i]);
                    assert(c0.whitelisted(x));
                    if x != m {
                        assert(self.markets.lookup(x, 0, 0) == c0.markets.lookup(x, 0, 0));
                        assert(c0.markets.lookup(x, 0, 0) is Some);
                    }
                } else {
                    assert(s1[i] == b);
                }
                assert(self.markets.lookup(x, 0, 0) is Some);
            }
            assert forall|i: int, j: int| 0 <= i < j < s1.len() implies !((
            #[trigger] s1[i]).money_market == (#[trigger] s1[j]).money_market && s1[i].id
                == s1[j].id) by {
                if j < c0.batches@.len() {
                    assert(!(c0.batches@[i].money_market == c0.batches@[j].money_market
                        && c0.batches@[i].id == c0.batches@[j].id));
                } else {
                    assert(s1[j] == b);
                    if s1[i].money_market == m {
                        assert(c0.batches@[i].id < b.id);
                    }
                }
            }
        }
    }

    /// Creates a rewards batch funded with `amount`, paying linearly over
    /// `period` seconds, and returns its identifier.
    pub fn set_rewards_batch(
        &mut self,
        m: u64,
        market_type: MarketType,
        token_id: u64,
        amount: u128,
        period: u64,
        now: u64,
    ) -> (r: Result<u64, Error>)
        requires
            old(self).wf(),
        ensures
            final(self).wf(),
            match r {
                Ok(id) => {
                    &&& old(self).whitelisted(m)
                    &&& period > 0 && amount > 0
                    &&& id == old(self).markets.lookup(m, 0, 0).unwrap().next_batch_id
                    &&& count_batches(old(self).batches@, m) + 1 <= old(self).markets.lookup(
                        m,
                        0,
                        0,
                    ).unwrap().max_rewards_batches
                    &&& final(self).batches@ == old(self).batches@.push(
                        RewardsBatch {
                            id,
                            money_market: m,
                            market_type,
                            token_id,
                            amount,
                            distributed_amount: 0,
                            speed: (amount * WAD / (period as int)) as u128,
                            index: WAD_SQUARED,
                            last_time: now,
                            end_time: (now + period) as u64,
                        },
                    )
                    &&& amount * WAD / (period as int) > 0
                    &&& final(self).markets.lookup(m, 0, 0) == Some(
                        MarketEntry {
                            next_batch_id: (id + 1) as u64,
                            ..old(self).markets.lookup(m, 0, 0).unwrap()
                        },
                    )
                    &&& (forall|x: u64|
                        x != m ==> #[trigger] final(self).markets.lookup(x, 0, 0) == old(self).markets.lookup(x, 0, 0))
                    &&& final(self).collaterals == old(self).collaterals
                    &&& final(self).memberships == old(self).memberships
                    &&& final(self).account_rewards == old(self).account_rewards
                    &&& final(self).batch_indexes == old(self).batch_indexes
                    &&& final(self).undistributed == old(self).undistributed
                },
                Err(e) => *final(self) == *old(self) && !set_rewards_batch_ok(
                    *old(self),
                    m,
                    amount,
                    period,
                    now,
                ),
            },
    {
        let entry = match self.market_entry(m) {
            None => { return Err(Error::NotWhitelisted) },
            Some(e) => e,
        };
        if period == 0 {
            return Err(Error::InvalidConfiguration);
        }
        if self.batches.len() >= usize::MAX {
            return Err(Error::Arithmetic);
        }
        let count = self.count_market_batches(m);
        if count >= entry.max_rewards_batches {
            return Err(Error::CapExceeded);
        }
        if amount == 0 {
            return Err(Error::InvalidPayment);
        }
        let speed = match mul_div_floor(amount, WAD, period as u128) {
            None => { return Err(Error::Arithmetic) },
            Some(v) => v,
        };
        if speed == 0 {
            return Err(Error::InvalidConfiguration);
        }
        let id = entry.next_batch_id;
        if id == u64::MAX {
            return Err(Error::Arithmetic);
        }
        if now > u64::MAX - period {
            return Err(Error::Arithmetic);
        }
        let batch = RewardsBatch {
            id,
            money_market: m,
            market_type,
            token_id,
            amount,
            distributed_amount: 0,
            speed,
            index: WAD_SQUARED,
            last_time: now,
            end_time: now + period,
        };
        self.push_batch(batch, MarketEntry { next_batch_id: id + 1, ..entry });
        Ok(id)
    }

    /// Tops an existing batch up with `amount` more rewards at the same
    /// speed, extending its end time; an expired batch restarts at `now`.
    pub fn add_rewards_batch(&mut self, m: u64, batch_id: u64, token_id: u64, amount: u128, now: u64) -> (r:
        Result<(), Error>)
        requires
            old(self).wf(),
        ensures
            final(self).wf(),
            match r {
                Ok(()) => {
                    let j = batch_index_of(old(self).batches@, m, batch_id);
                    let b = old(self).batches@[j];
                    {
                        &&& batch_present(old(self).batches@, m, batch_id)
                        &&& add_rewards_batch_ok(b, token_id, amount, now)
                        &&& final(self).batches@ == old(self).batches@.update(
                            j,
                            spec_added_batch(b, amount, now),
                        )
                        &&& final(self).markets == old(self).markets
                        &&& final(self).account_rewards == old(self).account_rewards
                        &&& final(self).batch_indexes == old(self).batch_indexes
                        &&& final(self).undistributed == old(self).undistributed
                    }
                },
                Err(e) => *final(self) == *old(self) && !(old(self).whitelisted(m)
                    && batch_present(old(self).batches@, m, batch_id) && add_rewards_batch_ok(
                    old(self).batches@[batch_index_of(old(self).batches@, m, batch_id)],
                    token_id,
                    amount,
                    now,
                )),
            },
    {
        if self.market_entry(m).is_none() {
            return Err(Error::NotWhitelisted);
        }
        let i = match self.batch_position(m, batch_id) {
            None => { return Err(Error::InvalidConfiguration) },
            Some(i) => i,
        };
        let b = self.batches[i];
        proof {
            lemma_batch_at(self.batches@, i as int, m, batch_id);
        }
        if token_id != b.token_id {
            return Err(Error::InvalidPayment);
        }
        if amount == 0 {
            return Err(Error::InvalidPayment);
        }
        if b.speed == 0 {
            return Err(Error::InvalidConfiguration);
        }
        let additional = match mul_div_floor(amount, WAD, b.speed) {
            None => { return Err(Error::Arithmetic) },
            Some(v) => v,
        };
        if additional > u64::MAX as u128 {
            return Err(Error::Arithmetic);
        }
        let dt: u64 = additional as u64;
        if dt == 0 {
            return Err(Error::InvalidConfiguration);
        }
        let new_amount = match b.amount.checked_add(amount) {
            None => { return Err(Error::Arithmetic) },
            Some(v) => v,
        };
        let updated: RewardsBatch;
        if now > b.end_time {
            if now > u64::MAX - dt {
                return Err(Error::Arithmetic);
            }
            updated = RewardsBatch {
                last_time: now,
                end_time: now + dt,
                amount: new_amount,
                ..b
            };
        } else {
            if b.end_time > u64::MAX - dt {
                return Err(Error::Arithmetic);
            }
            let new_last = if b.last_time > now {
                now
            } else {
                b.last_time
            };
            updated = RewardsBatch {
                last_time: new_last,
                end_time: b.end_time + dt,
                amount: new_amount,
                ..b
            };
        }
        let ghost pre = *self;
        self.batches.set(i, updated);
        proof {
            lemma_batches_wf_after_update(pre, *self, i as int, updated);
        }
        Ok(())
    }

    /// Stops a running batch now, removing its linear remainder from the
    /// funding; returns the remainder to hand back.
    pub fn cancel_rewards_batch(&mut self, m: u64, batch_id: u64, now: u64) -> (r: Result<
        u128,
        Error,
    >)
        requires
            old(self).wf(),
        ensures
            final(self).wf(),
            match r {
                Ok(left) => {
                    let j = batch_index_of(old(self).batches@, m, batch_id);
                    let b = old(self).batches@[j];
                    {
                        &&& batch_present(old(self).batches@, m, batch_id)
                        &&& cancel_rewards_batch_ok(b, now)
                        &&& left == spec_cancel_left(b, now)
                        &&& final(self).batches@ == old(self).batches@.update(
                            j,
                            spec_cancelled_batch(b, now),
                        )
                        &&& final(self).markets == old(self).markets
                        &&& final(self).account_rewards == old(self).account_rewards
                        &&& final(self).batch_indexes == old(self).batch_indexes
                        &&& final(self).undistributed == old(self).undistributed
                    }
                },
                Err(e) => *final(self) == *old(self) && !(old(self).whitelisted(m)
                    && batch_present(old(self).batches@, m, batch_id) && cancel_rewards_batch_ok(
                    old(self).batches@[batch_index_of(old(self).batches@, m, batch_id)],
                    now,
                )),
            },
    {
        if self.market_entry(m).is_none() {
            return Err(Error::NotWhitelisted);
        }
        let i = match self.batch_position(m, batch_id) {
            None => { return Err(Error::InvalidConfiguration) },
            Some(i) => i,
        };
        let b = self.batches[i];
        proof {
            lemma_batch_at(self.batches@, i as int, m, batch_id);
        }
        if b.end_time <= now {
            return Err(Error::InvalidConfiguration);
        }
        let amount_left = match mul_div_floor(b.speed, (b.end_time - now) as u128, WAD) {
            None => { return Err(Error::Arithmetic) },
            Some(v) => v,
        };
        if amount_left > b.amount {
            return Err(Error::Arithmetic);
        }
        let new_last = if b.last_time > now {
            now
        } else {
            b.last_time
        };
        let updated = RewardsBatch {
            end_time: now,
            last_time: new_last,
            amount: b.amount - amount_left,
            ..b
        };
        let ghost pre = *self;
        self.batches.set(i, updated);
        proof {
            lemma_batches_wf_after_update(pre, *self, i as int, updated);
        }
        Ok(amount_left)
    }

    /// Changes a running batch's speed, preserving the remaining rewards
    /// by recomputing the end time.
    pub fn update_rewards_batch_speed(&mut self, m: u64, batch_id: u64, new_speed: u128, now: u64) -> (r:
        Result<(), Error>)
        requires
            old(self).wf(),
        ensures
            final(self).wf(),
            match r {
                Ok(()) => {
                    let j = batch_index_of(old(self).batches@, m, batch_id);
                    let b = old(self).batches@[j];
                    {
                        &&& batch_present(old(self).batches@, m, batch_id)
                        &&& update_speed_ok(b, new_speed, now)
                        &&& final(self).batches@ == old(self).batches@.update(
                            j,
                            spec_respeed_batch(b, new_speed, now),
                        )
                        &&& final(self).markets == old(self).markets
                        &&& final(self).account_rewards == old(self).account_rewards
                        &&& final(self).batch_indexes == old(self).batch_indexes
                        &&& final(self).undistributed == old(self).undistributed
                    }
                },
                Err(e) => *final(self) == *old(self) && !(old(self).whitelisted(m)
                    && batch_present(old(self).batches@, m, batch_id) && update_speed_ok(
                    old(self).batches@[batch_index_of(old(self).batches@, m, batch_id)],
                    new_speed,
                    now,
                )),
            },
    {
        if new_speed == 0 {
            return Err(Error::InvalidConfiguration);
        }
        if self.market_entry(m).is_none() {
            return Err(Error::NotWhitelisted);
        }
        let i = match self.batch_position(m, batch_id) {
            None => { return Err(Error::InvalidConfiguration) },
            Some(i) => i,
        };
        let b = self.batches[i];
        if b.speed == new_speed {
            return Err(Error::InvalidConfiguration);
        }
        if b.end_time <= now {
            return Err(Error::InvalidConfiguration);
        }
        let old_dt: u64 = b.end_time - now;
        let new_dt_wide = match mul_div_floor(b.speed, old_dt as u128, new_speed) {
            None => { return Err(Error::Arithmetic) },
            Some(v) => v,
        };
        if new_dt_wide > u64::MAX as u128 {
            return Err(Error::Arithmetic);
        }
        let new_dt: u64 = new_dt_wide as u64;
        if new_dt == 0 {
            return Err(Error::InvalidConfiguration);
        }
        if now > u64::MAX - new_dt {
            return Err(Error::Arithmetic);
        }
        let new_last = if b.last_time > now {
            now
        } else {
            b.last_time
        };
        let updated = RewardsBatch {
            speed: new_speed,
            end_time: now + new_dt,
            last_time: new_last,
            ..b
        };
        let ghost pre = *self;
        self.batches.set(i, updated);
        proof {
            lemma_batches_wf_after_update(pre, *self, i as int, updated);
        }
        Ok(())
    }

    /// Changes a running batch's remaining period, preserving the
    /// remaining rewards by recomputing the speed.
    pub fn update_rewards_batch_remaining_period(
        &mut self,
        m: u64,
        batch_id: u64,
        new_dt: u64,
        now: u64,
    ) -> (r: Result<(), Error>)
        requires
            old(self).wf(),
        ensures
            final(self).wf(),
            match r {
                Ok(()) => {
                    let j = batch_index_of(old(self).batches@, m, batch_id);
                    let b = old(self).batches@[j];
                    {
                        &&& batch_present(old(self).batches@, m, batch_id)
                        &&& update_period_ok(b, new_dt, now)
                        &&& final(self).batches@ == old(self).batches@.update(
                            j,
                            spec_reperiod_batch(b, new_dt, now),
                        )
                        &&& final(self).markets == old(self).markets
                        &&& final(self).account_rewards == old(self).account_rewards
                        &&& final(self).batch_indexes == old(self).batch_indexes
                        &&& final(self).undistributed == old(self).undistributed
                    }
                },
                Err(e) => *final(self) == *old(self) && !(old(self).whitelisted(m)
                    && batch_present(old(self).batches@, m, batch_id) && update_period_ok(
                    old(self).batches@[batch_index_of(old(self).batches@, m, batch_id)],
                    new_dt,
                    now,
                )),
            },
    {
        if new_dt == 0 {
            return Err(Error::InvalidConfiguration);
        }
        if self.market_entry(m).is_none() {
            return Err(Error::NotWhitelisted);
        }
        let i = match self.batch_position(m, batch_id) {
            None => { return Err(Error::InvalidConfiguration) },
            Some(i) => i,
        };
        let b = self.batches[i];
        if b.end_time <= now {
            return Err(Error::InvalidConfiguration);
        }
        let old_dt: u64 = b.end_time - now;
        if old_dt == new_dt {
            return Err(Error::InvalidConfiguration);
        }
        let new_speed = match mul_div_floor(b.speed, old_dt as u128, new_dt as u128) {
            None => { return Err(Error::Arithmetic) },
            Some(v) => v,
        };
        if new_speed == 0 {
            return Err(Error::InvalidConfiguration);
        }
        if now > u64::MAX - new_dt {
            return Err(Error::Arithmetic);
        }
        let new_last = if b.last_time > now {
            now
        } else {
            b.last_time
        };
        let updated = RewardsBatch {
            speed: new_speed,
            end_time: now + new_dt,
            last_time: new_last,
            ..b
        };
        let ghost pre = *self;
        self.batches.set(i, updated);
        proof {
            lemma_batches_wf_after_update(pre, *self, i as int, updated);
        }
        Ok(())
    }

    /// Removes a batch whose rewards are fully distributed.
    pub fn remove_rewards_batch(&mut self, m: u64, batch_id: u64) -> (r: Result<(), Error>)
        requires
            old(self).wf(),
        ensures
            final(self).wf(),
            match r {
                Ok(()) => {
                    let j = batch_index_of(old(self).batches@, m, batch_id);
                    {
                        &&& batch_present(old(self).batches@, m, batch_id)
                        &&& old(self).batches@[j].distributed_amount >= old(self).batches@[j].amount
                        &&& final(self).batches@ == old(self).batches@.remove(j)
                        &&& !batch_present(final(self).batches@, m, batch_id)
                        &&& final(self).markets == old(self).markets
                        &&& final(self).account_rewards == old(self).account_rewards
                        &&& final(self).batch_indexes == old(self).batch_indexes
                        &&& final(self).undistributed == old(self).undistributed
                    }
                },
                Err(e) => *final(self) == *old(self) && !(old(self).whitelisted(m)
                    && batch_present(old(self).batches@, m, batch_id) && old(self).batches@[
                batch_index_of(old(self).batches@, m, batch_id)].distributed_amount >= old(self).batches@[batch_index_of(old(self).batches@, m, batch_id)].amount),
            },
    {
        if self.market_entry(m).is_none() {
            return Err(Error::NotWhitelisted);
        }
        let i = match self.batch_position(m, batch_id) {
            None => { return Err(Error::InvalidConfiguration) },
            Some(i) => i,
        };
        let b = self.batches[i];
        proof {
            lemma_batch_at(self.batches@, i as int, m, batch_id);
        }
        if b.distributed_amount < b.amount {
            return Err(Error::InvalidConfiguration);
        }
        self.remove_batch_internal(i, m, batch_id);
        Ok(())
    }

    /// Removes an expired batch once at least the tolerated share of its
    /// rewards is distributed; the administrator accepts the remainder as
    /// permanently untracked.
    pub fn admin_remove_rewards_batch(
        &mut self,
        m: u64,
        batch_id: u64,
        tolerance: u128,
        now: u64,
    ) -> (r: Result<(), Error>)
        requires
            old(self).wf(),
        ensures
            final(self).wf(),
            match r {
                Ok(()) => {
                    let j = batch_index_of(old(self).batches@, m, batch_id);
                    {
                        &&& batch_present(old(self).batches@, m, batch_id)
                        &&& admin_remove_ok(old(self).batches@[j], tolerance, now)
                        &&& final(self).batches@ == old(self).batches@.remove(j)
                        &&& !batch_present(final(self).batches@, m, batch_id)
                        &&& final(self).markets == old(self).markets
                        &&& final(self).account_rewards == old(self).account_rewards
                        &&& final(self).batch_indexes == old(self).batch_indexes
                        &&& final(self).undistributed == old(self).undistributed
                    }
                },
                Err(e) => *final(self) == *old(self) && !(old(self).whitelisted(m)
                    && batch_present(old(self).batches@, m, batch_id) && admin_remove_ok(
                    old(self).batches@[batch_index_of(old(self).batches@, m, batch_id)],
                    tolerance,
                    now,
                )),
            },
    {
        if self.market_entry(m).is_none() {
            return Err(Error::NotWhitelisted);
        }
        let i = match self.batch_position(m, batch_id) {
            None => { return Err(Error::InvalidConfiguration) },
            Some(i) => i,
        };
        let b = self.batches[i];
        proof {
            lemma_batch_at(self.batches@, i as int, m, batch_id);
        }
        if b.amount > b.distributed_amount {
            if now <= b.end_time {
                return Err(Error::InvalidConfiguration);
            }
            if tolerance < MIN_REWARDS_BATCH_TOLERANCE || tolerance > WAD {
                return Err(Error::InvalidConfiguration);
            }
            if !mul_le(b.amount, tolerance, b.distributed_amount, WAD) {
                return Err(Error::InvalidConfiguration);
            }
        }
        self.remove_batch_internal(i, m, batch_id);
        Ok(())
    }

    /// Removes the batch at a position.
    fn remove_batch_internal(&mut self, i: usize, m: u64, batch_id: u64)
        requires
            old(self).wf(),
            i < old(self).batches@.len(),
            old(self).batches@[i as int].money_market == m,
            old(self).batches@[i as int].id == batch_id,
        ensures
            final(self).wf(),
            final(self).batches@ == old(self).batches@.remove(i as int),
            !batch_present(final(self).batches@, m, batch_id),
            final(self).markets == old(self).markets,
            final(self).collaterals == old(self).collaterals,
            final(self).memberships == old(self).memberships,
            final(self).account_rewards == old(self).account_rewards,
            final(self).batch_indexes == old(self).batch_indexes,
            final(self).undistributed == old(self).undistributed,
    {
        let ghost c0 = *self;
        self.batches.remove(i);
        proof {
            let s0 = c0.batches@;
            let s1 = self.batches@;
            assert(s1 =~= s0.remove(i as int));
            assert(forall|p: int|
                0 <= p < s1.len() ==> #[trigger] s1[p] == (if p < i as int {
                    s0[p]
                } else {
                    s0[p + 1]
                }));
            assert forall|m2: u64| #[trigger] count_batches(s1, m2) <= count_batches(s0, m2) by {
                lemma_count_batches_remove(s0, i as int, m2);
            }
            assert(!batch_present(s1, m, batch_id)) by {
                if batch_present(s1, m, batch_id) {
                    let j = choose|j: int|
                        0 <= j < s1.len() && (#[trigger] s1[j]).money_market == m && s1[j].id
                            == batch_id;
                    if j < i as int {
                        assert(!(s0[j].money_market == s0[i as int].money_market && s0[j].id
                            == s0[i as int].id));
                    } else {
                        assert(!(s0[i as int].money_market == s0[j + 1].money_market
                            && s0[i as int].id == s0[j + 1].id));
                    }
                }
            }
            assert forall|p: int, q: int| 0 <= p < q < s1.len() implies !((
            #[trigger] s1[p]).money_market == (#[trigger] s1[q]).money_market && s1[p].id
                == s1[q].id) by {
                let p0: int = if p < i as int {
                    p
                } else {
                    p + 1
                };
                let q0: int = if q < i as int {
                    q
                } else {
                    q + 1
                };
                assert(!(s0[p0].money_market == s0[q0].money_market && s0[p0].id == s0[q0].id));
            }
        }
    }

    /// Takes a token's undistributed rewards out for the administrator.
    pub fn claim_undistributed_rewards(&mut self, token: u64) -> (r: Result<u128, Error>)
        requires
            old(self).wf(),
        ensures
            final(self).wf(),
            match r {
                Ok(amount) => amount == undist_of(*old(self), token) && amount > 0 && undist_of(
                    *final(self),
                    token,
                ) == 0,
                Err(e) => e == Error::InvalidPayment && undist_of(*old(self), token) == 0
                    && *final(self) == *old(self),
            },
    {
        let amount = match self.undistributed.get(token, 0, 0) {
            Some(v) => v,
            None => 0,
        };
        if amount == 0 {
            return Err(Error::InvalidPayment);
        }
        self.undistributed.remove(token, 0, 0);
        Ok(amount)
    }
}

impl Controller {
    /// The position of the booster for a reward token, if any.
    fn booster_position(&self, token: u64) -> (r: Option<usize>)
        ensures
            match r {
                Some(i) => i < self.boosters@.len() && self.boosters@[i as int].token_id == token,
                None => !exists|i: int|
                    0 <= i < self.boosters@.len() && (#[trigger] self.boosters@[i]).token_id
                        == token,
            },
    {
        let mut i: usize = 0;
        while i < self.boosters.len()
            invariant
                i <= self.boosters@.len(),
                forall|j: int|
                    0 <= j < i ==> (#[trigger] self.boosters@[j]).token_id != token,
            decreases self.boosters@.len() - i,
        {
            if self.boosters[i].token_id == token {
                return Some(i);
            }
            i = i + 1;
        }
        None
    }

    /// The account's accrued, unclaimed rewards in a token.
    pub fn get_account_accrued_rewards(&self, account: u64, token: u64) -> (r: u128)
        requires
            self.wf(),
        ensures
            r == accrued_of(*self, account, token),
    {
        match self.account_rewards.get(account, token, 0) {
            Some(v) => v,
            None => 0,
        }
    }

    /// Registers a booster for a reward token, funded by `amount` of that
    /// token. The round-trip probe — `fwd_swap_amount` swapped into
    /// governance tokens and back into `fwd_bwd_swap_amount` — must lose
    /// no more than the slippage bound; the loss is deducted from the
    /// captured funding.
    pub fn boost_rewards(
        &mut self,
        token_id: u64,
        premium: u128,
        amount: u128,
        fwd_swap_amount: u128,
        fwd_bwd_swap_amount: u128,
        swap_path: Vec<SwapStep>,
        now: u64,
    ) -> (r: Result<(), Error>)
        requires
            old(self).wf(),
        ensures
            final(self).wf(),
            match r {
                Ok(()) => {
                    &&& old(self).boosting_state == crate::controller::State::Active
                    &&& premium <= MAX_PREMIUM
                    &&& amount > 0 && 0 < fwd_swap_amount <= amount
                    &&& fwd_bwd_swap_amount <= fwd_swap_amount
                    &&& fwd_swap_amount - fwd_bwd_swap_amount <= fwd_swap_amount * old(self).max_slippage / (WAD as int)
                    &&& final(self).boosters@.len() == old(self).boosters@.len() + 1
                    &&& final(self).boosters@.last().token_id == token_id
                    &&& final(self).boosters@.last().premium == premium
                    &&& final(self).boosters@.last().amount_left == amount - (fwd_swap_amount
                        - fwd_bwd_swap_amount)
                    &&& final(self).boosters@.last().distributed_amount == 0
                    &&& final(self).boosters@ == old(self).boosters@.push(
                        final(self).boosters@.last(),
                    )
                    &&& *final(self) == (Controller {
                        boosters: final(self).boosters,
                        ..*old(self)
                    })
                },
                Err(e) => *final(self) == *old(self) && !boost_rewards_ok(
                    *old(self),
                    token_id,
                    premium,
                    amount,
                    fwd_swap_amount,
                    fwd_bwd_swap_amount,
                    now,
                ),
            },
    {
        if !matches!(self.boosting_state, crate::controller::State::Active) {
            return Err(Error::InvalidConfiguration);
        }
        if premium > MAX_PREMIUM {
            return Err(Error::InvalidConfiguration);
        }
        if amount == 0 {
            return Err(Error::InvalidPayment);
        }
        if fwd_swap_amount == 0 || fwd_swap_amount > amount {
            return Err(Error::InvalidConfiguration);
        }
        if !self.token_has_active_rewards_batch(token_id, now) {
            return Err(Error::InvalidConfiguration);
        }
        if self.booster_position(token_id).is_some() {
            return Err(Error::InvalidConfiguration);
        }
        if fwd_bwd_swap_amount > fwd_swap_amount {
            return Err(Error::SwapSlippageExceeded);
        }
        let delta = fwd_swap_amount - fwd_bwd_swap_amount;
        proof {
            crate::math::lemma_scale_down(fwd_swap_amount as int, self.max_slippage as int);
        }
        let max_slippage_amount = match mul_div_floor(fwd_swap_amount, self.max_slippage, WAD) {
            None => {
                // unreachable: the slippage bound is a WAD fraction
                proof {
                    assert(false);
                }
                return Err(Error::Arithmetic);
            },
            Some(v) => v,
        };
        if delta > max_slippage_amount {
            return Err(Error::SwapSlippageExceeded);
        }
        self.boosters.push(
            RewardsBooster {
                token_id,
                premium,
                amount_left: amount - delta,
                distributed_amount: 0,
                swap_path,
            },
        );
        Ok(())
    }

    /// Updates a booster's premium, optionally topping its funding up.
    pub fn update_booster(&mut self, token_id: u64, premium: u128, payment: u128, now: u64) -> (r:
        Result<(), Error>)
        requires
            old(self).wf(),
        ensures
            final(self).wf(),
            match r {
                Ok(()) => {
                    &&& premium <= MAX_PREMIUM
                    &&& exists|i: int|
                        0 <= i < old(self).boosters@.len() && (
                        #[trigger] old(self).boosters@[i]).token_id == token_id && final(self).boosters@ =~= old(self).boosters@.update(
                            i,
                            RewardsBooster {
                                premium,
                                amount_left: (old(self).boosters@[i].amount_left
                                    + payment) as u128,
                                ..old(self).boosters@[i]
                            },
                        )
                    &&& *final(self) == (Controller {
                        boosters: final(self).boosters,
                        ..*old(self)
                    })
                },
                Err(e) => final(self).boosters@ =~= old(self).boosters@ && *final(self) == (
                Controller { boosters: final(self).boosters, ..*old(self) }),
            },
    {
        let ghost s0 = self.boosters@;
        let i = match self.booster_position(token_id) {
            None => { return Err(Error::InvalidConfiguration) },
            Some(i) => i,
        };
        if premium > MAX_PREMIUM {
            return Err(Error::InvalidConfiguration);
        }
        let mut b = self.boosters.remove(i);
        if payment > 0 {
            if !self.token_has_active_rewards_batch(token_id, now) {
                self.boosters.insert(i, b);
                proof {
                    assert(self.boosters@ =~= s0);
                }
                return Err(Error::InvalidConfiguration);
            }
            b.amount_left = match b.amount_left.checked_add(payment) {
                None => {
                    self.boosters.insert(i, b);
                    proof {
                        assert(self.boosters@ =~= s0);
                    }
                    return Err(Error::Arithmetic);
                },
                Some(v) => v,
            };
        }
        b.premium = premium;
        self.boosters.insert(i, b);
        proof {
            assert(self.boosters@ =~= s0.update(
                i as int,
                RewardsBooster {
                    premium,
                    amount_left: (s0[i as int].amount_left + payment) as u128,
                    ..s0[i as int]
                },
            ));
        }
        Ok(())
    }

    /// Removes a booster and returns its remaining funding.
    pub fn cancel_booster(&mut self, token_id: u64) -> (r: Result<u128, Error>)
        requires
            old(self).wf(),
        ensures
            final(self).wf(),
            match r {
                Ok(left) => exists|i: int|
                    0 <= i < old(self).boosters@.len() && (
                    #[trigger] old(self).boosters@[i]).token_id == token_id && left == old(self).boosters@[i].amount_left && final(self).boosters@ =~= old(self).boosters@.remove(i) && *final(self) == (Controller {
                        boosters: final(self).boosters,
                        ..*old(self)
                    }),
                Err(e) => e == Error::InvalidConfiguration && !booster_present(
                    old(self).boosters@,
                    token_id,
                ) && *final(self) == *old(self),
            },
    {
        let i = match self.booster_position(token_id) {
            None => { return Err(Error::InvalidConfiguration) },
            Some(i) => i,
        };
        let b = self.boosters.remove(i);
        Ok(b.amount_left)
    }

    /// Pays out the accrued rewards of each account over all reward
    /// tokens of one market, after bringing the chosen sides up to date.
    /// With boosting, rewards backed by a booster are converted with the
    /// premium and marked for the swap into governance tokens; a booster
    /// short of funds falls back to the raw payout. Returns the payment
    /// instructions; the chain transfer and the swaps happen outside.
    pub fn claim_rewards(
        &mut self,
        boost: bool,
        supply: bool,
        borrow: bool,
        m: u64,
        accounts: &Vec<u64>,
        borrow_bases: &Vec<u128>,
        base_total_borrows: u128,
        now: u64,
    ) -> (r: Result<Vec<RewardPayment>, Error>)
        requires
            old(self).wf(),
            accounts@.len() == borrow_bases@.len(),
        ensures
            final(self).wf(),
            match r {
                Ok(payments) => {
                    &&& forall|i: int|
                        0 <= i < payments@.len() ==> (#[trigger] payments@[i]).amount > 0
                    &&& forall|ai: int, ki: int|
                        0 <= ai < accounts@.len() && 0 <= ki < final(self).batches@.len() && (
                        #[trigger] final(self).batches@[ki]).money_market == m ==> accrued_of(
                            *final(self),
                            #[trigger] accounts@[ai],
                            final(self).batches@[ki].token_id,
                        ) == 0
                },
                Err(e) => (supply || borrow) && (e == Error::NotWhitelisted || e
                    == Error::Arithmetic),
            },
            !supply && !borrow ==> r is Ok,
    {
        if supply {
            self.update_supply_rewards_batches_state(m, now)?;
            let mut i: usize = 0;
            while i < accounts.len()
                invariant
                    self.wf(),
                    supply,
                decreases accounts@.len() - i,
            {
                self.distribute_supplier_batches_rewards(m, accounts[i])?;
                i = i + 1;
            }
        }
        if borrow {
            self.update_borrow_rewards_batches_state(m, base_total_borrows, now)?;
            let mut i: usize = 0;
            while i < accounts.len()
                invariant
                    self.wf(),
                    borrow,
                    accounts@.len() == borrow_bases@.len(),
                decreases accounts@.len() - i,
            {
                self.distribute_borrower_batches_rewards(m, accounts[i], borrow_bases[i])?;
                i = i + 1;
            }
        }
        let mut payments: Vec<RewardPayment> = Vec::new();
        let ghost batches0 = self.batches@;
        let mut a: usize = 0;
        while a < accounts.len()
            invariant
                self.wf(),
                self.batches@ == batches0,
                a <= accounts@.len(),
                forall|p: int|
                    0 <= p < payments@.len() ==> (#[trigger] payments@[p]).amount > 0,
                forall|ai: int, ki: int|
                    0 <= ai < a && 0 <= ki < batches0.len() && (
                    #[trigger] batches0[ki]).money_market == m ==> accrued_of(
                        *self,
                        #[trigger] accounts@[ai],
                        batches0[ki].token_id,
                    ) == 0,
            decreases accounts@.len() - a,
        {
            let account = accounts[a];
            let mut k: usize = 0;
            while k < self.batches.len()
                invariant
                    self.wf(),
                    self.batches@ == batches0,
                    a < accounts@.len(),
                    account == accounts@[a as int],
                    k <= batches0.len(),
                    forall|p: int|
                        0 <= p < payments@.len() ==> (#[trigger] payments@[p]).amount > 0,
                    forall|ai: int, ki: int|
                        0 <= ai < a && 0 <= ki < batches0.len() && (
                        #[trigger] batches0[ki]).money_market == m ==> accrued_of(
                            *self,
                            #[trigger] accounts@[ai],
                            batches0[ki].token_id,
                        ) == 0,
                    forall|ki: int|
                        0 <= ki < k && (#[trigger] batches0[ki]).money_market == m ==> accrued_of(
                            *self,
                            account,
                            batches0[ki].token_id,
                        ) == 0,
                decreases self.batches@.len() - k,
            {
                let token = self.batches[k].token_id;
                if self.batches[k].money_market == m {
                    let rewards = self.get_account_accrued_rewards(account, token);
                    if rewards > 0 {
                        let paid = self.pay_rewards(boost, account, token, rewards);
                        if paid.amount > 0 {
                            payments.push(paid);
                        }
                    }
                }
                k = k + 1;
            }
            a = a + 1;
        }
        Ok(payments)
    }

    /// Pays out the accrued rewards of each account in the given reward
    /// tokens, failing when boosting is requested for a token without a
    /// booster.
    pub fn claim_rewards_tokens(
        &mut self,
        boost: bool,
        tokens: &Vec<u64>,
        accounts: &Vec<u64>,
    ) -> (r: Result<Vec<RewardPayment>, Error>)
        requires
            old(self).wf(),
        ensures
            final(self).wf(),
            match r {
                Ok(payments) => {
                    &&& forall|i: int|
                        0 <= i < payments@.len() ==> (#[trigger] payments@[i]).amount > 0
                    &&& forall|ai: int, ti: int|
                        0 <= ai < accounts@.len() && 0 <= ti < tokens@.len() ==> accrued_of(
                            *final(self),
                            #[trigger] accounts@[ai],
                            #[trigger] tokens@[ti],
                        ) == 0
                },
                Err(e) => boost && e == Error::InvalidConfiguration,
            },
            !boost ==> r is Ok,
    {
        let mut payments: Vec<RewardPayment> = Vec::new();
        let mut a: usize = 0;
        while a < accounts.len()
            invariant
                self.wf(),
                a <= accounts@.len(),
                forall|p: int|
                    0 <= p < payments@.len() ==> (#[trigger] payments@[p]).amount > 0,
                forall|ai: int, ti: int|
                    0 <= ai < a && 0 <= ti < tokens@.len() ==> accrued_of(
                        *self,
                        #[trigger] accounts@[ai],
                        #[trigger] tokens@[ti],
                    ) == 0,
            decreases accounts@.len() - a,
        {
            let account = accounts[a];
            let mut k: usize = 0;
            while k < tokens.len()
                invariant
                    self.wf(),
                    a < accounts@.len(),
                    account == accounts@[a as int],
                    k <= tokens@.len(),
                    forall|p: int|
                        0 <= p < payments@.len() ==> (#[trigger] payments@[p]).amount > 0,
                    forall|ai: int, ti: int|
                        0 <= ai < a && 0 <= ti < tokens@.len() ==> accrued_of(
                            *self,
                            #[trigger] accounts@[ai],
                            #[trigger] tokens@[ti],
                        ) == 0,
                    forall|ti: int|
                        0 <= ti < k ==> accrued_of(*self, account, #[trigger] tokens@[ti]) == 0,
                decreases tokens@.len() - k,
            {
                let token = tokens[k];
                let rewards = self.get_account_accrued_rewards(account, token);
                if rewards > 0 {
                    if boost && self.booster_position(token).is_none() {
                        return Err(Error::InvalidConfiguration);
                    }
                    let paid = self.pay_rewards(boost, account, token, rewards);
                    if paid.amount > 0 {
                        payments.push(paid);
                    }
                }
                k = k + 1;
            }
            a = a + 1;
        }
        Ok(payments)
    }

    /// Settles one account's accrued rewards in one token: zeroes the
    /// balance and produces the payment, boosted when a funded booster
    /// exists and boosting was asked for.
    fn pay_rewards(&mut self, boost: bool, account: u64, token: u64, rewards: u128) -> (r:
        RewardPayment)
        requires
            old(self).wf(),
            rewards > 0,
        ensures
            final(self).wf(),
            final(self).batches == old(self).batches,
            final(self).markets == old(self).markets,
            final(self).collaterals == old(self).collaterals,
            final(self).memberships == old(self).memberships,
            final(self).batch_indexes == old(self).batch_indexes,
            final(self).undistributed == old(self).undistributed,
            accrued_of(*final(self), account, token) == 0,
            forall|a2: u64, t2: u64|
                !(a2 == account && t2 == token) ==> #[trigger] accrued_of(*final(self), a2, t2)
                    == accrued_of(*old(self), a2, t2),
            r.account == account && r.token_id == token,
            r.amount >= rewards,
            !r.boosted ==> r.amount == rewards,
            !boost ==> !r.boosted,
            r.boosted ==> exists|i: int|
                0 <= i < old(self).boosters@.len() && (
                #[trigger] old(self).boosters@[i]).token_id == token && r.amount == rewards
                    + rewards * old(self).boosters@[i].premium / (WAD as int) && rewards * old(
                    self,
                ).boosters@[i].premium / (WAD as int) <= old(self).boosters@[i].amount_left,
    {
        let mut boosted = false;
        let mut amount = rewards;
        if boost {
            match self.booster_position(token) {
                None => {},
                Some(i) => {
                    let mut b = self.boosters.remove(i);
                    let delta = match mul_div_floor(rewards, b.premium, WAD) {
                        None => 0,
                        Some(v) => v,
                    };
                    // a booster short of funds falls back to the raw payout
                    if delta > 0 && delta <= b.amount_left && rewards <= u128::MAX - delta {
                        b.amount_left = b.amount_left - delta;
                        b.distributed_amount = match b.distributed_amount.checked_add(delta) {
                            None => b.distributed_amount,
                            Some(v) => v,
                        };
                        amount = rewards + delta;
                        boosted = true;
                    }
                    self.boosters.insert(i, b);
                },
            }
        }
        self.account_rewards.set(account, token, 0, 0);
        RewardPayment { account, token_id: token, amount, boosted }
    }
}

/// Removing a batch can only lower a market's batch count.
proof fn lemma_count_batches_remove(s: Seq<RewardsBatch>, i: int, m: u64)
    requires
        0 <= i < s.len(),
    ensures
        count_batches(s.remove(i), m) == count_batches(s, m) - (if s[i].money_market == m {
            1int
        } else {
            0int
        }),
    decreases s.len(),
{
    if i == s.len() - 1 {
        assert(s.remove(i) =~= s.drop_last());
    } else {
        assert(s.remove(i).drop_last() =~= s.drop_last().remove(i));
        lemma_count_batches_remove(s.drop_last(), i, m);
        assert(s.remove(i).last() == s.last());
    }
}

/// A batch at index `i` with key `(m, id)` decides the batch lookup.
proof fn lemma_batch_at(s: Seq<RewardsBatch>, i: int, m: u64, id: u64)
    requires
        forall|p: int, q: int|
            0 <= p < q < s.len() ==> !((#[trigger] s[p]).money_market == (
            #[trigger] s[q]).money_market && s[p].id == s[q].id),
        0 <= i < s.len(),
        s[i].money_market == m,
        s[i].id == id,
    ensures
        batch_present(s, m, id),
        batch_index_of(s, m, id) == i,
{
    assert(batch_present(s, m, id));
    let j = batch_index_of(s, m, id);
    assert(0 <= j < s.len() && s[j].money_market == m && s[j].id == id);
    if i < j {
        assert(!(s[i].money_market == s[j].money_market && s[i].id == s[j].id));
        assert(false);
    } else if j < i {
        assert(!(s[j].money_market == s[i].money_market && s[j].id == s[i].id));
        assert(false);
    }
}

/// The collateral sum of a market, over the controller.
pub open spec fn sum_collateral_of(c: Controller, m: u64) -> int {
    crate::controller::sum_collateral(c.collaterals@, m)
}

/// Whether two sides coincide.
fn matches_side(a: MarketType, b: MarketType) -> (r: bool)
    ensures
        r == (a == b),
{
    match (a, b) {
        (MarketType::Supply, MarketType::Supply) => true,
        (MarketType::Borrow, MarketType::Borrow) => true,
        _ => false,
    }
}


/// Whether creating a batch with these parameters goes through: the
/// market must be whitelisted with room for one more batch, the funding
/// positive with a positive speed, and the fresh identifier and end time
/// must fit their types.
pub open spec fn set_rewards_batch_ok(c: Controller, m: u64, amount: u128, period: u64, now: u64) -> bool {
    &&& c.whitelisted(m)
    &&& period > 0
    &&& c.batches@.len() < usize::MAX
    &&& count_batches(c.batches@, m) + 1 <= c.markets.lookup(m, 0, 0).unwrap().max_rewards_batches
    &&& amount > 0
    &&& amount * WAD / (period as int) > 0
    &&& amount * WAD / (period as int) <= u128::MAX
    &&& c.markets.lookup(m, 0, 0).unwrap().next_batch_id < u64::MAX
    &&& now + period <= u64::MAX
}

/// The extension a top-up buys: `amount * WAD / speed` seconds.
pub open spec fn spec_added_dt(b: RewardsBatch, amount: u128) -> int {
    amount * WAD / (b.speed as int)
}

/// Whether topping a batch up with `amount` of its own token goes
/// through: the bought extension must be a positive number of seconds
/// and the new totals must fit.
pub open spec fn add_rewards_batch_ok(b: RewardsBatch, token_id: u64, amount: u128, now: u64) -> bool {
    &&& token_id == b.token_id
    &&& amount > 0
    &&& b.speed > 0
    &&& 0 < spec_added_dt(b, amount) <= u64::MAX
    &&& b.amount + amount <= u128::MAX
    &&& (if now > b.end_time {
        now + spec_added_dt(b, amount) <= u64::MAX
    } else {
        b.end_time + spec_added_dt(b, amount) <= u64::MAX
    })
}

/// The batch after a top-up: more funding at the same speed; an expired
/// batch restarts at `now`.
pub open spec fn spec_added_batch(b: RewardsBatch, amount: u128, now: u64) -> RewardsBatch {
    if now > b.end_time {
        RewardsBatch {
            last_time: now,
            end_time: (now + spec_added_dt(b, amount)) as u64,
            amount: (b.amount + amount) as u128,
            ..b
        }
    } else {
        RewardsBatch {
            last_time: if b.last_time > now {
                now
            } else {
                b.last_time
            },
            end_time: (b.end_time + spec_added_dt(b, amount)) as u64,
            amount: (b.amount + amount) as u128,
            ..b
        }
    }
}

/// The linear remainder a cancellation refunds.
pub open spec fn spec_cancel_left(b: RewardsBatch, now: u64) -> int {
    b.speed * (b.end_time - now) / (WAD as int)
}

/// Whether cancelling goes through: the batch is still running, and the
/// remainder fits and is covered by the funding.
pub open spec fn cancel_rewards_batch_ok(b: RewardsBatch, now: u64) -> bool {
    &&& b.end_time > now
    &&& spec_cancel_left(b, now) <= u128::MAX
    &&& spec_cancel_left(b, now) <= b.amount
}

/// The batch after a cancellation: stopped now, with the refunded
/// remainder taken out of the funding.
pub open spec fn spec_cancelled_batch(b: RewardsBatch, now: u64) -> RewardsBatch {
    RewardsBatch {
        end_time: now,
        last_time: if b.last_time > now {
            now
        } else {
            b.last_time
        },
        amount: (b.amount - spec_cancel_left(b, now)) as u128,
        ..b
    }
}

/// The remaining period after a speed change, preserving the remaining
/// rewards: `speed * (end - now) / new_speed`.
pub open spec fn spec_respeed_dt(b: RewardsBatch, new_speed: u128, now: u64) -> int {
    b.speed * (b.end_time - now) / (new_speed as int)
}

/// Whether a speed change goes through.
pub open spec fn update_speed_ok(b: RewardsBatch, new_speed: u128, now: u64) -> bool {
    &&& new_speed > 0
    &&& b.speed != new_speed
    &&& b.end_time > now
    &&& 0 < spec_respeed_dt(b, new_speed, now) <= u64::MAX
    &&& now + spec_respeed_dt(b, new_speed, now) <= u64::MAX
}

/// The batch after a speed change.
pub open spec fn spec_respeed_batch(b: RewardsBatch, new_speed: u128, now: u64) -> RewardsBatch {
    RewardsBatch {
        speed: new_speed,
        end_time: (now + spec_respeed_dt(b, new_speed, now)) as u64,
        last_time: if b.last_time > now {
            now
        } else {
            b.last_time
        },
        ..b
    }
}

/// The speed after a period change, preserving the remaining rewards:
/// `speed * (end - now) / new_dt`.
pub open spec fn spec_reperiod_speed(b: RewardsBatch, new_dt: u64, now: u64) -> int {
    b.speed * (b.end_time - now) / (new_dt as int)
}

/// Whether a period change goes through.
pub open spec fn update_period_ok(b: RewardsBatch, new_dt: u64, now: u64) -> bool {
    &&& new_dt > 0
    &&& b.end_time > now
    &&& b.end_time - now != new_dt
    &&& 0 < spec_reperiod_speed(b, new_dt, now) <= u128::MAX
    &&& now + new_dt <= u64::MAX
}

/// The batch after a period change.
pub open spec fn spec_reperiod_batch(b: RewardsBatch, new_dt: u64, now: u64) -> RewardsBatch {
    RewardsBatch {
        speed: spec_reperiod_speed(b, new_dt, now) as u128,
        end_time: (now + new_dt) as u64,
        last_time: if b.last_time > now {
            now
        } else {
            b.last_time
        },
        ..b
    }
}

/// Whether an administrator may drop a batch with undistributed
/// remainder: expired, with an accepted tolerance met exactly on the
/// products `amount * tolerance <= distributed * WAD`.
pub open spec fn admin_remove_ok(b: RewardsBatch, tolerance: u128, now: u64) -> bool {
    b.amount <= b.distributed_amount || (now > b.end_time && MIN_REWARDS_BATCH_TOLERANCE
        <= tolerance <= WAD && b.amount * tolerance <= b.distributed_amount * WAD)
}

/// Whether a booster token is present.
pub open spec fn booster_present(s: Seq<RewardsBooster>, token: u64) -> bool {
    exists|i: int| 0 <= i < s.len() && (#[trigger] s[i]).token_id == token
}

/// Whether registering a booster goes through: boosting switched on, the
/// premium within its cap, a positive funding with a probe inside it,
/// an active batch for the token, no booster yet, and a probe loss
/// within the slippage bound.
pub open spec fn boost_rewards_ok(
    c: Controller,
    token_id: u64,
    premium: u128,
    amount: u128,
    fwd_swap_amount: u128,
    fwd_bwd_swap_amount: u128,
    now: u64,
) -> bool {
    &&& c.boosting_state == crate::controller::State::Active
    &&& premium <= MAX_PREMIUM
    &&& amount > 0
    &&& 0 < fwd_swap_amount <= amount
    &&& exists|i: int|
        0 <= i < c.batches@.len() && (#[trigger] c.batches@[i]).token_id == token_id && now
            < c.batches@[i].end_time
    &&& !booster_present(c.boosters@, token_id)
    &&& fwd_bwd_swap_amount <= fwd_swap_amount
    &&& fwd_swap_amount - fwd_bwd_swap_amount <= fwd_swap_amount * c.max_slippage / (WAD as int)
}

/// When the pot of `token` cannot absorb this batch's routed amount,
/// the whole update does not fit.
proof fn lemma_update_pot_overflow(
    c0: Controller,
    c_entry: Controller,
    m: u64,
    side: MarketType,
    denom: int,
    now: u64,
    token: u64,
    i: int,
    delta: int,
)
    requires
        0 <= i < c0.batches@.len(),
        forall|t: u64|
            #[trigger] undist_of(c_entry, t) + spec_routed_from(c0, m, side, denom, now, t, i)
                == undist_of(c0, t) + spec_routed_from(c0, m, side, denom, now, t, 0),
        spec_routed_from(c0, m, side, denom, now, token, i) == delta + spec_routed_from(
            c0,
            m,
            side,
            denom,
            now,
            token,
            i + 1,
        ),
        undist_of(c_entry, token) + delta > u128::MAX,
    ensures
        !update_fits(c0, m, side, denom, now),
{
    lemma_routed_nonneg(c0, m, side, denom, now, token, i + 1);
    assert(undist_of(c0, token) + spec_routed_from(c0, m, side, denom, now, token, 0)
        >= undist_of(c_entry, token) + delta);
}


/// A batch step never routes a negative amount to the undistributed pot.
proof fn lemma_batch_route_nonneg(b: RewardsBatch, denom: int, now: u64)
    requires
        spec_batch_update(b, denom, now) is Some,
    ensures
        spec_batch_update(b, denom, now).unwrap().1 >= 0,
{
    let stop: u64 = if now > b.end_time {
        b.end_time
    } else {
        now
    };
    if b.last_time < stop && b.speed > 0 {
        let accrued = b.speed * (stop - b.last_time);
        assert(accrued >= 0) by (nonlinear_arith)
            requires
                accrued == b.speed * (stop - b.last_time) && b.speed >= 0 && b.last_time < stop,
        ;
        vstd::arithmetic::div_mod::lemma_div_pos_is_pos(accrued, WAD as int);
    }
}

/// The routed tail is never negative.
proof fn lemma_routed_nonneg(
    c: Controller,
    m: u64,
    side: MarketType,
    denom: int,
    now: u64,
    token: u64,
    i: int,
)
    ensures
        spec_routed_from(c, m, side, denom, now, token, i) >= 0,
    decreases c.batches@.len() - i,
{
    if 0 <= i < c.batches@.len() {
        let b = c.batches@[i];
        if batch_selected(b, m, side) && b.token_id == token && spec_batch_update(
            b,
            denom,
            now,
        ) is Some {
            lemma_batch_route_nonneg(b, denom, now);
        }
        lemma_routed_nonneg(c, m, side, denom, now, token, i + 1);
    }
}

/// A distribution delta is never negative.
proof fn lemma_delta_nonneg(b: RewardsBatch, prev: Option<u128>, base: int)
    requires
        base >= 0,
    ensures
        spec_distribute_delta(b, prev, base) >= 0,
{
    let p: int = match prev {
        Option::Some(v) => v as int,
        Option::None => WAD_SQUARED as int,
    };
    if b.index >= p {
        assert(base * (b.index - p) >= 0) by (nonlinear_arith)
            requires
                base >= 0 && b.index >= p,
        ;
        vstd::arithmetic::div_mod::lemma_div_pos_is_pos(base * (b.index - p), WAD_SQUARED as int);
    }
}

/// The credit tail is never negative.
proof fn lemma_credit_nonneg(
    c: Controller,
    m: u64,
    side: MarketType,
    account: u64,
    base: int,
    token: u64,
    i: int,
)
    requires
        base >= 0,
    ensures
        spec_credit_from(c, m, side, account, base, token, i) >= 0,
    decreases c.batches@.len() - i,
{
    if 0 <= i < c.batches@.len() {
        let b = c.batches@[i];
        if batch_selected(b, m, side) && b.token_id == token {
            lemma_delta_nonneg(b, c.batch_indexes.lookup(m, b.id, account), base);
        }
        lemma_credit_nonneg(c, m, side, account, base, token, i + 1);
    }
}

/// Replacing a batch with one that keeps its market, identifier and time
/// bound preserves every batch-related invariant of the controller.
proof fn lemma_batches_wf_after_update(c0: Controller, c1: Controller, i: int, b: RewardsBatch)
    requires
        c0.wf(),
        0 <= i < c0.batches@.len(),
        b.money_market == c0.batches@[i].money_market,
        b.id == c0.batches@[i].id,
        b.last_time <= b.end_time,
        c1.batches@ == c0.batches@.update(i, b),
        c1.markets == c0.markets,
        c1.memberships == c0.memberships,
        c1.collaterals == c0.collaterals,
        c1.account_rewards.wf(),
        c1.batch_indexes.wf(),
        c1.undistributed.wf(),
        c1.max_markets_per_account == c0.max_markets_per_account,
        c1.max_slippage == c0.max_slippage,
    ensures
        c1.wf(),
{
    assert forall|m2: u64| #[trigger] count_batches(c1.batches@, m2) == count_batches(
        c0.batches@,
        m2,
    ) by {
        lemma_count_batches_update_same_market(c0.batches@, i, b, m2);
    }
    assert(forall|k: int|
        0 <= k < c1.batches@.len() && k != i ==> #[trigger] c1.batches@[k] == c0.batches@[k]);
}

/// Updating one batch without changing its market leaves every count
/// unchanged.
proof fn lemma_count_batches_update_same_market(
    s: Seq<RewardsBatch>,
    i: int,
    b: RewardsBatch,
    m: u64,
)
    requires
        0 <= i < s.len(),
        b.money_market == s[i].money_market,
    ensures
        count_batches(s.update(i, b), m) == count_batches(s, m),
    decreases s.len(),
{
    let t = s.update(i, b);
    if i == s.len() - 1 {
        assert(t.drop_last() =~= s.drop_last());
    } else {
        assert(t.drop_last() =~= s.drop_last().update(i, b));
        lemma_count_batches_update_same_market(s.drop_last(), i, b, m);
        assert(t.last() == s.last());
    }
}

} // verus!
