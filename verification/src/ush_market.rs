//! The stablecoin market: a money-market variant whose underlying is the
//! protocol's stablecoin.
//!
//! The exchange rate to its share token is fixed by the two tokens'
//! scales, borrows accrue at an administrator-set per-second rate, and
//! each borrower carries a discount that scales its interest: the debt
//! compounded to the present is
//! `borrow * (index * (1 - discount) / snapshot_index + discount)`.
//! An aggregate of `borrow * (1 - discount)` in index-relative form — the
//! effective borrows — drives accrual in one step. All interest goes to
//! the reserves and is split between staking rewards and revenue.

use crate::errors::Error;
use crate::market::{MAX_ACCRUAL_TIME_THRESHOLD, MAX_LTV, MIN_LIQUIDATION_INCENTIVE_TIMES_WAD, WAD_SQUARED};
use crate::math::{div_ceil, mul_div_ceil, mul_div_floor, WAD};
use crate::store::Table;
use vstd::prelude::*;

verus! {

/// Basis points in one unit.
pub const BPS: u128 = 10_000;

/// Seconds in a year.
pub const SECONDS_PER_YEAR: u128 = 31_556_926;

/// The fixed exchange rate between the stablecoin (18 decimals) and its
/// share token (8 decimals): `10^18 * WAD / 10^8`.
pub const EXCHANGE_RATE: u128 = 10_000_000_000_000_000_000_000_000_000;

/// The highest borrow rate accepted at initialization, one WAD per year.
pub const MAX_INITIAL_BORROW_RATE: u128 = WAD / 31_556_926;

/// The wait between borrow-rate increases, one day.
pub const BORROW_RATE_DELAY: u64 = 86_400;

/// The largest borrow-rate change in one step, in basis points (10%).
pub const MAX_BORROW_RATE_CHANGE: u128 = 1_000;

/// Smallest accepted close factor, 20%.
pub const MIN_CLOSE_FACTOR: u128 = 200_000_000_000_000_000;

/// Smallest accepted liquidation incentive, 101%.
pub const MIN_LIQUIDATION_INCENTIVE: u128 = 1_010_000_000_000_000_000;

/// Lifecycle of the stablecoin market; once deprecated and clear of
/// borrowers it can be finalized and dropped as an observer.
#[derive(Clone, Copy, Debug, PartialEq, Eq, Structural)]
pub enum State {
    Empty,
    Active,
    Inactive,
    Finalized,
}

/// What kind of interaction updates the borrow data.
#[derive(Clone, Copy, Debug, PartialEq, Eq, Structural)]
pub enum InteractionType {
    Borrow,
    RepayBorrow,
    EnterOrExitMarket,
}

/// Which discount the update uses: the stored one (liquidations), one
/// computed against cached exchange rates (observer notifications), or
/// one computed against fresh rates (direct user actions).
#[derive(Clone, Copy, Debug, PartialEq, Eq, Structural)]
pub enum DiscountStrategy {
    PreviousDiscount,
    CachedExchangeRate,
    UpdatedExchangeRate,
}

/// A borrower's principal, the borrow index it was stamped at, and its
/// discount at that time.
#[derive(Clone, Copy, Debug, PartialEq, Eq, Structural)]
pub struct AccountSnapshot {
    pub borrow_amount: u128,
    pub borrow_index: u128,
    pub discount: u128,
}

impl AccountSnapshot {
    /// Builds a snapshot from its parts.
    pub fn new(borrow_amount: u128, borrow_index: u128, discount: u128) -> (r: AccountSnapshot)
        ensures
            r == (AccountSnapshot { borrow_amount, borrow_index, discount }),
    {
        AccountSnapshot { borrow_amount, borrow_index, discount }
    }
}

/// The stablecoin market state. It holds no cash: minting burns the paid
/// stablecoin and redeeming mints it back, so only accounting moves here.
pub struct UshMarket {
    /// Lifecycle state.
    pub state: State,
    /// Outstanding borrows, compounded to `accrual_timestamp`.
    pub total_borrows: u128,
    /// The discount-weighted borrows that drive accrual.
    pub effective_borrows: u128,
    /// Sum of the stored account principals.
    pub total_principal: u128,
    /// Reserves, always `revenue + staking_rewards`.
    pub total_reserves: u128,
    /// Part of the reserves directed to staking.
    pub staking_rewards: u128,
    /// All staking rewards ever accrued.
    pub historical_staking_rewards: u128,
    /// Part of the reserves kept as revenue.
    pub revenue: u128,
    /// Share tokens in existence.
    pub total_supply: u128,
    /// The administrator-set borrow rate per second, in WAD.
    pub borrow_rate: u128,
    /// Whether the borrow rate has ever been set.
    pub borrow_rate_set: bool,
    /// When the borrow rate was last changed.
    pub last_borrow_rate_update: u64,
    /// Fraction of new reserves routed to staking rewards.
    pub stake_factor: u128,
    /// Time of the last accrual.
    pub accrual_timestamp: u64,
    /// Monotonic interest accumulator, starts at one WAD.
    pub borrow_index: u128,
    /// Largest fraction of a debt one liquidation may repay.
    pub close_factor: u128,
    /// Collateral bonus per repaid unit at liquidation.
    pub liquidation_incentive: u128,
    /// Fraction of seized collateral kept by the protocol.
    pub protocol_seize_share: u128,
    /// Time under which `try_accrue_interest` skips accrual.
    pub accrual_time_threshold: u64,
    /// Borrow snapshots with discounts, keyed by borrower.
    pub snapshots: Table<AccountSnapshot>,
    /// Stored principals, keyed by borrower; absent means zero.
    pub principals: Table<u128>,
}

/// A borrower's debt compounded to the market's index, scaled by its
/// discount: `b * (mi * (WAD - d) / ai + d) / WAD`, floored twice.
pub open spec fn spec_ush_account_borrow(m: UshMarket, account: u64) -> int {
    match m.snapshots.lookup(account, 0, 0) {
        Option::None => 0,
        Option::Some(s) => s.borrow_amount * (m.borrow_index * (WAD - s.discount) / (
        s.borrow_index as int) + s.discount) / (WAD as int),
    }
}

/// The interest accumulated over `dt` seconds on the effective borrows.
pub open spec fn ush_delta_borrows(m: UshMarket, dt: int) -> int {
    m.borrow_rate * dt * m.effective_borrows / (WAD as int)
}

/// The staking slice of the accrued interest.
pub open spec fn ush_delta_rewards(m: UshMarket, dt: int) -> int {
    m.stake_factor * ush_delta_borrows(m, dt) / (WAD as int)
}

/// The borrow-index growth, rounded up.
pub open spec fn ush_delta_index(m: UshMarket, dt: int) -> int {
    div_ceil(m.borrow_index * (m.borrow_rate * dt), WAD as int)
}

/// Whether the accrual at `now` stays within 128 bits.
pub open spec fn ush_accrue_fits(m: UshMarket, now: u64) -> bool {
    now == m.accrual_timestamp || {
        let dt = now - m.accrual_timestamp;
        &&& m.borrow_rate * dt <= u128::MAX
        &&& m.total_borrows + ush_delta_borrows(m, dt) <= u128::MAX
        &&& m.effective_borrows + ush_delta_borrows(m, dt) <= u128::MAX
        &&& m.total_reserves + ush_delta_borrows(m, dt) <= u128::MAX
        &&& m.staking_rewards + ush_delta_rewards(m, dt) <= u128::MAX
        &&& m.historical_staking_rewards + ush_delta_rewards(m, dt) <= u128::MAX
        &&& m.revenue + (ush_delta_borrows(m, dt) - ush_delta_rewards(m, dt)) <= u128::MAX
        &&& m.borrow_index + ush_delta_index(m, dt) <= u128::MAX
    }
}

/// The market after accruing interest at `now`: the interest lands on the
/// borrows, the effective borrows and the reserves, split into staking
/// rewards and revenue, and the index grows by its ceiling-rounded step.
pub open spec fn spec_ush_accrue(m: UshMarket, now: u64) -> UshMarket {
    if now == m.accrual_timestamp {
        m
    } else {
        let dt = now - m.accrual_timestamp;
        let db = ush_delta_borrows(m, dt);
        let dw = ush_delta_rewards(m, dt);
        let di = ush_delta_index(m, dt);
        UshMarket {
            total_borrows: (m.total_borrows + db) as u128,
            effective_borrows: (m.effective_borrows + db) as u128,
            total_reserves: (m.total_reserves + db) as u128,
            staking_rewards: (m.staking_rewards + dw) as u128,
            historical_staking_rewards: (m.historical_staking_rewards + dw) as u128,
            revenue: (m.revenue + (db - dw)) as u128,
            borrow_index: (m.borrow_index + di) as u128,
            accrual_timestamp: now,
            ..m
        }
    }
}

/// Whether a borrow-rate change stays within the allowed band:
/// `|to - from| <= from * MAX_BORROW_RATE_CHANGE / BPS`.
pub open spec fn spec_rate_change_allowed(from: int, to: int) -> bool {
    (if from < to {
        to - from
    } else {
        from - to
    }) <= from * MAX_BORROW_RATE_CHANGE / (BPS as int)
}

impl UshMarket {
    /// Integrity of the stablecoin market.
    pub open spec fn wf(self) -> bool {
        &&& self.snapshots.wf()
        &&& self.principals.wf()
        &&& self.stake_factor <= WAD
        &&& MIN_CLOSE_FACTOR <= self.close_factor <= WAD
        &&& self.protocol_seize_share < WAD
        &&& self.liquidation_incentive * (WAD - self.protocol_seize_share)
            >= MIN_LIQUIDATION_INCENTIVE * (WAD as int)
        &&& self.liquidation_incentive * MAX_LTV < WAD * WAD
        &&& self.borrow_index >= WAD
        &&& self.revenue + self.staking_rewards == self.total_reserves
        &&& forall|i: int|
            0 <= i < self.snapshots.entries.len() ==> (
            #[trigger] self.snapshots.entries[i]).val.borrow_index >= WAD && (
            self.snapshots.entries[i]).val.discount <= WAD
    }

    /// Creates the market in the inactive state.
    pub fn new(now: u64) -> (r: UshMarket)
        ensures
            r.wf(),
            r.state == State::Inactive,
            r.total_borrows == 0,
            r.effective_borrows == 0,
            r.borrow_index == WAD,
            r.accrual_timestamp == now,
    {
        UshMarket {
            state: State::Inactive,
            total_borrows: 0,
            effective_borrows: 0,
            total_principal: 0,
            total_reserves: 0,
            staking_rewards: 0,
            historical_staking_rewards: 0,
            revenue: 0,
            total_supply: 0,
            borrow_rate: 0,
            borrow_rate_set: false,
            last_borrow_rate_update: 0,
            stake_factor: 0,
            accrual_timestamp: now,
            borrow_index: WAD,
            close_factor: MIN_CLOSE_FACTOR,
            liquidation_incentive: MIN_LIQUIDATION_INCENTIVE,
            protocol_seize_share: 0,
            accrual_time_threshold: 0,
            snapshots: Table::new(),
            principals: Table::new(),
        }
    }
}

/// The common surface of the stablecoin market: accrual, conversions and
/// borrow queries.
pub trait CommonsModule: Sized {
    /// The market state this instance works on.
    spec fn ush(&self) -> UshMarket;

    /// Accrues interest up to `now`.
    fn accrue_interest(&mut self, now: u64) -> (r: Result<(), Error>)
        requires
            old(self).ush().wf(),
            now >= old(self).ush().accrual_timestamp,
        ensures
            final(self).ush().wf(),
            match r {
                Ok(()) => ush_accrue_fits(old(self).ush(), now) && final(self).ush()
                    == spec_ush_accrue(old(self).ush(), now),
                Err(e) => e == Error::Arithmetic && final(self).ush() == old(self).ush()
                    && !ush_accrue_fits(old(self).ush(), now),
            },
    ;

    /// Accrues only when at least the accrual time threshold has elapsed.
    fn try_accrue_interest(&mut self, now: u64) -> (r: Result<(), Error>)
        requires
            old(self).ush().wf(),
            now >= old(self).ush().accrual_timestamp,
        ensures
            final(self).ush().wf(),
            now - old(self).ush().accrual_timestamp < old(self).ush().accrual_time_threshold
                ==> r == Ok::<(), Error>(()) && final(self).ush() == old(self).ush(),
    ;

    /// Converts a stablecoin amount to share tokens at the fixed rate.
    fn ush_to_hush(&self, amount: u128) -> (r: u128)
        ensures
            r == amount * WAD / (EXCHANGE_RATE as int),
    ;

    /// Converts share tokens to a stablecoin amount at the fixed rate.
    fn hush_to_ush(&self, tokens: u128) -> (r: Result<u128, Error>)
        ensures
            match r {
                Ok(v) => v == EXCHANGE_RATE * tokens / (WAD as int),
                Err(e) => e == Error::Arithmetic && EXCHANGE_RATE * tokens / (WAD as int)
                    > u128::MAX,
            },
    ;

    /// The fixed exchange rate.
    fn get_exchange_rate(&self) -> (r: u128)
        ensures
            r == EXCHANGE_RATE,
    ;

    /// The borrower's debt at the stored index, with its discount applied.
    fn stored_account_borrow_amount(&self, account: u64) -> (r: Result<u128, Error>)
        requires
            self.ush().wf(),
        ensures
            match r {
                Ok(v) => v == spec_ush_account_borrow(self.ush(), account) && account_borrow_fits(
                    self.ush(),
                    account,
                ),
                Err(e) => e == Error::Arithmetic && !account_borrow_fits(self.ush(), account),
            },
    ;

    /// Whether a borrow-rate change stays within the allowed band.
    fn is_borrow_rate_change_allowed(&self, from: u128, to: u128) -> (r: Result<bool, Error>)
        ensures
            r matches Ok(ok) && ok == spec_rate_change_allowed(from as int, to as int),
    ;
}

impl CommonsModule for UshMarket {
    open spec fn ush(&self) -> UshMarket {
        *self
    }

    fn accrue_interest(&mut self, now: u64) -> (r: Result<(), Error>) {
        if now == self.accrual_timestamp {
            return Ok(());
        }
        let dt: u64 = now - self.accrual_timestamp;
        let rate_dt = match self.borrow_rate.checked_mul(dt as u128) {
            None => { return Err(Error::Arithmetic) },
            Some(v) => v,
        };
        let delta_borrows = match mul_div_floor(rate_dt, self.effective_borrows, WAD) {
            None => { return Err(Error::Arithmetic) },
            Some(v) => v,
        };
        proof {
            assert(rate_dt * self.effective_borrows == self.borrow_rate * (dt as int)
                * self.effective_borrows) by (nonlinear_arith)
                requires
                    rate_dt == self.borrow_rate * (dt as int),
            ;
        }
        let new_borrows = match self.total_borrows.checked_add(delta_borrows) {
            None => { return Err(Error::Arithmetic) },
            Some(v) => v,
        };
        let new_effective = match self.effective_borrows.checked_add(delta_borrows) {
            None => { return Err(Error::Arithmetic) },
            Some(v) => v,
        };
        let new_reserves = match self.total_reserves.checked_add(delta_borrows) {
            None => { return Err(Error::Arithmetic) },
            Some(v) => v,
        };
        proof {
            crate::math::lemma_scale_down(delta_borrows as int, self.stake_factor as int);
        }
        let delta_rewards = match mul_div_floor(self.stake_factor, delta_borrows, WAD) {
            None => { return Err(Error::Arithmetic) },
            Some(v) => v,
        };
        let new_rewards = match self.staking_rewards.checked_add(delta_rewards) {
            None => { return Err(Error::Arithmetic) },
            Some(v) => v,
        };
        let new_historical = match self.historical_staking_rewards.checked_add(delta_rewards) {
            None => { return Err(Error::Arithmetic) },
            Some(v) => v,
        };
        let new_revenue = match self.revenue.checked_add(delta_borrows - delta_rewards) {
            None => { return Err(Error::Arithmetic) },
            Some(v) => v,
        };
        let delta_index = match mul_div_ceil(self.borrow_index, rate_dt, WAD) {
            None => { return Err(Error::Arithmetic) },
            Some(v) => v,
        };
        proof {
            assert(self.borrow_index * rate_dt == self.borrow_index * (self.borrow_rate * (
            dt as int))) by (nonlinear_arith)
                requires
                    rate_dt == self.borrow_rate * (dt as int),
            ;
        }
        let new_index = match self.borrow_index.checked_add(delta_index) {
            None => { return Err(Error::Arithmetic) },
            Some(v) => v,
        };
        proof {
            crate::math::lemma_div_ceil_nonneg(
                self.borrow_index * (self.borrow_rate * (dt as int)),
                WAD as int,
            );
        }
        self.total_borrows = new_borrows;
        self.effective_borrows = new_effective;
        self.total_reserves = new_reserves;
        self.staking_rewards = new_rewards;
        self.historical_staking_rewards = new_historical;
        self.revenue = new_revenue;
        self.borrow_index = new_index;
        self.accrual_timestamp = now;
        Ok(())
    }

    fn try_accrue_interest(&mut self, now: u64) -> (r: Result<(), Error>) {
        if now - self.accrual_timestamp >= self.accrual_time_threshold {
            self.accrue_interest(now)
        } else {
            Ok(())
        }
    }

    fn ush_to_hush(&self, amount: u128) -> (r: u128) {
        match mul_div_floor(amount, WAD, EXCHANGE_RATE) {
            None => {
                // unreachable: the fixed rate is above one WAD
                proof {
                    crate::math::lemma_mul_div_le(amount as int, WAD as int, EXCHANGE_RATE as int);
                    assert(false);
                }
                0
            },
            Some(v) => v,
        }
    }

    fn hush_to_ush(&self, tokens: u128) -> (r: Result<u128, Error>) {
        match mul_div_floor(EXCHANGE_RATE, tokens, WAD) {
            None => Err(Error::Arithmetic),
            Some(v) => Ok(v),
        }
    }

    fn get_exchange_rate(&self) -> (r: u128) {
        EXCHANGE_RATE
    }

    fn stored_account_borrow_amount(&self, account: u64) -> (r: Result<u128, Error>) {
        match self.snapshots.get(account, 0, 0) {
            None => Ok(0),
            Some(s) => {
                proof {
                    let i = self.snapshots.index_of(account, 0, 0);
                    assert(self.snapshots.entries[i].val.borrow_index >= WAD);
                    assert(self.snapshots.entries[i].val.discount <= WAD);
                }
                let scaled = match mul_div_floor(self.borrow_index, WAD - s.discount, s.borrow_index) {
                    None => { return Err(Error::Arithmetic) },
                    Some(v) => v,
                };
                let factor = match scaled.checked_add(s.discount) {
                    None => { return Err(Error::Arithmetic) },
                    Some(v) => v,
                };
                match mul_div_floor(s.borrow_amount, factor, WAD) {
                    None => Err(Error::Arithmetic),
                    Some(v) => Ok(v),
                }
            },
        }
    }

    fn is_borrow_rate_change_allowed(&self, from: u128, to: u128) -> (r: Result<bool, Error>) {
        proof {
            crate::math::lemma_mul_div_le(from as int, MAX_BORROW_RATE_CHANGE as int, BPS as int);
        }
        let max_change = match mul_div_floor(from, MAX_BORROW_RATE_CHANGE, BPS) {
            None => {
                // unreachable: the band is a basis-point fraction
                proof {
                    assert(false);
                }
                return Err(Error::Arithmetic);
            },
            Some(v) => v,
        };
        let delta = if from < to {
            to - from
        } else {
            from - to
        };
        Ok(delta <= max_change)
    }
}

/// Whether the borrower's stored debt is computable within 128 bits at
/// every step of the discount formula.
pub open spec fn account_borrow_fits(m: UshMarket, a: u64) -> bool {
    match m.snapshots.lookup(a, 0, 0) {
        Option::None => true,
        Option::Some(s) => {
            let scaled = m.borrow_index * (WAD - s.discount) / (s.borrow_index as int);
            &&& scaled <= u128::MAX
            &&& scaled + s.discount <= u128::MAX
            &&& s.borrow_amount * (scaled + s.discount) / (WAD as int) <= u128::MAX
        },
    }
}

/// The borrower's snapshot, or the empty one stamped at the current index.
pub open spec fn snap_or_default(m: UshMarket, a: u64) -> AccountSnapshot {
    match m.snapshots.lookup(a, 0, 0) {
        Option::Some(s) => s,
        Option::None => AccountSnapshot {
            borrow_amount: 0,
            borrow_index: m.borrow_index,
            discount: 0,
        },
    }
}

/// The decision part of a borrow-data update:
/// `(effective_amount, new_borrow, new_total_borrows)`. Borrows add the
/// amount; repayments clamp the debt to the total borrows and repay up to
/// it; membership changes leave the amounts alone.
pub open spec fn spec_update_decision(
    m: UshMarket,
    a: u64,
    amount: u128,
    interaction: InteractionType,
) -> (int, int, int) {
    let current = spec_ush_account_borrow(m, a);
    match interaction {
        InteractionType::Borrow => (amount as int, current + amount, m.total_borrows + amount),
        InteractionType::RepayBorrow => {
            let cur_c = if current > m.total_borrows {
                m.total_borrows as int
            } else {
                current
            };
            let rep = if cur_c >= amount {
                amount as int
            } else {
                cur_c
            };
            (rep, cur_c - rep, m.total_borrows - rep)
        },
        InteractionType::EnterOrExitMarket => (0, current, m.total_borrows as int),
    }
}

/// The borrower's previous contribution to the effective borrows, rounded
/// up: `(WAD - old_discount) * index * old_borrow / (snapshot_index * WAD)`.
pub open spec fn spec_old_contribution(m: UshMarket, a: u64) -> int {
    let s = snap_or_default(m, a);
    div_ceil((WAD - s.discount) * m.borrow_index * s.borrow_amount, s.borrow_index * WAD)
}

/// The borrower's stored principal, zero when absent.
pub open spec fn principal_of(m: UshMarket, a: u64) -> int {
    match m.principals.lookup(a, 0, 0) {
        Option::Some(v) => v as int,
        Option::None => 0,
    }
}

/// Whether a borrow-data update goes through: the membership variant
/// carries no value, and every intermediate value stays within 128 bits.
/// `d` is the discount the update will stamp.
pub open spec fn update_borrows_ok(
    m: UshMarket,
    borrower: u64,
    amount: u128,
    interaction: InteractionType,
    d: int,
) -> bool {
    let s0 = snap_or_default(m, borrower);
    let dec = spec_update_decision(m, borrower, amount, interaction);
    &&& (interaction == InteractionType::EnterOrExitMarket ==> amount == 0)
    &&& account_borrow_fits(m, borrower)
    &&& (interaction == InteractionType::Borrow ==> spec_ush_account_borrow(m, borrower) + amount
        <= u128::MAX && m.total_borrows + amount <= u128::MAX)
    &&& (dec.1 >= s0.borrow_amount ==> m.total_principal + (dec.1 - s0.borrow_amount)
        <= u128::MAX)
    &&& (dec.1 < s0.borrow_amount ==> s0.borrow_amount - dec.1 <= m.total_principal)
    &&& m.effective_borrows + (WAD - d) * dec.1 / (WAD as int) <= u128::MAX
    &&& (WAD - s0.discount) * m.borrow_index <= u128::MAX
    &&& s0.borrow_index * WAD <= u128::MAX
    &&& spec_old_contribution(m, borrower) <= u128::MAX
}

/// Whether a borrow-rate change goes through.
pub open spec fn set_borrow_apr_ok(m: UshMarket, borrow_apr: u128, now: u64) -> bool {
    let rate = borrow_apr as int / (SECONDS_PER_YEAR as int);
    &&& rate != 0
    &&& (!m.borrow_rate_set ==> rate <= MAX_INITIAL_BORROW_RATE)
    &&& (m.borrow_rate_set ==> rate != m.borrow_rate && spec_rate_change_allowed(
        m.borrow_rate as int,
        rate,
    ) && (rate > m.borrow_rate ==> now >= m.last_borrow_rate_update && now
        - m.last_borrow_rate_update >= BORROW_RATE_DELAY))
    &&& m.accrual_timestamp == now
}

/// The mutating surface of the stablecoin market.
pub trait UshMoneyMarket: CommonsModule {
    /// Recomputes a borrower's debt, principal, discount and the market's
    /// borrow aggregates for one interaction. The new discount is the
    /// stored one under `PreviousDiscount`, and `discount_input` — the
    /// discount model's answer, computed against cached or fresh exchange
    /// rates — otherwise. Returns
    /// `(effective_amount, new_borrow, new_total_borrows)`.
    fn update_borrows_data(
        &mut self,
        borrower: u64,
        amount: u128,
        interaction: InteractionType,
        strategy: DiscountStrategy,
        discount_input: u128,
        now: u64,
    ) -> (r: Result<(u128, u128, u128), Error>)
        requires
            old(self).ush().wf(),
            discount_input <= WAD,
        ensures
            final(self).ush().wf(),
            match r {
                Ok(out) => {
                    let m0 = old(self).ush();
                    let dec = spec_update_decision(m0, borrower, amount, interaction);
                    let s0 = snap_or_default(m0, borrower);
                    let d: int = if strategy == DiscountStrategy::PreviousDiscount {
                        s0.discount as int
                    } else {
                        discount_input as int
                    };
                    let pos = (WAD - d) * dec.1 / (WAD as int);
                    let neg = spec_old_contribution(m0, borrower);
                    {
                        &&& (out.0 as int, out.1 as int, out.2 as int) == dec
                        &&& final(self).ush().total_borrows == dec.2
                        &&& final(self).ush().snapshots.lookup(borrower, 0, 0) == Some(
                            AccountSnapshot {
                                borrow_amount: out.1,
                                borrow_index: m0.borrow_index,
                                discount: d as u128,
                            },
                        )
                        &&& final(self).ush().principals.lookup(borrower, 0, 0) == Some(out.1)
                        &&& final(self).ush().effective_borrows == {
                            let eff1 = m0.effective_borrows + pos;
                            eff1 - (if eff1 >= neg {
                                neg
                            } else {
                                eff1
                            })
                        }
                        &&& final(self).ush().total_principal == m0.total_principal + out.1
                            - s0.borrow_amount
                        &&& forall|x: u64|
                            x != borrower ==> #[trigger] final(self).ush().snapshots.lookup(x, 0, 0)
                                == m0.snapshots.lookup(x, 0, 0)
                        &&& forall|x: u64|
                            x != borrower ==> #[trigger] final(self).ush().principals.lookup(
                                x,
                                0,
                                0,
                            ) == m0.principals.lookup(x, 0, 0)
                        &&& final(self).ush().borrow_index == m0.borrow_index
                        &&& final(self).ush().accrual_timestamp == m0.accrual_timestamp
                        &&& final(self).ush().total_reserves == m0.total_reserves
                        &&& final(self).ush().total_supply == m0.total_supply
                        &&& final(self).ush().state == m0.state
                        &&& final(self).ush().borrow_rate == m0.borrow_rate
                    }
                },
                Err(e) => final(self).ush() == old(self).ush() && (e == Error::InvalidPayment || e
                    == Error::Arithmetic) && !update_borrows_ok(
                    old(self).ush(),
                    borrower,
                    amount,
                    interaction,
                    if strategy == DiscountStrategy::PreviousDiscount {
                        snap_or_default(old(self).ush(), borrower).discount as int
                    } else {
                        discount_input as int
                    },
                ),
            },
    ;

    /// Sets the borrow rate from a per-year rate. The first rate must not
    /// exceed one WAD per year; later changes are bounded to a tenth of
    /// the old rate, and increases must wait a day since the last change.
    fn set_borrow_apr(&mut self, borrow_apr: u128, now: u64) -> (r: Result<(), Error>)
        requires
            old(self).ush().wf(),
        ensures
            final(self).ush().wf(),
            match r {
                Ok(()) => {
                    let rate = borrow_apr as int / (SECONDS_PER_YEAR as int);
                    {
                        &&& rate != 0
                        &&& (!old(self).ush().borrow_rate_set ==> rate <= MAX_INITIAL_BORROW_RATE)
                        &&& (old(self).ush().borrow_rate_set ==> rate != old(self).ush().borrow_rate && spec_rate_change_allowed(
                            old(self).ush().borrow_rate as int,
                            rate,
                        ) && (rate > old(self).ush().borrow_rate ==> now - old(self).ush().last_borrow_rate_update >= BORROW_RATE_DELAY))
                        &&& old(self).ush().accrual_timestamp == now
                        &&& final(self).ush() == (UshMarket {
                            borrow_rate: rate as u128,
                            borrow_rate_set: true,
                            last_borrow_rate_update: now,
                            ..old(self).ush()
                        })
                    }
                },
                Err(e) => final(self).ush() == old(self).ush() && !set_borrow_apr_ok(
                    old(self).ush(),
                    borrow_apr,
                    now,
                ),
            },
    ;

    /// Deposits `amount` stablecoin for share tokens at the fixed rate;
    /// the coins are burned by the minter outside.
    fn mint(&mut self, amount: u128, now: u64) -> (r: Result<u128, Error>)
        requires
            old(self).ush().wf(),
        ensures
            final(self).ush().wf(),
            match r {
                Ok(tokens) => {
                    &&& old(self).ush().state == State::Active
                    &&& amount > 0
                    &&& old(self).ush().accrual_timestamp == now
                    &&& tokens == amount * WAD / (EXCHANGE_RATE as int)
                    &&& tokens > 0
                    &&& final(self).ush() == (UshMarket {
                        total_supply: (old(self).ush().total_supply + tokens) as u128,
                        ..old(self).ush()
                    })
                },
                Err(e) => final(self).ush() == old(self).ush() && !(old(self).ush().state
                    == State::Active && amount > 0 && old(self).ush().accrual_timestamp == now
                    && amount * WAD / (EXCHANGE_RATE as int) > 0 && old(self).ush().total_supply
                    + amount * WAD / (EXCHANGE_RATE as int) <= u128::MAX),
            },
    ;

    /// Burns `tokens` share tokens for their stablecoin value, minted
    /// back to the redeemer outside.
    fn redeem_tokens(&mut self, tokens: u128, now: u64) -> (r: Result<u128, Error>)
        requires
            old(self).ush().wf(),
            tokens <= old(self).ush().total_supply,
        ensures
            final(self).ush().wf(),
            match r {
                Ok(amount) => {
                    &&& tokens > 0
                    &&& old(self).ush().accrual_timestamp == now
                    &&& amount == EXCHANGE_RATE * tokens / (WAD as int)
                    &&& final(self).ush() == (UshMarket {
                        total_supply: (old(self).ush().total_supply - tokens) as u128,
                        ..old(self).ush()
                    })
                },
                Err(e) => final(self).ush() == old(self).ush() && !(tokens > 0 && old(self).ush().accrual_timestamp == now && EXCHANGE_RATE * tokens / (WAD as int)
                    <= u128::MAX),
            },
    ;

    /// Splits seized share tokens between the liquidator and the
    /// protocol, whose slice is burned and booked into reserves with the
    /// stake split. Returns
    /// `(liquidator_tokens, protocol_tokens, delta_reserves)`.
    fn seize(&mut self, tokens: u128, now: u64) -> (r: Result<(u128, u128, u128), Error>)
        requires
            old(self).ush().wf(),
            tokens <= old(self).ush().total_supply,
        ensures
            final(self).ush().wf(),
            match r {
                Ok(out) => {
                    let m0 = old(self).ush();
                    let pt = m0.protocol_seize_share * tokens / (WAD as int);
                    let dr = EXCHANGE_RATE * pt / (WAD as int);
                    let dw = m0.stake_factor * dr / (WAD as int);
                    {
                        &&& tokens > 0
                        &&& m0.accrual_timestamp == now
                        &&& out.0 == tokens - pt && out.1 == pt && out.2 == dr
                        &&& final(self).ush() == (UshMarket {
                            total_supply: (m0.total_supply - pt) as u128,
                            total_reserves: (m0.total_reserves + dr) as u128,
                            staking_rewards: (m0.staking_rewards + dw) as u128,
                            historical_staking_rewards: (m0.historical_staking_rewards
                                + dw) as u128,
                            revenue: (m0.revenue + (dr - dw)) as u128,
                            ..m0
                        })
                    }
                },
                Err(e) => {
                    let m0 = old(self).ush();
                    let pt = m0.protocol_seize_share * tokens / (WAD as int);
                    let dr = EXCHANGE_RATE * pt / (WAD as int);
                    let dw = m0.stake_factor * dr / (WAD as int);
                    final(self).ush() == old(self).ush() && !(tokens > 0 && m0.accrual_timestamp
                        == now && dr <= u128::MAX && m0.total_reserves + dr <= u128::MAX
                        && m0.staking_rewards + dw <= u128::MAX && m0.historical_staking_rewards
                        + dw <= u128::MAX && m0.revenue + (dr - dw) <= u128::MAX)
                },
            },
    ;
}

/// The controller notifies the stablecoin market of collateral changes so
/// borrower discounts stay current.
pub trait ObserverModule: CommonsModule {
    /// Re-evaluates a borrower's discount after its collateral changed
    /// elsewhere, using `cached_discount` — the discount model's answer
    /// against cached exchange rates, so no fresh oracle reads happen in
    /// the notification path. Does nothing for non-borrowers or once the
    /// market is finalized.
    fn on_market_change(&mut self, account: u64, cached_discount: u128, now: u64) -> (r: Result<
        (),
        Error,
    >)
        requires
            old(self).ush().wf(),
            cached_discount <= WAD,
            now >= old(self).ush().accrual_timestamp,
        ensures
            final(self).ush().wf(),
            now == old(self).ush().accrual_timestamp ==> final(self).ush().total_borrows == old(self).ush().total_borrows,
    ;
}

impl UshMoneyMarket for UshMarket {
    #[verifier::rlimit(100)]
    fn update_borrows_data(
        &mut self,
        borrower: u64,
        amount: u128,
        interaction: InteractionType,
        strategy: DiscountStrategy,
        discount_input: u128,
        now: u64,
    ) -> (r: Result<(u128, u128, u128), Error>) {
        let snap = match self.snapshots.get(borrower, 0, 0) {
            Some(s) => s,
            None => AccountSnapshot {
                borrow_amount: 0,
                borrow_index: self.borrow_index,
                discount: 0,
            },
        };
        proof {
            if self.snapshots.lookup(borrower, 0, 0) is Some {
                let i = self.snapshots.index_of(borrower, 0, 0);
                assert(self.snapshots.entries[i].val.borrow_index >= WAD);
                assert(self.snapshots.entries[i].val.discount <= WAD);
            }
        }
        let current = match self.stored_account_borrow_amount(borrower) {
            Err(e) => { return Err(e) },
            Ok(v) => v,
        };
        let eff_amount: u128;
        let new_borrow: u128;
        let new_total: u128;
        match interaction {
            InteractionType::Borrow => {
                new_borrow = match current.checked_add(amount) {
                    None => { return Err(Error::Arithmetic) },
                    Some(v) => v,
                };
                new_total = match self.total_borrows.checked_add(amount) {
                    None => { return Err(Error::Arithmetic) },
                    Some(v) => v,
                };
                eff_amount = amount;
            },
            InteractionType::RepayBorrow => {
                let cur_c = if current > self.total_borrows {
                    self.total_borrows
                } else {
                    current
                };
                let rep = if cur_c >= amount {
                    amount
                } else {
                    cur_c
                };
                eff_amount = rep;
                new_borrow = cur_c - rep;
                new_total = self.total_borrows - rep;
            },
            InteractionType::EnterOrExitMarket => {
                if amount != 0 {
                    return Err(Error::InvalidPayment);
                }
                eff_amount = 0;
                new_borrow = current;
                new_total = self.total_borrows;
            },
        }
        let d: u128 = if matches!(strategy, DiscountStrategy::PreviousDiscount) {
            snap.discount
        } else {
            discount_input
        };
        // principal move
        let new_principal_total: u128;
        if new_borrow >= snap.borrow_amount {
            new_principal_total = match self.total_principal.checked_add(
                new_borrow - snap.borrow_amount,
            ) {
                None => { return Err(Error::Arithmetic) },
                Some(v) => v,
            };
        } else {
            let down = snap.borrow_amount - new_borrow;
            if down > self.total_principal {
                return Err(Error::Arithmetic);
            }
            new_principal_total = self.total_principal - down;
        }
        // effective borrows: the positive contribution first
        proof {
            crate::math::lemma_scale_down(new_borrow as int, (WAD - d) as int);
        }
        let pos = match mul_div_floor(WAD - d, new_borrow, WAD) {
            None => {
                // unreachable: a WAD fraction never grows the amount
                proof {
                    assert(false);
                }
                return Err(Error::Arithmetic);
            },
            Some(v) => v,
        };
        let eff1 = match self.effective_borrows.checked_add(pos) {
            None => { return Err(Error::Arithmetic) },
            Some(v) => v,
        };
        let num_part = match mul_div_floor(WAD - snap.discount, self.borrow_index, 1) {
            None => { return Err(Error::Arithmetic) },
            Some(v) => v,
        };
        let den = match mul_div_floor(snap.borrow_index, WAD, 1) {
            None => { return Err(Error::Arithmetic) },
            Some(v) => v,
        };
        let neg = match mul_div_ceil(num_part, snap.borrow_amount, den) {
            None => { return Err(Error::Arithmetic) },
            Some(v) => v,
        };
        proof {
            assert(num_part * snap.borrow_amount == (WAD - snap.discount) * self.borrow_index
                * snap.borrow_amount) by (nonlinear_arith)
                requires
                    num_part == (WAD - snap.discount) * self.borrow_index,
            ;
        }
        let new_effective = if eff1 >= neg {
            eff1 - neg
        } else {
            0
        };
        self.total_borrows = new_total;
        self.total_principal = new_principal_total;
        self.effective_borrows = new_effective;
        let index = self.borrow_index;
        self.snapshots.set(
            borrower,
            0,
            0,
            AccountSnapshot { borrow_amount: new_borrow, borrow_index: index, discount: d },
        );
        self.principals.set(borrower, 0, 0, new_borrow);
        proof {
            assert forall|i: int| 0 <= i < self.snapshots.entries.len() implies (
            #[trigger] self.snapshots.entries[i]).val.borrow_index >= WAD && (
            self.snapshots.entries[i]).val.discount <= WAD by {
                lemma_ush_snapshot_entries(*old(self), *self, borrower, new_borrow, index, d, i);
            }
        }
        Ok((eff_amount, new_borrow, new_total))
    }

    fn set_borrow_apr(&mut self, borrow_apr: u128, now: u64) -> (r: Result<(), Error>) {
        let rate = borrow_apr / SECONDS_PER_YEAR;
        if rate == 0 {
            return Err(Error::InvalidConfiguration);
        }
        if !self.borrow_rate_set {
            if rate > MAX_INITIAL_BORROW_RATE {
                return Err(Error::InvalidConfiguration);
            }
        } else {
            if rate == self.borrow_rate {
                return Err(Error::InvalidConfiguration);
            }
            let allowed = match self.is_borrow_rate_change_allowed(self.borrow_rate, rate) {
                Err(e) => { return Err(e) },
                Ok(v) => v,
            };
            if !allowed {
                return Err(Error::InvalidConfiguration);
            }
            if rate > self.borrow_rate {
                if now < self.last_borrow_rate_update || now - self.last_borrow_rate_update
                    < BORROW_RATE_DELAY {
                    return Err(Error::InvalidConfiguration);
                }
            }
        }
        if self.accrual_timestamp != now {
            return Err(Error::StaleMarket);
        }
        self.borrow_rate = rate;
        self.borrow_rate_set = true;
        self.last_borrow_rate_update = now;
        Ok(())
    }

    fn mint(&mut self, amount: u128, now: u64) -> (r: Result<u128, Error>) {
        if !matches!(self.state, State::Active) {
            return Err(Error::InvalidConfiguration);
        }
        if amount == 0 {
            return Err(Error::InvalidPayment);
        }
        if self.accrual_timestamp != now {
            return Err(Error::StaleMarket);
        }
        let tokens = self.ush_to_hush(amount);
        if tokens == 0 {
            return Err(Error::InvalidPayment);
        }
        let new_supply = match self.total_supply.checked_add(tokens) {
            None => { return Err(Error::Arithmetic) },
            Some(v) => v,
        };
        self.total_supply = new_supply;
        Ok(tokens)
    }

    fn redeem_tokens(&mut self, tokens: u128, now: u64) -> (r: Result<u128, Error>) {
        if tokens == 0 {
            return Err(Error::InvalidPayment);
        }
        if self.accrual_timestamp != now {
            return Err(Error::StaleMarket);
        }
        let amount = match self.hush_to_ush(tokens) {
            Err(e) => { return Err(e) },
            Ok(v) => v,
        };
        self.total_supply = self.total_supply - tokens;
        Ok(amount)
    }

    fn seize(&mut self, tokens: u128, now: u64) -> (r: Result<(u128, u128, u128), Error>) {
        if tokens == 0 {
            return Err(Error::InvalidPayment);
        }
        if self.accrual_timestamp != now {
            return Err(Error::StaleMarket);
        }
        proof {
            crate::math::lemma_scale_down(tokens as int, self.protocol_seize_share as int);
        }
        let protocol_tokens = match mul_div_floor(self.protocol_seize_share, tokens, WAD) {
            None => {
                // unreachable: a WAD fraction never grows the amount
                proof {
                    assert(false);
                }
                return Err(Error::Arithmetic);
            },
            Some(v) => v,
        };
        let delta_reserves = match self.hush_to_ush(protocol_tokens) {
            Err(e) => { return Err(e) },
            Ok(v) => v,
        };
        let new_reserves = match self.total_reserves.checked_add(delta_reserves) {
            None => { return Err(Error::Arithmetic) },
            Some(v) => v,
        };
        proof {
            crate::math::lemma_scale_down(delta_reserves as int, self.stake_factor as int);
        }
        let delta_rewards = match mul_div_floor(self.stake_factor, delta_reserves, WAD) {
            None => {
                // unreachable: a WAD fraction never grows the amount
                proof {
                    assert(false);
                }
                return Err(Error::Arithmetic);
            },
            Some(v) => v,
        };
        let new_rewards = match self.staking_rewards.checked_add(delta_rewards) {
            None => { return Err(Error::Arithmetic) },
            Some(v) => v,
        };
        let new_historical = match self.historical_staking_rewards.checked_add(delta_rewards) {
            None => { return Err(Error::Arithmetic) },
            Some(v) => v,
        };
        let new_revenue = match self.revenue.checked_add(delta_reserves - delta_rewards) {
            None => { return Err(Error::Arithmetic) },
            Some(v) => v,
        };
        self.total_supply = self.total_supply - protocol_tokens;
        self.total_reserves = new_reserves;
        self.staking_rewards = new_rewards;
        self.historical_staking_rewards = new_historical;
        self.revenue = new_revenue;
        Ok((tokens - protocol_tokens, protocol_tokens, delta_reserves))
    }
}

impl ObserverModule for UshMarket {
    fn on_market_change(&mut self, account: u64, cached_discount: u128, now: u64) -> (r: Result<
        (),
        Error,
    >) {
        if matches!(self.state, State::Finalized) {
            return Ok(());
        }
        let principal = match self.principals.get(account, 0, 0) {
            Some(v) => v,
            None => 0,
        };
        if principal == 0 {
            return Ok(());
        }
        self.accrue_interest(now)?;
        match self.update_borrows_data(
            account,
            0,
            InteractionType::EnterOrExitMarket,
            DiscountStrategy::CachedExchangeRate,
            cached_discount,
            now,
        ) {
            Err(e) => Err(e),
            Ok(_) => Ok(()),
        }
    }
}

impl UshMarket {
    /// Activates the market once a borrow rate is configured; the share
    /// token, minter role and observer registration live on the chain.
    pub fn activate(&mut self) -> (r: Result<(), Error>)
        requires
            old(self).ush().wf(),
        ensures
            final(self).ush().wf(),
            match r {
                Ok(()) => old(self).ush().borrow_rate_set && old(self).ush().state
                    != State::Finalized && final(self).ush() == (UshMarket {
                    state: State::Active,
                    ..old(self).ush()
                }),
                Err(e) => final(self).ush() == old(self).ush(),
            },
    {
        if matches!(self.state, State::Finalized) {
            return Err(Error::InvalidConfiguration);
        }
        if !self.borrow_rate_set {
            return Err(Error::InvalidConfiguration);
        }
        self.state = State::Active;
        Ok(())
    }

    /// Marks a deprecated, borrower-free market finalized, after which
    /// the controller may clear it as an observer.
    pub fn finalize(&mut self) -> (r: Result<(), Error>)
        requires
            old(self).ush().wf(),
        ensures
            final(self).ush().wf(),
            match r {
                Ok(()) => final(self).ush() == (UshMarket {
                    state: State::Finalized,
                    ..old(self).ush()
                }),
                Err(e) => final(self).ush() == old(self).ush(),
            },
    {
        let mut i: usize = 0;
        while i < self.principals.entries.len()
            invariant
                i <= self.principals.entries@.len(),
                *self == *old(self),
                self.ush().wf(),
            decreases self.principals.entries@.len() - i,
        {
            if self.principals.entries[i].val > 0 {
                return Err(Error::InvalidConfiguration);
            }
            i = i + 1;
        }
        self.state = State::Finalized;
        Ok(())
    }
}


impl UshMarket {
    /// Sets the fraction of new reserves routed to staking rewards.
    pub fn set_stake_factor(&mut self, factor: u128, now: u64) -> (r: Result<(), Error>)
        requires
            old(self).ush().wf(),
        ensures
            final(self).ush().wf(),
            match r {
                Ok(()) => factor <= WAD && old(self).ush().accrual_timestamp == now && final(self).ush() == (UshMarket { stake_factor: factor, ..old(self).ush() }),
                Err(e) => final(self).ush() == old(self).ush() && (e
                    == Error::InvalidConfiguration && factor > WAD || e == Error::StaleMarket
                    && factor <= WAD && old(self).ush().accrual_timestamp != now),
            },
    {
        if factor > WAD {
            return Err(Error::InvalidConfiguration);
        }
        if self.accrual_timestamp != now {
            return Err(Error::StaleMarket);
        }
        self.stake_factor = factor;
        Ok(())
    }

    /// Sets the close factor within its allowed band.
    pub fn set_close_factor(&mut self, factor: u128) -> (r: Result<(), Error>)
        requires
            old(self).ush().wf(),
        ensures
            final(self).ush().wf(),
            match r {
                Ok(()) => MIN_CLOSE_FACTOR <= factor <= WAD && final(self).ush() == (UshMarket {
                    close_factor: factor,
                    ..old(self).ush()
                }),
                Err(e) => final(self).ush() == old(self).ush() && e
                    == Error::InvalidConfiguration && !(MIN_CLOSE_FACTOR <= factor <= WAD),
            },
    {
        if factor < MIN_CLOSE_FACTOR || factor > WAD {
            return Err(Error::InvalidConfiguration);
        }
        self.close_factor = factor;
        Ok(())
    }

    /// Sets the liquidation incentive under the same constraints as the
    /// plain markets: liquidators keep at least the minimum incentive
    /// after the protocol's share, and the bonus stays below the
    /// reciprocal of the highest collateral factor.
    pub fn set_liquidation_incentive(&mut self, incentive: u128) -> (r: Result<(), Error>)
        requires
            old(self).ush().wf(),
        ensures
            final(self).ush().wf(),
            match r {
                Ok(()) => incentive * (WAD - old(self).ush().protocol_seize_share)
                    >= MIN_LIQUIDATION_INCENTIVE * (WAD as int) && incentive * MAX_LTV < WAD * WAD
                    && final(self).ush() == (UshMarket {
                    liquidation_incentive: incentive,
                    ..old(self).ush()
                }),
                Err(e) => final(self).ush() == old(self).ush() && e
                    == Error::InvalidConfiguration && !(incentive * (WAD - old(self).ush().protocol_seize_share) >= MIN_LIQUIDATION_INCENTIVE * (WAD as int)
                    && incentive * MAX_LTV < WAD * WAD),
            },
    {
        let floor_ok = match crate::math::mul_div_floor(
            incentive,
            WAD - self.protocol_seize_share,
            1,
        ) {
            None => true,
            Some(p) => p >= MIN_LIQUIDATION_INCENTIVE_TIMES_WAD,
        };
        if !floor_ok {
            return Err(Error::InvalidConfiguration);
        }
        let cap_ok = match crate::math::mul_div_floor(incentive, MAX_LTV, 1) {
            None => false,
            Some(p) => p < WAD_SQUARED,
        };
        if !cap_ok {
            return Err(Error::InvalidConfiguration);
        }
        self.liquidation_incentive = incentive;
        Ok(())
    }

    /// Sets the protocol's share of seized collateral, bounded so that
    /// liquidators keep at least the minimum incentive.
    pub fn set_protocol_seize_share(&mut self, share: u128) -> (r: Result<(), Error>)
        requires
            old(self).ush().wf(),
        ensures
            final(self).ush().wf(),
            match r {
                Ok(()) => share < WAD && old(self).ush().liquidation_incentive * (WAD - share)
                    >= MIN_LIQUIDATION_INCENTIVE * (WAD as int) && final(self).ush() == (
                UshMarket { protocol_seize_share: share, ..old(self).ush() }),
                Err(e) => final(self).ush() == old(self).ush() && e
                    == Error::InvalidConfiguration && !(share < WAD && old(self).ush().liquidation_incentive * (WAD - share) >= MIN_LIQUIDATION_INCENTIVE * (
                WAD as int)),
            },
    {
        if share >= WAD {
            return Err(Error::InvalidConfiguration);
        }
        let floor_ok = match crate::math::mul_div_floor(
            self.liquidation_incentive,
            WAD - share,
            1,
        ) {
            None => true,
            Some(p) => p >= MIN_LIQUIDATION_INCENTIVE_TIMES_WAD,
        };
        if !floor_ok {
            return Err(Error::InvalidConfiguration);
        }
        self.protocol_seize_share = share;
        Ok(())
    }

    /// Sets the time under which `try_accrue_interest` skips accrual.
    pub fn set_accrual_time_threshold(&mut self, threshold: u64) -> (r: Result<(), Error>)
        requires
            old(self).ush().wf(),
        ensures
            final(self).ush().wf(),
            match r {
                Ok(()) => threshold <= MAX_ACCRUAL_TIME_THRESHOLD && final(self).ush() == (
                UshMarket { accrual_time_threshold: threshold, ..old(self).ush() }),
                Err(e) => final(self).ush() == old(self).ush() && e
                    == Error::InvalidConfiguration && threshold > MAX_ACCRUAL_TIME_THRESHOLD,
            },
    {
        if threshold > MAX_ACCRUAL_TIME_THRESHOLD {
            return Err(Error::InvalidConfiguration);
        }
        self.accrual_time_threshold = threshold;
        Ok(())
    }
}

/// After a snapshot write, every stored snapshot still has a positive
/// index and a bounded discount.
proof fn lemma_ush_snapshot_entries(
    m0: UshMarket,
    m1: UshMarket,
    borrower: u64,
    new_borrow: u128,
    index: u128,
    d: u128,
    i: int,
)
    requires
        m0.wf(),
        index >= WAD,
        d <= WAD,
        m1.snapshots.wf(),
        m1.snapshots.lookup(borrower, 0, 0) == Some(
            AccountSnapshot { borrow_amount: new_borrow, borrow_index: index, discount: d },
        ),
        forall|x: u64, y: u64, z: u64|
            !(x == borrower && y == 0 && z == 0) ==> #[trigger] m1.snapshots.lookup(x, y, z)
                == m0.snapshots.lookup(x, y, z),
        0 <= i < m1.snapshots.entries.len(),
    ensures
        m1.snapshots.entries[i].val.borrow_index >= WAD,
        m1.snapshots.entries[i].val.discount <= WAD,
{
    let e = m1.snapshots.entries[i];
    m1.snapshots.lemma_lookup_at(e.k1, e.k2, e.k3, i);
    if e.k1 == borrower && e.k2 == 0 && e.k3 == 0 {
        assert(e.val.borrow_index == index);
    } else {
        assert(m1.snapshots.lookup(e.k1, e.k2, e.k3) == m0.snapshots.lookup(e.k1, e.k2, e.k3));
        assert(m0.snapshots.contains_key(e.k1, e.k2, e.k3));
        let j = choose|p: int|
            0 <= p < m0.snapshots.entries.len() && crate::store::has_key(
                #[trigger] m0.snapshots.entries[p],
                e.k1,
                e.k2,
                e.k3,
            );
        m0.snapshots.lemma_lookup_at(e.k1, e.k2, e.k3, j);
        assert(m0.snapshots.entries[j].val.borrow_index >= WAD);
        assert(m0.snapshots.entries[j].val.discount <= WAD);
    }
}

} // verus!
