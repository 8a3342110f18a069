//! A money market: one lending pool for one underlying asset.
//!
//! Lenders deposit underlying and receive share tokens at the current
//! exchange rate; borrowers draw underlying against collateral held by the
//! controller. Interest accrues through a monotonic borrow index, and a
//! slice of it is split into reserves, staking rewards and protocol
//! revenue.
//!
//! Every state-changing operation either commits all of its writes or
//! returns an error and leaves the market unchanged. The operations the
//! protocol gates behind the controller (mint, borrow, seize) are
//! market-local here; the policy checks live in the controller and are
//! composed with these in the protocol entry points.

use crate::errors::Error;
use crate::interest_rate_model::{
    borrow_rate_fits, spec_borrow_rate, InterestRateModel, RateModel,
};
use crate::math::{mul_div_floor, WAD};
use crate::store::Table;
use vstd::prelude::*;

verus! {

/// Share tokens minted at activation and never circulated: the supply floor
/// of an active market.
pub const MIN_INITIAL_SUPPLY: u128 = 1_000;

/// Longest accepted accrual time threshold, one day in seconds.
pub const MAX_ACCRUAL_TIME_THRESHOLD: u64 = 86_400;

/// Smallest accepted close factor, 20%.
pub const MIN_CLOSE_FACTOR: u128 = 200_000_000_000_000_000;

/// Smallest accepted liquidation incentive, 101%.
pub const MIN_LIQUIDATION_INCENTIVE: u128 = 1_010_000_000_000_000_000;

/// The controller's maximum collateral factor, 90%; the liquidation
/// incentive must stay below its reciprocal.
pub const MAX_LTV: u128 = 900_000_000_000_000_000;

/// The minimum liquidation incentive scaled by one WAD, the floor of
/// `incentive * (WAD - protocol_seize_share)`.
pub const MIN_LIQUIDATION_INCENTIVE_TIMES_WAD: u128 =
    1_010_000_000_000_000_000_000_000_000_000_000_000;

/// One WAD squared.
pub const WAD_SQUARED: u128 = 1_000_000_000_000_000_000_000_000_000_000_000_000;

/// Lifecycle of a market: created inactive, made active once the share
/// token and the initial supply exist.
#[derive(Clone, Copy, Debug, PartialEq, Eq, Structural)]
pub enum State {
    Empty,
    Active,
    Inactive,
}

/// A borrower's principal together with the borrow index at which it was
/// stamped; the current debt is `borrow_amount * index / borrow_index`.
#[derive(Clone, Copy, Debug, PartialEq, Eq, Structural)]
pub struct AccountSnapshot {
    pub borrow_amount: u128,
    pub borrow_index: u128,
}

/// The full state of one money market.
pub struct Market {
    /// Lifecycle state.
    pub state: State,
    /// Underlying held by the market.
    pub cash: u128,
    /// Outstanding borrows, compounded up to `accrual_timestamp`.
    pub total_borrows: u128,
    /// Reserves, always `revenue + staking_rewards`.
    pub total_reserves: u128,
    /// Part of the reserves directed to staking.
    pub staking_rewards: u128,
    /// All staking rewards ever accrued.
    pub historical_staking_rewards: u128,
    /// Part of the reserves kept as protocol revenue.
    pub revenue: u128,
    /// Share tokens in existence, including the permanently burned floor.
    pub total_supply: u128,
    /// Monotonic interest accumulator, starts at one WAD.
    pub borrow_index: u128,
    /// Time of the last accrual.
    pub accrual_timestamp: u64,
    /// Exchange rate used while no share tokens exist.
    pub initial_exchange_rate: u128,
    /// Fraction of interest routed to reserves, in WAD.
    pub reserve_factor: u128,
    /// Fraction of new reserves routed to staking rewards, in WAD.
    pub stake_factor: u128,
    /// Largest fraction of a debt one liquidation may repay, in WAD.
    pub close_factor: u128,
    /// Collateral bonus per repaid unit at liquidation, in WAD.
    pub liquidation_incentive: u128,
    /// Fraction of seized collateral kept by the protocol, in WAD.
    pub protocol_seize_share: u128,
    /// Time under which `try_accrue_interest` skips accrual.
    pub accrual_time_threshold: u64,
    /// The interest-rate model.
    pub rate_model: RateModel,
    /// Borrow snapshots, keyed by borrower.
    pub snapshots: Table<AccountSnapshot>,
    /// Contracts allowed to mint on behalf of other accounts.
    pub trusted_minters: Table<bool>,
}

/// The asset-side value backing the share supply.
pub open spec fn spec_liquidity(m: Market) -> int {
    m.cash + m.total_borrows - m.total_reserves
}

/// Underlying per share token, in WAD.
pub open spec fn spec_exchange_rate(m: Market) -> int {
    if m.total_supply == 0 {
        m.initial_exchange_rate as int
    } else {
        spec_liquidity(m) * WAD / (m.total_supply as int)
    }
}

/// Underlying converted to share tokens at the current exchange rate.
pub open spec fn spec_underlying_to_tokens(m: Market, amount: int) -> int {
    amount * WAD / spec_exchange_rate(m)
}

/// Share tokens converted to underlying at the current exchange rate.
pub open spec fn spec_tokens_to_underlying(m: Market, tokens: int) -> int {
    spec_exchange_rate(m) * tokens / (WAD as int)
}


/// Every check `mint_initial_supply` makes passes: the market is still
/// inactive and freshly accrued, the deposit buys at least the burned
/// minimum supply, and cash, liquidity and supply stay within `u128`.
pub open spec fn mint_initial_supply_ok(m: Market, amount: u128, now: u64) -> bool {
    &&& m.state == State::Inactive
    &&& amount > 0
    &&& m.accrual_timestamp == now
    &&& spec_exchange_rate(m) != 0
    &&& spec_exchange_rate(m) <= u128::MAX
    &&& spec_underlying_to_tokens(m, amount as int) <= u128::MAX
    &&& spec_underlying_to_tokens(m, amount as int) >= MIN_INITIAL_SUPPLY
    &&& m.cash + amount <= u128::MAX
    &&& m.cash + amount + m.total_borrows <= u128::MAX
    &&& m.total_supply + spec_underlying_to_tokens(m, amount as int) <= u128::MAX
}

/// Every check `add_reserves` makes passes: the donation is positive,
/// the market freshly accrued, and cash, liquidity and revenue stay
/// within `u128`.
pub open spec fn add_reserves_ok(m: Market, amount: u128, now: u64) -> bool {
    &&& amount > 0
    &&& m.accrual_timestamp == now
    &&& m.cash + amount <= u128::MAX
    &&& m.cash + amount + m.total_borrows <= u128::MAX
    &&& m.revenue + amount <= u128::MAX
}

/// Every check `reduce_reserves` makes passes: the withdrawal is
/// positive, the market freshly accrued, and the amount is covered both
/// by revenue and by cash not earmarked for staking rewards.
pub open spec fn reduce_reserves_ok(m: Market, amount: u128, now: u64) -> bool {
    &&& amount > 0
    &&& m.accrual_timestamp == now
    &&& m.cash >= m.staking_rewards
    &&& amount <= m.cash - m.staking_rewards
    &&& amount <= m.revenue
}

/// The borrower's debt compounded to the market's current borrow index;
/// zero without a snapshot.
pub open spec fn spec_account_borrow(m: Market, account: u64) -> int {
    match m.snapshots.lookup(account, 0, 0) {
        Option::None => 0,
        Option::Some(s) => s.borrow_amount * m.borrow_index / (s.borrow_index as int),
    }
}

/// The borrows discounted to market inception, a base for rewards.
pub open spec fn spec_base_total_borrows(m: Market) -> int {
    m.total_borrows * WAD / (m.borrow_index as int)
}

impl Market {
    /// Integrity of a market: factor ranges, the reserve split identity,
    /// the supply floor of an active market, and positive borrow indexes in
    /// every snapshot.
    pub open spec fn wf(self) -> bool {
        &&& self.rate_model.wf()
        &&& self.snapshots.wf()
        &&& self.trusted_minters.wf()
        &&& self.reserve_factor <= WAD
        &&& self.stake_factor <= WAD
        &&& MIN_CLOSE_FACTOR <= self.close_factor <= WAD
        &&& self.protocol_seize_share < WAD
        &&& self.liquidation_incentive * (WAD - self.protocol_seize_share)
            >= MIN_LIQUIDATION_INCENTIVE * (WAD as int)
        &&& self.liquidation_incentive * MAX_LTV < WAD * WAD
        &&& self.borrow_index >= WAD
        &&& self.initial_exchange_rate > 0
        &&& self.accrual_time_threshold <= MAX_ACCRUAL_TIME_THRESHOLD
        &&& self.cash + self.total_borrows <= u128::MAX
        &&& self.total_reserves <= self.cash + self.total_borrows
        &&& self.revenue + self.staking_rewards == self.total_reserves
        &&& (self.state == State::Active ==> self.total_supply >= MIN_INITIAL_SUPPLY)
        &&& forall|i: int|
            0 <= i < self.snapshots.entries.len() ==> (
            #[trigger] self.snapshots.entries[i]).val.borrow_index >= WAD
    }
}

/// The borrow rate the accrual uses: the model applied to the stored
/// borrows and liquidity.
pub open spec fn accrue_rate(m: Market) -> int {
    spec_borrow_rate(m.rate_model, m.total_borrows as int, spec_liquidity(m))
}

/// Interest accumulated over `dt` seconds.
pub open spec fn accrue_delta_borrows(m: Market, dt: int) -> int {
    accrue_rate(m) * dt * m.total_borrows / (WAD as int)
}

/// The reserve slice of the accumulated interest.
pub open spec fn accrue_delta_reserves(m: Market, dt: int) -> int {
    m.reserve_factor * accrue_delta_borrows(m, dt) / (WAD as int)
}

/// The staking slice of the new reserves.
pub open spec fn accrue_delta_rewards(m: Market, dt: int) -> int {
    m.stake_factor * accrue_delta_reserves(m, dt) / (WAD as int)
}

/// The growth of the borrow index over `dt` seconds.
pub open spec fn accrue_delta_index(m: Market, dt: int) -> int {
    accrue_rate(m) * dt * m.borrow_index / (WAD as int)
}

/// Whether the accrual at `now` stays within 128 bits at every step.
pub open spec fn accrue_fits(m: Market, now: u64) -> bool {
    now == m.accrual_timestamp || {
        let dt = now - m.accrual_timestamp;
        &&& borrow_rate_fits(m.rate_model, m.total_borrows as int, spec_liquidity(m))
        &&& accrue_rate(m) * dt <= u128::MAX
        &&& m.total_borrows + accrue_delta_borrows(m, dt) <= u128::MAX
        &&& m.cash + m.total_borrows + accrue_delta_borrows(m, dt) <= u128::MAX
        &&& m.total_reserves + accrue_delta_reserves(m, dt) <= u128::MAX
        &&& m.staking_rewards + accrue_delta_rewards(m, dt) <= u128::MAX
        &&& m.historical_staking_rewards + accrue_delta_rewards(m, dt) <= u128::MAX
        &&& m.revenue + (accrue_delta_reserves(m, dt) - accrue_delta_rewards(m, dt)) <= u128::MAX
        &&& m.borrow_index + accrue_delta_index(m, dt) <= u128::MAX
    }
}

/// The market after accruing interest at `now`: a no-op at the stored
/// timestamp, otherwise interest is added to the borrows, split into
/// reserves, rewards and revenue, and the borrow index advances.
/// Meaningful under `accrue_fits`.
pub open spec fn spec_accrue(m: Market, now: u64) -> Market {
    if now == m.accrual_timestamp {
        m
    } else {
        let dt = now - m.accrual_timestamp;
        let db = accrue_delta_borrows(m, dt);
        let dr = accrue_delta_reserves(m, dt);
        let dw = accrue_delta_rewards(m, dt);
        let di = accrue_delta_index(m, dt);
        Market {
            total_borrows: (m.total_borrows + db) as u128,
            total_reserves: (m.total_reserves + dr) as u128,
            staking_rewards: (m.staking_rewards + dw) as u128,
            historical_staking_rewards: (m.historical_staking_rewards + dw) as u128,
            revenue: (m.revenue + (dr - dw)) as u128,
            borrow_index: (m.borrow_index + di) as u128,
            accrual_timestamp: now,
            ..m
        }
    }
}

/// The configuration fields that user operations never touch.
pub open spec fn same_config(a: Market, b: Market) -> bool {
    &&& a.initial_exchange_rate == b.initial_exchange_rate
    &&& a.reserve_factor == b.reserve_factor
    &&& a.stake_factor == b.stake_factor
    &&& a.close_factor == b.close_factor
    &&& a.liquidation_incentive == b.liquidation_incentive
    &&& a.protocol_seize_share == b.protocol_seize_share
    &&& a.accrual_time_threshold == b.accrual_time_threshold
    &&& a.rate_model == b.rate_model
    &&& a.trusted_minters == b.trusted_minters
}

/// The outcome of minting `amount` underlying at `now`: the share tokens
/// created and the market afterwards. Requires an active, freshly accrued
/// market, a positive deposit worth at least one share token, and steps
/// within 128 bits.
pub open spec fn spec_mint(m: Market, amount: u128, now: u64) -> (Result<u128, Error>, Market) {
    let fx = spec_exchange_rate(m);
    let tokens = spec_underlying_to_tokens(m, amount as int);
    if m.state != State::Active {
        (Err(Error::InvalidConfiguration), m)
    } else if amount == 0 {
        (Err(Error::InvalidPayment), m)
    } else if m.accrual_timestamp != now {
        (Err(Error::StaleMarket), m)
    } else if fx == 0 || fx > u128::MAX || tokens > u128::MAX {
        (Err(Error::Arithmetic), m)
    } else if tokens == 0 {
        (Err(Error::InvalidPayment), m)
    } else if m.cash + amount + m.total_borrows > u128::MAX || m.total_supply + tokens
        > u128::MAX {
        (Err(Error::Arithmetic), m)
    } else {
        (
            Ok(tokens as u128),
            Market {
                cash: (m.cash + amount) as u128,
                total_supply: (m.total_supply + tokens) as u128,
                ..m
            },
        )
    }
}

/// The outcome of redeeming `tokens` share tokens at `now`: the underlying
/// paid out and the market afterwards. The staking-rewards guard keeps the
/// payout within `cash - staking_rewards`.
pub open spec fn spec_redeem_tokens(m: Market, tokens: u128, now: u64) -> (
    Result<u128, Error>,
    Market,
) {
    let fx = spec_exchange_rate(m);
    let amount = spec_tokens_to_underlying(m, tokens as int);
    if tokens == 0 {
        (Err(Error::InvalidPayment), m)
    } else if m.accrual_timestamp != now {
        (Err(Error::StaleMarket), m)
    } else if fx > u128::MAX || amount > u128::MAX {
        (Err(Error::Arithmetic), m)
    } else if !(m.cash >= m.staking_rewards && amount <= m.cash - m.staking_rewards) {
        (Err(Error::InsufficientBalance), m)
    } else {
        (
            Ok(amount as u128),
            Market {
                cash: (m.cash - amount) as u128,
                total_supply: (m.total_supply - tokens) as u128,
                ..m
            },
        )
    }
}

/// The outcome of redeeming an exact underlying amount: the share tokens
/// burned (one more than the floor conversion) and the market afterwards;
/// the unused part of `paid_tokens` is refunded by the caller.
pub open spec fn spec_redeem_underlying(m: Market, paid_tokens: u128, amount: u128, now: u64) -> (
    Result<u128, Error>,
    Market,
) {
    let fx = spec_exchange_rate(m);
    let tokens = spec_underlying_to_tokens(m, amount as int) + 1;
    if paid_tokens == 0 || amount == 0 {
        (Err(Error::InvalidPayment), m)
    } else if m.accrual_timestamp != now {
        (Err(Error::StaleMarket), m)
    } else if fx == 0 || fx > u128::MAX || tokens > u128::MAX {
        (Err(Error::Arithmetic), m)
    } else if paid_tokens < tokens {
        (Err(Error::InsufficientBalance), m)
    } else if !(m.cash >= m.staking_rewards && amount <= m.cash - m.staking_rewards) {
        (Err(Error::InsufficientBalance), m)
    } else {
        (
            Ok(tokens as u128),
            Market {
                cash: (m.cash - amount) as u128,
                total_supply: (m.total_supply - tokens) as u128,
                ..m
            },
        )
    }
}

/// The decision part of a borrow: the borrower's new debt, or the error.
pub open spec fn spec_borrow_check(m: Market, borrower: u64, amount: u128, now: u64) -> Result<
    u128,
    Error,
> {
    let current = spec_account_borrow(m, borrower);
    if m.state != State::Active {
        Err(Error::InvalidConfiguration)
    } else if amount == 0 {
        Err(Error::InvalidPayment)
    } else if m.accrual_timestamp != now {
        Err(Error::StaleMarket)
    } else if !(m.cash >= m.staking_rewards && amount <= m.cash - m.staking_rewards) {
        Err(Error::InsufficientBalance)
    } else if current > u128::MAX || current + amount > u128::MAX {
        Err(Error::Arithmetic)
    } else {
        Ok((current + amount) as u128)
    }
}

/// The decision part of a repayment: `(repaid, refund, new_borrow)`, or
/// the error. The debt is clamped to the total borrows so the last
/// borrowers can always close their positions.
pub open spec fn spec_repay_check(m: Market, borrower: u64, payment: u128, now: u64) -> Result<
    (u128, u128, u128),
    Error,
> {
    let current0 = spec_account_borrow(m, borrower);
    let current = if current0 > m.total_borrows {
        m.total_borrows as int
    } else {
        current0
    };
    let repaid = if current >= payment {
        payment as int
    } else {
        current
    };
    if payment == 0 {
        Err(Error::InvalidPayment)
    } else if m.accrual_timestamp != now {
        Err(Error::StaleMarket)
    } else if current0 > u128::MAX {
        Err(Error::Arithmetic)
    } else {
        Ok((repaid as u128, (payment - repaid) as u128, (current - repaid) as u128))
    }
}

/// The decision part of a seize on the collateral market: the share
/// tokens for the liquidator, those redeemed for the protocol, and the
/// underlying value added to the reserves.
pub open spec fn spec_seize_check(m: Market, tokens: u128, now: u64) -> Result<
    (u128, u128, u128),
    Error,
> {
    let protocol_tokens = m.protocol_seize_share * tokens / (WAD as int);
    let fx = spec_exchange_rate(m);
    let delta_reserves = spec_tokens_to_underlying(m, protocol_tokens);
    let delta_rewards = m.stake_factor * delta_reserves / (WAD as int);
    if tokens == 0 {
        Err(Error::InvalidPayment)
    } else if m.accrual_timestamp != now {
        Err(Error::StaleMarket)
    } else if fx > u128::MAX || m.historical_staking_rewards + delta_rewards > u128::MAX {
        Err(Error::Arithmetic)
    } else {
        Ok(((tokens - protocol_tokens) as u128, protocol_tokens as u128, delta_reserves as u128))
    }
}

/// Redeeming up to the whole share supply never pays out more than the
/// liquidity backing it.
proof fn lemma_conversion_bounded(m: Market, tokens: int)
    requires
        m.wf(),
        0 < m.total_supply,
        0 <= tokens <= m.total_supply,
        spec_exchange_rate(m) <= u128::MAX,
    ensures
        spec_tokens_to_underlying(m, tokens) <= spec_liquidity(m),
{
    let liq = spec_liquidity(m);
    let supply = m.total_supply as int;
    let fx = spec_exchange_rate(m);
    vstd::arithmetic::div_mod::lemma_fundamental_div_mod(liq * WAD, supply);
    vstd::arithmetic::div_mod::lemma_mod_division_less_than_divisor(liq * WAD, supply);
    vstd::arithmetic::div_mod::lemma_div_pos_is_pos(liq * WAD, supply);
    assert(fx * supply <= liq * WAD) by (nonlinear_arith)
        requires
            fx == liq * WAD / supply && liq * WAD == supply * (liq * WAD / supply) + (liq * WAD)
                % supply && (liq * WAD) % supply >= 0,
    ;
    assert(fx * tokens <= liq * WAD) by (nonlinear_arith)
        requires
            fx * supply <= liq * WAD && 0 <= tokens <= supply && fx >= 0,
    ;
    vstd::arithmetic::div_mod::lemma_div_is_ordered(fx * tokens, liq * WAD, WAD as int);
    vstd::arithmetic::div_mod::lemma_div_multiples_vanish(liq, WAD as int);
    assert(liq * WAD == (WAD as int) * liq) by (nonlinear_arith);
}

/// The base interface of a money market: accrual and the conversions
/// between underlying and share tokens.
pub trait MoneyMarket {
    /// The market state this instance works on.
    spec fn market(&self) -> Market;

    /// Accrues interest up to `now`; a no-op when no time has passed, and
    /// an untouched state with an arithmetic error when a step would not
    /// fit in 128 bits.
    fn accrue_interest(&mut self, now: u64) -> (r: Result<(), Error>)
        requires
            old(self).market().wf(),
            now >= old(self).market().accrual_timestamp,
        ensures
            final(self).market().wf(),
            match r {
                Ok(()) => accrue_fits(old(self).market(), now) && final(self).market()
                    == spec_accrue(old(self).market(), now),
                Err(e) => e == Error::Arithmetic && final(self).market() == old(self).market()
                    && !accrue_fits(old(self).market(), now),
            },
    ;

    /// Accrues only when at least the accrual time threshold has elapsed.
    fn try_accrue_interest(&mut self, now: u64) -> (r: Result<(), Error>)
        requires
            old(self).market().wf(),
            now >= old(self).market().accrual_timestamp,
        ensures
            final(self).market().wf(),
            now - old(self).market().accrual_timestamp < old(self).market().accrual_time_threshold ==> r == Ok::<(), Error>(()) && final(self).market()
                == old(self).market(),
            now - old(self).market().accrual_timestamp >= old(self).market().accrual_time_threshold ==> match r {
                Ok(()) => accrue_fits(old(self).market(), now) && final(self).market()
                    == spec_accrue(old(self).market(), now),
                Err(e) => e == Error::Arithmetic && final(self).market() == old(self).market()
                    && !accrue_fits(old(self).market(), now),
            },
    ;

    /// The stored liquidity `cash + total_borrows - total_reserves`.
    fn get_liquidity(&self) -> (r: u128)
        requires
            self.market().wf(),
        ensures
            r == spec_liquidity(self.market()),
    ;

    /// The stored exchange rate between underlying and share tokens.
    fn get_stored_exchange_rate(&self) -> (r: Result<u128, Error>)
        requires
            self.market().wf(),
        ensures
            match r {
                Ok(v) => v == spec_exchange_rate(self.market()),
                Err(e) => e == Error::Arithmetic && spec_exchange_rate(self.market()) > u128::MAX,
            },
    ;

    /// Converts an underlying amount to share tokens at the stored
    /// exchange rate.
    fn underlying_amount_to_tokens(&self, amount: u128) -> (r: Result<u128, Error>)
        requires
            self.market().wf(),
        ensures
            match r {
                Ok(v) => v == spec_underlying_to_tokens(self.market(), amount as int)
                    && spec_exchange_rate(self.market()) != 0 && spec_exchange_rate(self.market())
                    <= u128::MAX && v <= u128::MAX,
                Err(e) => e == Error::Arithmetic && (spec_exchange_rate(self.market()) == 0
                    || spec_exchange_rate(self.market()) > u128::MAX || spec_underlying_to_tokens(
                    self.market(),
                    amount as int,
                ) > u128::MAX),
            },
    ;

    /// Converts share tokens to an underlying amount at the stored
    /// exchange rate.
    fn tokens_to_underlying_amount(&self, tokens: u128) -> (r: Result<u128, Error>)
        requires
            self.market().wf(),
        ensures
            match r {
                Ok(v) => v == spec_tokens_to_underlying(self.market(), tokens as int)
                    && spec_exchange_rate(self.market()) <= u128::MAX,
                Err(e) => e == Error::Arithmetic && (spec_exchange_rate(self.market()) > u128::MAX
                    || spec_tokens_to_underlying(self.market(), tokens as int) > u128::MAX),
            },
    ;

    /// The borrower's debt at the stored borrow index.
    fn stored_account_borrow_amount(&self, account: u64) -> (r: Result<u128, Error>)
        requires
            self.market().wf(),
        ensures
            match r {
                Ok(v) => v == spec_account_borrow(self.market(), account),
                Err(e) => e == Error::Arithmetic && spec_account_borrow(self.market(), account)
                    > u128::MAX,
            },
    ;

    /// The borrower's debt and the exchange rate in one shot, as consumed
    /// by the controller's risk simulation.
    fn get_account_snapshot(&self, account: u64) -> (r: Result<(u128, u128), Error>)
        requires
            self.market().wf(),
        ensures
            match r {
                Ok(v) => v.0 == spec_account_borrow(self.market(), account) && v.1
                    == spec_exchange_rate(self.market()),
                Err(e) => e == Error::Arithmetic,
            },
    ;

    /// The total borrows discounted to market inception.
    fn get_base_total_borrows(&self) -> (r: Result<u128, Error>)
        requires
            self.market().wf(),
        ensures
            match r {
                Ok(v) => v == spec_base_total_borrows(self.market()),
                Err(e) => e == Error::Arithmetic && spec_base_total_borrows(self.market())
                    > u128::MAX,
            },
    ;
}

impl Market {
    /// Creates a market in the inactive state with a one-WAD borrow index
    /// and conservative default risk parameters.
    pub fn new(initial_exchange_rate: u128, rate_model: RateModel, now: u64) -> (r: Result<
        Market,
        Error,
    >)
        requires
            rate_model.wf(),
        ensures
            match r {
                Ok(m) => {
                    &&& m.wf()
                    &&& m.state == State::Inactive
                    &&& m.cash == 0
                    &&& m.total_borrows == 0
                    &&& m.total_reserves == 0
                    &&& m.total_supply == 0
                    &&& m.borrow_index == WAD
                    &&& m.accrual_timestamp == now
                    &&& m.initial_exchange_rate == initial_exchange_rate
                    &&& m.rate_model == rate_model
                    &&& m.close_factor == MIN_CLOSE_FACTOR
                    &&& m.liquidation_incentive == MIN_LIQUIDATION_INCENTIVE
                    &&& m.protocol_seize_share == 0
                },
                Err(e) => e == Error::InvalidConfiguration && initial_exchange_rate == 0,
            },
    {
        if initial_exchange_rate == 0 {
            return Err(Error::InvalidConfiguration);
        }
        let m = Market {
            state: State::Inactive,
            cash: 0,
            total_borrows: 0,
            total_reserves: 0,
            staking_rewards: 0,
            historical_staking_rewards: 0,
            revenue: 0,
            total_supply: 0,
            borrow_index: WAD,
            accrual_timestamp: now,
            initial_exchange_rate,
            reserve_factor: 0,
            stake_factor: 0,
            close_factor: MIN_CLOSE_FACTOR,
            liquidation_incentive: MIN_LIQUIDATION_INCENTIVE,
            protocol_seize_share: 0,
            accrual_time_threshold: 0,
            rate_model,
            snapshots: Table::new(),
            trusted_minters: Table::new(),
        };
        proof {
            assert(m.liquidation_incentive * (WAD - m.protocol_seize_share)
                >= MIN_LIQUIDATION_INCENTIVE * (WAD as int));
            assert(m.liquidation_incentive * MAX_LTV < WAD * WAD);
        }
        Ok(m)
    }
}

impl MoneyMarket for Market {
    open spec fn market(&self) -> Market {
        *self
    }

    fn accrue_interest(&mut self, now: u64) -> (r: Result<(), Error>) {
        if now == self.accrual_timestamp {
            return Ok(());
        }
        let dt: u64 = now - self.accrual_timestamp;
        let liquidity = self.cash + self.total_borrows - self.total_reserves;
        let rate = match self.rate_model.get_borrow_rate(self.total_borrows, liquidity) {
            Err(e) => { return Err(e) },
            Ok(v) => v,
        };
        let rate_dt = match rate.checked_mul(dt as u128) {
            None => { return Err(Error::Arithmetic) },
            Some(v) => v,
        };
        let delta_borrows = match mul_div_floor(rate_dt, self.total_borrows, WAD) {
            None => { return Err(Error::Arithmetic) },
            Some(v) => v,
        };
        proof {
            assert(rate_dt * self.total_borrows == accrue_rate(*self) * (dt as int)
                * self.total_borrows) by (nonlinear_arith)
                requires
                    rate_dt == accrue_rate(*self) * (dt as int),
            ;
        }
        let new_borrows = match self.total_borrows.checked_add(delta_borrows) {
            None => { return Err(Error::Arithmetic) },
            Some(v) => v,
        };
        if self.cash > u128::MAX - new_borrows {
            return Err(Error::Arithmetic);
        }
        let delta_reserves = match mul_div_floor(self.reserve_factor, delta_borrows, WAD) {
            None => { return Err(Error::Arithmetic) },
            Some(v) => v,
        };
        let new_reserves = match self.total_reserves.checked_add(delta_reserves) {
            None => { return Err(Error::Arithmetic) },
            Some(v) => v,
        };
        let delta_rewards = match mul_div_floor(self.stake_factor, delta_reserves, WAD) {
            None => { return Err(Error::Arithmetic) },
            Some(v) => v,
        };
        proof {
            crate::math::lemma_scale_down(delta_borrows as int, self.reserve_factor as int);
            crate::math::lemma_scale_down(delta_reserves as int, self.stake_factor as int);
        }
        let new_rewards = match self.staking_rewards.checked_add(delta_rewards) {
            None => { return Err(Error::Arithmetic) },
            Some(v) => v,
        };
        let new_historical = match self.historical_staking_rewards.checked_add(delta_rewards) {
            None => { return Err(Error::Arithmetic) },
            Some(v) => v,
        };
        let new_revenue = match self.revenue.checked_add(delta_reserves - delta_rewards) {
            None => { return Err(Error::Arithmetic) },
            Some(v) => v,
        };
        let delta_index = match mul_div_floor(rate_dt, self.borrow_index, WAD) {
            None => { return Err(Error::Arithmetic) },
            Some(v) => v,
        };
        proof {
            assert(rate_dt * self.borrow_index == accrue_rate(*self) * (dt as int)
                * self.borrow_index) by (nonlinear_arith)
                requires
                    rate_dt == accrue_rate(*self) * (dt as int),
            ;
        }
        let new_index = match self.borrow_index.checked_add(delta_index) {
            None => { return Err(Error::Arithmetic) },
            Some(v) => v,
        };
        self.total_borrows = new_borrows;
        self.total_reserves = new_reserves;
        self.staking_rewards = new_rewards;
        self.historical_staking_rewards = new_historical;
        self.revenue = new_revenue;
        self.borrow_index = new_index;
        self.accrual_timestamp = now;
        Ok(())
    }

    fn try_accrue_interest(&mut self, now: u64) -> (r: Result<(), Error>) {
        if now - self.accrual_timestamp >= self.accrual_time_threshold {
            self.accrue_interest(now)
        } else {
            Ok(())
        }
    }

    fn get_liquidity(&self) -> (r: u128) {
        self.cash + self.total_borrows - self.total_reserves
    }

    fn get_stored_exchange_rate(&self) -> (r: Result<u128, Error>) {
        if self.total_supply == 0 {
            return Ok(self.initial_exchange_rate);
        }
        let liquidity = self.cash + self.total_borrows - self.total_reserves;
        match mul_div_floor(liquidity, WAD, self.total_supply) {
            None => Err(Error::Arithmetic),
            Some(v) => Ok(v),
        }
    }

    fn underlying_amount_to_tokens(&self, amount: u128) -> (r: Result<u128, Error>) {
        let fx = self.get_stored_exchange_rate()?;
        match mul_div_floor(amount, WAD, fx) {
            None => Err(Error::Arithmetic),
            Some(v) => Ok(v),
        }
    }

    fn tokens_to_underlying_amount(&self, tokens: u128) -> (r: Result<u128, Error>) {
        let fx = self.get_stored_exchange_rate()?;
        match mul_div_floor(fx, tokens, WAD) {
            None => Err(Error::Arithmetic),
            Some(v) => Ok(v),
        }
    }

    fn stored_account_borrow_amount(&self, account: u64) -> (r: Result<u128, Error>) {
        match self.snapshots.get(account, 0, 0) {
            None => Ok(0),
            Some(s) => {
                proof {
                    let i = self.snapshots.index_of(account, 0, 0);
                    assert(self.snapshots.entries[i].val.borrow_index >= WAD);
                }
                match mul_div_floor(s.borrow_amount, self.borrow_index, s.borrow_index) {
                    None => Err(Error::Arithmetic),
                    Some(v) => Ok(v),
                }
            },
        }
    }

    fn get_account_snapshot(&self, account: u64) -> (r: Result<(u128, u128), Error>) {
        let borrow_amount = self.stored_account_borrow_amount(account)?;
        let fx = self.get_stored_exchange_rate()?;
        Ok((borrow_amount, fx))
    }

    fn get_base_total_borrows(&self) -> (r: Result<u128, Error>) {
        match mul_div_floor(self.total_borrows, WAD, self.borrow_index) {
            None => Err(Error::Arithmetic),
            Some(v) => Ok(v),
        }
    }
}

/// Supplying underlying for share tokens.
pub trait MintModule: MoneyMarket {
    /// Deposits `amount` underlying and mints share tokens at the current
    /// exchange rate. The market must be active and freshly accrued; the
    /// controller's mint policy is checked by the protocol entry point.
    fn mint(&mut self, amount: u128, now: u64) -> (r: Result<u128, Error>)
        requires
            old(self).market().wf(),
        ensures
            final(self).market().wf(),
            r == spec_mint(old(self).market(), amount, now).0,
            final(self).market() == spec_mint(old(self).market(), amount, now).1,
    ;
}

/// Redeeming share tokens for underlying.
pub trait RedeemModule: MoneyMarket {
    /// Burns `tokens` share tokens for their underlying value. The burned
    /// tokens were circulating, so they stay below the supply floor.
    fn redeem_tokens(&mut self, tokens: u128, now: u64) -> (r: Result<u128, Error>)
        requires
            old(self).market().wf(),
            tokens <= old(self).market().total_supply - MIN_INITIAL_SUPPLY,
        ensures
            final(self).market().wf(),
            r == spec_redeem_tokens(old(self).market(), tokens, now).0,
            final(self).market() == spec_redeem_tokens(old(self).market(), tokens, now).1,
    ;

    /// Burns just enough of `paid_tokens` to pay out exactly `amount`
    /// underlying; the rest of the payment is refunded by the caller.
    fn redeem_underlying_amount(&mut self, paid_tokens: u128, amount: u128, now: u64) -> (r:
        Result<u128, Error>)
        requires
            old(self).market().wf(),
            paid_tokens <= old(self).market().total_supply - MIN_INITIAL_SUPPLY,
        ensures
            final(self).market().wf(),
            r == spec_redeem_underlying(old(self).market(), paid_tokens, amount, now).0,
            final(self).market() == spec_redeem_underlying(
                old(self).market(),
                paid_tokens,
                amount,
                now,
            ).1,
    ;
}

/// Drawing underlying against collateral.
pub trait BorrowModule: MoneyMarket {
    /// Lends `amount` underlying to `borrower`, compounding any previous
    /// debt to the current borrow index first. The controller's borrow
    /// policy is checked by the protocol entry point.
    fn borrow(&mut self, borrower: u64, amount: u128, now: u64) -> (r: Result<u128, Error>)
        requires
            old(self).market().wf(),
        ensures
            final(self).market().wf(),
            r == spec_borrow_check(old(self).market(), borrower, amount, now),
            match r {
                Ok(new_borrow) => {
                    &&& final(self).market().snapshots.lookup(borrower, 0, 0) == Some(
                        AccountSnapshot {
                            borrow_amount: new_borrow,
                            borrow_index: old(self).market().borrow_index,
                        },
                    )
                    &&& forall|a: u64|
                        a != borrower ==> #[trigger] final(self).market().snapshots.lookup(a, 0, 0)
                            == old(self).market().snapshots.lookup(a, 0, 0)
                    &&& final(self).market().cash == old(self).market().cash - amount
                    &&& final(self).market().total_borrows == old(self).market().total_borrows
                        + amount
                    &&& final(self).market().total_reserves == old(self).market().total_reserves
                    &&& final(self).market().staking_rewards == old(self).market().staking_rewards
                    &&& final(self).market().revenue == old(self).market().revenue
                    &&& final(self).market().total_supply == old(self).market().total_supply
                    &&& final(self).market().borrow_index == old(self).market().borrow_index
                    &&& final(self).market().accrual_timestamp == old(self).market().accrual_timestamp
                    &&& final(self).market().state == old(self).market().state
                    &&& same_config(old(self).market(), final(self).market())
                },
                Err(_) => final(self).market() == old(self).market(),
            },
    ;
}

/// Paying debts back.
pub trait RepayBorrowModule: MoneyMarket {
    /// Repays up to `payment` of the borrower's debt and reports
    /// `(repaid, refund, new_borrow)`; any excess payment is refunded by
    /// the caller.
    fn repay_borrow(&mut self, borrower: u64, payment: u128, now: u64) -> (r: Result<
        (u128, u128, u128),
        Error,
    >)
        requires
            old(self).market().wf(),
        ensures
            final(self).market().wf(),
            r == spec_repay_check(old(self).market(), borrower, payment, now),
            match r {
                Ok(out) => {
                    &&& final(self).market().snapshots.lookup(borrower, 0, 0) == Some(
                        AccountSnapshot {
                            borrow_amount: out.2,
                            borrow_index: old(self).market().borrow_index,
                        },
                    )
                    &&& forall|a: u64|
                        a != borrower ==> #[trigger] final(self).market().snapshots.lookup(a, 0, 0)
                            == old(self).market().snapshots.lookup(a, 0, 0)
                    &&& final(self).market().cash == old(self).market().cash + out.0
                    &&& final(self).market().total_borrows == old(self).market().total_borrows
                        - out.0
                    &&& final(self).market().total_reserves == old(self).market().total_reserves
                    &&& final(self).market().staking_rewards == old(self).market().staking_rewards
                    &&& final(self).market().revenue == old(self).market().revenue
                    &&& final(self).market().total_supply == old(self).market().total_supply
                    &&& final(self).market().borrow_index == old(self).market().borrow_index
                    &&& final(self).market().accrual_timestamp == old(self).market().accrual_timestamp
                    &&& final(self).market().state == old(self).market().state
                    &&& same_config(old(self).market(), final(self).market())
                },
                Err(_) => final(self).market() == old(self).market(),
            },
    ;
}

/// Handing seized collateral to a liquidator, with the protocol's share
/// redeemed into the reserves.
pub trait SeizeModule: MoneyMarket {
    /// Splits `tokens` seized share tokens between the liquidator and the
    /// protocol; the protocol's slice is burned and its underlying value
    /// booked into reserves with the stake split applied. The collateral
    /// bookkeeping itself lives at the controller.
    fn seize(&mut self, tokens: u128, now: u64) -> (r: Result<(u128, u128, u128), Error>)
        requires
            old(self).market().wf(),
            tokens <= old(self).market().total_supply - MIN_INITIAL_SUPPLY,
        ensures
            final(self).market().wf(),
            r == spec_seize_check(old(self).market(), tokens, now),
            match r {
                Ok(out) => {
                    let m0 = old(self).market();
                    let dr = out.2 as int;
                    let dw = m0.stake_factor * dr / (WAD as int);
                    {
                        &&& out.0 + out.1 == tokens
                        &&& final(self).market().total_supply == m0.total_supply - out.1
                        &&& final(self).market().total_reserves == m0.total_reserves + dr
                        &&& final(self).market().staking_rewards == m0.staking_rewards + dw
                        &&& final(self).market().historical_staking_rewards
                            == m0.historical_staking_rewards + dw
                        &&& final(self).market().revenue == m0.revenue + (dr - dw)
                        &&& final(self).market().cash == m0.cash
                        &&& final(self).market().total_borrows == m0.total_borrows
                        &&& final(self).market().borrow_index == m0.borrow_index
                        &&& final(self).market().accrual_timestamp == m0.accrual_timestamp
                        &&& final(self).market().state == m0.state
                        &&& final(self).market().snapshots == m0.snapshots
                        &&& same_config(m0, final(self).market())
                    }
                },
                Err(_) => final(self).market() == old(self).market(),
            },
    ;
}

/// Routing accumulated staking rewards out of the reserves.
pub trait StakingModule: MoneyMarket {
    /// Pays all accumulated staking rewards out of cash and reserves,
    /// returning the amount handed to the staking contract.
    fn claim_staking_rewards(&mut self, now: u64) -> (r: Result<u128, Error>)
        requires
            old(self).market().wf(),
        ensures
            final(self).market().wf(),
            match r {
                Ok(paid) => {
                    &&& old(self).market().accrual_timestamp == now
                    &&& paid == old(self).market().staking_rewards
                    &&& (paid > 0 ==> paid <= old(self).market().cash)
                    &&& final(self).market().staking_rewards == 0
                    &&& final(self).market().total_reserves == old(self).market().total_reserves
                        - paid
                    &&& final(self).market().cash == old(self).market().cash - paid
                    &&& final(self).market().revenue == old(self).market().revenue
                    &&& final(self).market().total_borrows == old(self).market().total_borrows
                    &&& final(self).market().total_supply == old(self).market().total_supply
                    &&& final(self).market().borrow_index == old(self).market().borrow_index
                    &&& final(self).market().snapshots == old(self).market().snapshots
                    &&& same_config(old(self).market(), final(self).market())
                },
                Err(e) => final(self).market() == old(self).market() && (e == Error::StaleMarket
                    && old(self).market().accrual_timestamp != now || e
                    == Error::InsufficientBalance && old(self).market().staking_rewards > old(self).market().cash),
            },
    ;
}

impl MintModule for Market {
    fn mint(&mut self, amount: u128, now: u64) -> (r: Result<u128, Error>) {
        if !matches!(self.state, State::Active) {
            return Err(Error::InvalidConfiguration);
        }
        if amount == 0 {
            return Err(Error::InvalidPayment);
        }
        if self.accrual_timestamp != now {
            return Err(Error::StaleMarket);
        }
        let tokens = match self.underlying_amount_to_tokens(amount) {
            Err(e) => { return Err(e) },
            Ok(v) => v,
        };
        if tokens == 0 {
            return Err(Error::InvalidPayment);
        }
        if self.cash > u128::MAX - amount || self.cash + amount > u128::MAX - self.total_borrows {
            return Err(Error::Arithmetic);
        }
        let new_supply = match self.total_supply.checked_add(tokens) {
            None => { return Err(Error::Arithmetic) },
            Some(v) => v,
        };
        self.cash = self.cash + amount;
        self.total_supply = new_supply;
        Ok(tokens)
    }
}

impl RedeemModule for Market {
    fn redeem_tokens(&mut self, tokens: u128, now: u64) -> (r: Result<u128, Error>) {
        if tokens == 0 {
            return Err(Error::InvalidPayment);
        }
        if self.accrual_timestamp != now {
            return Err(Error::StaleMarket);
        }
        let amount = match self.tokens_to_underlying_amount(tokens) {
            Err(e) => { return Err(e) },
            Ok(v) => v,
        };
        if !(self.cash >= self.staking_rewards && amount <= self.cash - self.staking_rewards) {
            return Err(Error::InsufficientBalance);
        }
        proof {
            lemma_conversion_bounded(*self, tokens as int);
        }
        self.cash = self.cash - amount;
        self.total_supply = self.total_supply - tokens;
        Ok(amount)
    }

    fn redeem_underlying_amount(&mut self, paid_tokens: u128, amount: u128, now: u64) -> (r:
        Result<u128, Error>) {
        if paid_tokens == 0 || amount == 0 {
            return Err(Error::InvalidPayment);
        }
        if self.accrual_timestamp != now {
            return Err(Error::StaleMarket);
        }
        let base_tokens = match self.underlying_amount_to_tokens(amount) {
            Err(e) => { return Err(e) },
            Ok(v) => v,
        };
        let tokens = match base_tokens.checked_add(1) {
            None => { return Err(Error::Arithmetic) },
            Some(v) => v,
        };
        if paid_tokens < tokens {
            return Err(Error::InsufficientBalance);
        }
        if !(self.cash >= self.staking_rewards && amount <= self.cash - self.staking_rewards) {
            return Err(Error::InsufficientBalance);
        }
        proof {
            lemma_under_redeem_bounded(*self, amount as int, tokens as int);
        }
        self.cash = self.cash - amount;
        self.total_supply = self.total_supply - tokens;
        Ok(tokens)
    }
}

impl BorrowModule for Market {
    fn borrow(&mut self, borrower: u64, amount: u128, now: u64) -> (r: Result<u128, Error>) {
        if !matches!(self.state, State::Active) {
            return Err(Error::InvalidConfiguration);
        }
        if amount == 0 {
            return Err(Error::InvalidPayment);
        }
        if self.accrual_timestamp != now {
            return Err(Error::StaleMarket);
        }
        if !(self.cash >= self.staking_rewards && amount <= self.cash - self.staking_rewards) {
            return Err(Error::InsufficientBalance);
        }
        let current = match self.stored_account_borrow_amount(borrower) {
            Err(e) => { return Err(e) },
            Ok(v) => v,
        };
        let new_borrow = match current.checked_add(amount) {
            None => { return Err(Error::Arithmetic) },
            Some(v) => v,
        };
        let index = self.borrow_index;
        self.snapshots.set(
            borrower,
            0,
            0,
            AccountSnapshot { borrow_amount: new_borrow, borrow_index: index },
        );
        self.cash = self.cash - amount;
        self.total_borrows = self.total_borrows + amount;
        proof {
            assert forall|i: int| 0 <= i < self.snapshots.entries.len() implies (
            #[trigger] self.snapshots.entries[i]).val.borrow_index >= WAD by {
                lemma_snapshot_entries_bounded(*old(self), *self, borrower, new_borrow, index, i);
            }
        }
        Ok(new_borrow)
    }
}

impl RepayBorrowModule for Market {
    fn repay_borrow(&mut self, borrower: u64, payment: u128, now: u64) -> (r: Result<
        (u128, u128, u128),
        Error,
    >) {
        if payment == 0 {
            return Err(Error::InvalidPayment);
        }
        if self.accrual_timestamp != now {
            return Err(Error::StaleMarket);
        }
        let current0 = match self.stored_account_borrow_amount(borrower) {
            Err(e) => { return Err(e) },
            Ok(v) => v,
        };
        let current = if current0 > self.total_borrows {
            self.total_borrows
        } else {
            current0
        };
        let repaid = if current >= payment {
            payment
        } else {
            current
        };
        let refund = payment - repaid;
        let new_borrow = current - repaid;
        let index = self.borrow_index;
        self.snapshots.set(
            borrower,
            0,
            0,
            AccountSnapshot { borrow_amount: new_borrow, borrow_index: index },
        );
        self.total_borrows = self.total_borrows - repaid;
        self.cash = self.cash + repaid;
        proof {
            assert forall|i: int| 0 <= i < self.snapshots.entries.len() implies (
            #[trigger] self.snapshots.entries[i]).val.borrow_index >= WAD by {
                lemma_snapshot_entries_bounded(*old(self), *self, borrower, new_borrow, index, i);
            }
        }
        Ok((repaid, refund, new_borrow))
    }
}

impl SeizeModule for Market {
    fn seize(&mut self, tokens: u128, now: u64) -> (r: Result<(u128, u128, u128), Error>) {
        if tokens == 0 {
            return Err(Error::InvalidPayment);
        }
        if self.accrual_timestamp != now {
            return Err(Error::StaleMarket);
        }
        proof {
            crate::math::lemma_scale_down(tokens as int, self.protocol_seize_share as int);
        }
        let protocol_tokens = match mul_div_floor(self.protocol_seize_share, tokens, WAD) {
            None => { return Err(Error::Arithmetic) },
            Some(v) => v,
        };
        let liquidator_tokens = tokens - protocol_tokens;
        let delta_reserves = match self.tokens_to_underlying_amount(protocol_tokens) {
            Err(e) => {
                proof {
                    if spec_exchange_rate(*self) <= u128::MAX {
                        lemma_conversion_bounded(*self, protocol_tokens as int);
                    }
                }
                return Err(e);
            },
            Ok(v) => v,
        };
        proof {
            lemma_conversion_bounded(*self, protocol_tokens as int);
        }
        proof {
            crate::math::lemma_scale_down(delta_reserves as int, self.stake_factor as int);
        }
        let delta_rewards = match mul_div_floor(self.stake_factor, delta_reserves, WAD) {
            None => { return Err(Error::Arithmetic) },
            Some(v) => v,
        };
        let new_historical = match self.historical_staking_rewards.checked_add(delta_rewards) {
            None => { return Err(Error::Arithmetic) },
            Some(v) => v,
        };
        self.total_reserves = self.total_reserves + delta_reserves;
        self.staking_rewards = self.staking_rewards + delta_rewards;
        self.historical_staking_rewards = new_historical;
        self.revenue = self.revenue + (delta_reserves - delta_rewards);
        self.total_supply = self.total_supply - protocol_tokens;
        Ok((liquidator_tokens, protocol_tokens, delta_reserves))
    }
}

impl StakingModule for Market {
    fn claim_staking_rewards(&mut self, now: u64) -> (r: Result<u128, Error>) {
        if self.accrual_timestamp != now {
            return Err(Error::StaleMarket);
        }
        let rewards = self.staking_rewards;
        if rewards == 0 {
            return Ok(0);
        }
        if rewards > self.cash {
            return Err(Error::InsufficientBalance);
        }
        self.total_reserves = self.total_reserves - rewards;
        self.staking_rewards = 0;
        self.cash = self.cash - rewards;
        Ok(rewards)
    }
}

impl Market {
    /// Deposits the first underlying, mints the first share tokens and
    /// activates the market; the supply-floor tokens are burned on chain
    /// but stay counted in the total supply, so the supply of an active
    /// market can never fall below the floor. Returns the share tokens
    /// handed back to the administrator.
    pub fn mint_initial_supply(&mut self, amount: u128, now: u64) -> (r: Result<u128, Error>)
        requires
            old(self).market().wf(),
        ensures
            final(self).market().wf(),
            match r {
                Ok(tokens_left) => {
                    let m0 = old(self).market();
                    let tokens = spec_underlying_to_tokens(m0, amount as int);
                    {
                        &&& m0.state == State::Inactive
                        &&& m0.accrual_timestamp == now
                        &&& amount > 0
                        &&& tokens >= MIN_INITIAL_SUPPLY
                        &&& tokens_left == tokens - MIN_INITIAL_SUPPLY
                        &&& final(self).market() == (Market {
                            state: State::Active,
                            cash: (m0.cash + amount) as u128,
                            total_supply: (m0.total_supply + tokens) as u128,
                            ..m0
                        })
                    }
                },
                Err(_) => final(self).market() == old(self).market() && !mint_initial_supply_ok(
                    old(self).market(),
                    amount,
                    now,
                ),
            },
    {
        if !matches!(self.state, State::Inactive) {
            return Err(Error::InvalidConfiguration);
        }
        if amount == 0 {
            return Err(Error::InvalidPayment);
        }
        if self.accrual_timestamp != now {
            return Err(Error::StaleMarket);
        }
        let tokens = match self.underlying_amount_to_tokens(amount) {
            Err(e) => { return Err(e) },
            Ok(v) => v,
        };
        if tokens < MIN_INITIAL_SUPPLY {
            return Err(Error::InvalidPayment);
        }
        if self.cash > u128::MAX - amount || self.cash + amount > u128::MAX - self.total_borrows {
            return Err(Error::Arithmetic);
        }
        let new_supply = match self.total_supply.checked_add(tokens) {
            None => { return Err(Error::Arithmetic) },
            Some(v) => v,
        };
        self.cash = self.cash + amount;
        self.total_supply = new_supply;
        self.state = State::Active;
        Ok(tokens - MIN_INITIAL_SUPPLY)
    }

    /// Donates underlying to the reserves as protocol revenue; the
    /// exchange rate is unchanged because cash and reserves rise together.
    pub fn add_reserves(&mut self, amount: u128, now: u64) -> (r: Result<(), Error>)
        requires
            old(self).market().wf(),
        ensures
            final(self).market().wf(),
            match r {
                Ok(()) => {
                    &&& amount > 0
                    &&& old(self).market().accrual_timestamp == now
                    &&& final(self).market() == (Market {
                        cash: (old(self).market().cash + amount) as u128,
                        total_reserves: (old(self).market().total_reserves + amount) as u128,
                        revenue: (old(self).market().revenue + amount) as u128,
                        ..old(self).market()
                    })
                    &&& spec_exchange_rate(final(self).market()) == spec_exchange_rate(
                        old(self).market(),
                    )
                },
                Err(e) => final(self).market() == old(self).market() && !add_reserves_ok(
                    old(self).market(),
                    amount,
                    now,
                ),
            },
    {
        if amount == 0 {
            return Err(Error::InvalidPayment);
        }
        if self.accrual_timestamp != now {
            return Err(Error::StaleMarket);
        }
        if self.cash > u128::MAX - amount || self.cash + amount > u128::MAX - self.total_borrows {
            return Err(Error::Arithmetic);
        }
        let new_revenue = match self.revenue.checked_add(amount) {
            None => { return Err(Error::Arithmetic) },
            Some(v) => v,
        };
        self.cash = self.cash + amount;
        self.total_reserves = self.total_reserves + amount;
        self.revenue = new_revenue;
        Ok(())
    }

    /// Withdraws revenue-backed reserves to the administrator.
    pub fn reduce_reserves(&mut self, amount: u128, now: u64) -> (r: Result<(), Error>)
        requires
            old(self).market().wf(),
        ensures
            final(self).market().wf(),
            match r {
                Ok(()) => {
                    &&& amount > 0
                    &&& old(self).market().accrual_timestamp == now
                    &&& amount <= old(self).market().revenue
                    &&& amount <= old(self).market().cash - old(self).market().staking_rewards
                    &&& final(self).market() == (Market {
                        cash: (old(self).market().cash - amount) as u128,
                        total_reserves: (old(self).market().total_reserves - amount) as u128,
                        revenue: (old(self).market().revenue - amount) as u128,
                        ..old(self).market()
                    })
                },
                Err(e) => final(self).market() == old(self).market() && !reduce_reserves_ok(
                    old(self).market(),
                    amount,
                    now,
                ),
            },
    {
        if amount == 0 {
            return Err(Error::InvalidPayment);
        }
        if self.accrual_timestamp != now {
            return Err(Error::StaleMarket);
        }
        if !(self.cash >= self.staking_rewards && amount <= self.cash - self.staking_rewards) {
            return Err(Error::InsufficientBalance);
        }
        if amount > self.revenue {
            return Err(Error::InsufficientBalance);
        }
        self.cash = self.cash - amount;
        self.total_reserves = self.total_reserves - amount;
        self.revenue = self.revenue - amount;
        Ok(())
    }

    /// Sets the fraction of interest routed to the reserves.
    pub fn set_reserve_factor(&mut self, factor: u128, now: u64) -> (r: Result<(), Error>)
        requires
            old(self).market().wf(),
        ensures
            final(self).market().wf(),
            match r {
                Ok(()) => factor <= WAD && old(self).market().accrual_timestamp == now && final(self).market() == (Market { reserve_factor: factor, ..old(self).market() }),
                Err(e) => final(self).market() == old(self).market() && (e
                    == Error::InvalidConfiguration && factor > WAD || e == Error::StaleMarket
                    && factor <= WAD && old(self).market().accrual_timestamp != now),
            },
    {
        if factor > WAD {
            return Err(Error::InvalidConfiguration);
        }
        if self.accrual_timestamp != now {
            return Err(Error::StaleMarket);
        }
        self.reserve_factor = factor;
        Ok(())
    }

    /// Sets the fraction of new reserves routed to staking rewards.
    pub fn set_stake_factor(&mut self, factor: u128, now: u64) -> (r: Result<(), Error>)
        requires
            old(self).market().wf(),
        ensures
            final(self).market().wf(),
            match r {
                Ok(()) => factor <= WAD && old(self).market().accrual_timestamp == now && final(self).market() == (Market { stake_factor: factor, ..old(self).market() }),
                Err(e) => final(self).market() == old(self).market() && (e
                    == Error::InvalidConfiguration && factor > WAD || e == Error::StaleMarket
                    && factor <= WAD && old(self).market().accrual_timestamp != now),
            },
    {
        if factor > WAD {
            return Err(Error::InvalidConfiguration);
        }
        if self.accrual_timestamp != now {
            return Err(Error::StaleMarket);
        }
        self.stake_factor = factor;
        Ok(())
    }

    /// Sets the close factor within its allowed band.
    pub fn set_close_factor(&mut self, factor: u128) -> (r: Result<(), Error>)
        requires
            old(self).market().wf(),
        ensures
            final(self).market().wf(),
            match r {
                Ok(()) => MIN_CLOSE_FACTOR <= factor <= WAD && final(self).market() == (Market {
                    close_factor: factor,
                    ..old(self).market()
                }),
                Err(e) => final(self).market() == old(self).market() && e
                    == Error::InvalidConfiguration && !(MIN_CLOSE_FACTOR <= factor <= WAD),
            },
    {
        if factor < MIN_CLOSE_FACTOR || factor > WAD {
            return Err(Error::InvalidConfiguration);
        }
        self.close_factor = factor;
        Ok(())
    }

    /// Sets the liquidation incentive: liquidators must keep at least the
    /// minimum incentive after the protocol's seize share, and the bonus
    /// must stay below the reciprocal of the highest collateral factor.
    pub fn set_liquidation_incentive(&mut self, incentive: u128) -> (r: Result<(), Error>)
        requires
            old(self).market().wf(),
        ensures
            final(self).market().wf(),
            match r {
                Ok(()) => incentive * (WAD - old(self).market().protocol_seize_share)
                    >= MIN_LIQUIDATION_INCENTIVE * (WAD as int) && incentive * MAX_LTV < WAD * WAD
                    && final(self).market() == (Market {
                    liquidation_incentive: incentive,
                    ..old(self).market()
                }),
                Err(e) => final(self).market() == old(self).market() && e
                    == Error::InvalidConfiguration && !(incentive * (WAD - old(self).market().protocol_seize_share) >= MIN_LIQUIDATION_INCENTIVE * (WAD as int)
                    && incentive * MAX_LTV < WAD * WAD),
            },
    {
        let floor_ok = match mul_div_floor(incentive, WAD - self.protocol_seize_share, 1) {
            None => true,
            Some(p) => p >= MIN_LIQUIDATION_INCENTIVE_TIMES_WAD,
        };
        if !floor_ok {
            return Err(Error::InvalidConfiguration);
        }
        let cap_ok = match mul_div_floor(incentive, MAX_LTV, 1) {
            None => false,
            Some(p) => p < WAD_SQUARED,
        };
        if !cap_ok {
            return Err(Error::InvalidConfiguration);
        }
        self.liquidation_incentive = incentive;
        Ok(())
    }

    /// Sets the protocol's share of seized collateral, bounded so that
    /// liquidators keep at least the minimum incentive.
    pub fn set_protocol_seize_share(&mut self, share: u128) -> (r: Result<(), Error>)
        requires
            old(self).market().wf(),
        ensures
            final(self).market().wf(),
            match r {
                Ok(()) => share < WAD && old(self).market().liquidation_incentive * (WAD - share)
                    >= MIN_LIQUIDATION_INCENTIVE * (WAD as int) && final(self).market() == (Market {
                    protocol_seize_share: share,
                    ..old(self).market()
                }),
                Err(e) => final(self).market() == old(self).market() && e
                    == Error::InvalidConfiguration && !(share < WAD && old(self).market().liquidation_incentive * (WAD - share) >= MIN_LIQUIDATION_INCENTIVE * (
                WAD as int)),
            },
    {
        if share >= WAD {
            return Err(Error::InvalidConfiguration);
        }
        let floor_ok = match mul_div_floor(self.liquidation_incentive, WAD - share, 1) {
            None => true,
            Some(p) => p >= MIN_LIQUIDATION_INCENTIVE_TIMES_WAD,
        };
        if !floor_ok {
            return Err(Error::InvalidConfiguration);
        }
        self.protocol_seize_share = share;
        Ok(())
    }

    /// Sets the time under which `try_accrue_interest` skips accrual.
    pub fn set_accrual_time_threshold(&mut self, threshold: u64) -> (r: Result<(), Error>)
        requires
            old(self).market().wf(),
        ensures
            final(self).market().wf(),
            match r {
                Ok(()) => threshold <= MAX_ACCRUAL_TIME_THRESHOLD && final(self).market()
                    == (Market { accrual_time_threshold: threshold, ..old(self).market() }),
                Err(e) => final(self).market() == old(self).market() && e
                    == Error::InvalidConfiguration && threshold > MAX_ACCRUAL_TIME_THRESHOLD,
            },
    {
        if threshold > MAX_ACCRUAL_TIME_THRESHOLD {
            return Err(Error::InvalidConfiguration);
        }
        self.accrual_time_threshold = threshold;
        Ok(())
    }

    /// Replaces the interest-rate model on a freshly accrued market.
    pub fn set_interest_rate_model(&mut self, model: RateModel, now: u64) -> (r: Result<(), Error>)
        requires
            old(self).market().wf(),
            model.wf(),
        ensures
            final(self).market().wf(),
            match r {
                Ok(()) => old(self).market().accrual_timestamp == now && final(self).market()
                    == (Market { rate_model: model, ..old(self).market() }),
                Err(e) => final(self).market() == old(self).market() && e == Error::StaleMarket
                    && old(self).market().accrual_timestamp != now,
            },
    {
        if self.accrual_timestamp != now {
            return Err(Error::StaleMarket);
        }
        self.rate_model = model;
        Ok(())
    }

    /// Whitelists a contract allowed to mint and enter the market on
    /// behalf of other accounts.
    pub fn add_trusted_minter(&mut self, minter: u64)
        requires
            old(self).market().wf(),
        ensures
            final(self).market().wf(),
            final(self).market().trusted_minters.lookup(minter, 0, 0) == Some(true),
            (final(self).market() == Market {
                trusted_minters: final(self).market().trusted_minters,
                ..old(self).market()
            }),
    {
        self.trusted_minters.set(minter, 0, 0, true);
    }

    /// Removes a trusted minter.
    pub fn remove_trusted_minter(&mut self, minter: u64)
        requires
            old(self).market().wf(),
        ensures
            final(self).market().wf(),
            (final(self).market().trusted_minters.lookup(minter, 0, 0) is None),
            (final(self).market() == Market {
                trusted_minters: final(self).market().trusted_minters,
                ..old(self).market()
            }),
    {
        self.trusted_minters.remove(minter, 0, 0);
    }

    /// Whether a contract is a trusted minter.
    pub fn is_trusted_minter(&self, minter: u64) -> (r: bool)
        requires
            self.market().wf(),
        ensures
            r == (self.market().trusted_minters.lookup(minter, 0, 0) == Some(true)),
    {
        match self.trusted_minters.get(minter, 0, 0) {
            Some(v) => v,
            None => false,
        }
    }

    /// The borrow index up to the last accrual.
    pub fn get_borrow_index(&self) -> (r: u128)
        ensures
            r == self.market().borrow_index,
    {
        self.borrow_index
    }

    /// The close factor applied at liquidations.
    pub fn get_close_factor(&self) -> (r: u128)
        ensures
            r == self.market().close_factor,
    {
        self.close_factor
    }

    /// The liquidation incentive.
    pub fn get_liquidation_incentive(&self) -> (r: u128)
        ensures
            r == self.market().liquidation_incentive,
    {
        self.liquidation_incentive
    }

    /// The reserve factor.
    pub fn get_reserve_factor(&self) -> (r: u128)
        ensures
            r == self.market().reserve_factor,
    {
        self.reserve_factor
    }

    /// The borrower's principal discounted to market inception, the base
    /// for borrow-side rewards.
    pub fn base_account_borrow_amount(&self, account: u64) -> (r: Result<u128, Error>)
        requires
            self.market().wf(),
        ensures
            match r {
                Ok(v) => v == spec_account_borrow(self.market(), account) * WAD / (
                self.market().borrow_index as int),
                Err(e) => e == Error::Arithmetic,
            },
    {
        let borrow = self.stored_account_borrow_amount(account)?;
        match mul_div_floor(borrow, WAD, self.borrow_index) {
            None => Err(Error::Arithmetic),
            Some(v) => Ok(v),
        }
    }

    /// Accrues to `now` and reports the updated total borrows.
    pub fn current_total_borrows(&mut self, now: u64) -> (r: Result<u128, Error>)
        requires
            old(self).market().wf(),
            now >= old(self).market().accrual_timestamp,
        ensures
            final(self).market().wf(),
            r is Ok ==> r == Ok::<u128, Error>(final(self).market().total_borrows) && final(self).market() == spec_accrue(old(self).market(), now),
    {
        self.accrue_interest(now)?;
        Ok(self.total_borrows)
    }

    /// Accrues to `now` and reports the updated exchange rate.
    pub fn get_current_exchange_rate(&mut self, now: u64) -> (r: Result<u128, Error>)
        requires
            old(self).market().wf(),
            now >= old(self).market().accrual_timestamp,
        ensures
            final(self).market().wf(),
            r is Ok ==> r == Ok::<u128, Error>(
                spec_exchange_rate(final(self).market()) as u128,
            ) && final(self).market() == spec_accrue(old(self).market(), now),
    {
        self.accrue_interest(now)?;
        self.get_stored_exchange_rate()
    }

    /// Accrues to `now` and reports the borrower's updated debt.
    pub fn current_account_borrow_amount(&mut self, account: u64, now: u64) -> (r: Result<
        u128,
        Error,
    >)
        requires
            old(self).market().wf(),
            now >= old(self).market().accrual_timestamp,
        ensures
            final(self).market().wf(),
            r is Ok ==> r == Ok::<u128, Error>(
                spec_account_borrow(final(self).market(), account) as u128,
            ) && final(self).market() == spec_accrue(old(self).market(), now),
    {
        self.accrue_interest(now)?;
        self.stored_account_borrow_amount(account)
    }

    /// Accrues to `now` and reports the updated liquidity.
    pub fn get_current_liquidity(&mut self, now: u64) -> (r: Result<u128, Error>)
        requires
            old(self).market().wf(),
            now >= old(self).market().accrual_timestamp,
        ensures
            final(self).market().wf(),
            r is Ok ==> r == Ok::<u128, Error>(spec_liquidity(final(self).market()) as u128)
                && final(self).market() == spec_accrue(old(self).market(), now),
    {
        self.accrue_interest(now)?;
        Ok(self.get_liquidity())
    }
}

/// A burned payment of share tokens covers the exact-amount redeem: the
/// tokens are one above the floor conversion, so their underlying value is
/// at least `amount`, and the payout stays within the liquidity.
proof fn lemma_under_redeem_bounded(m: Market, amount: int, tokens: int)
    requires
        m.wf(),
        0 < tokens <= m.total_supply,
        spec_exchange_rate(m) <= u128::MAX,
        spec_exchange_rate(m) != 0,
        0 <= amount,
        tokens == spec_underlying_to_tokens(m, amount) + 1,
    ensures
        amount <= spec_liquidity(m),
{
    let fx = spec_exchange_rate(m);
    vstd::arithmetic::div_mod::lemma_fundamental_div_mod(amount * WAD, fx);
    vstd::arithmetic::div_mod::lemma_mod_division_less_than_divisor(amount * WAD, fx);
    lemma_conversion_bounded(m, tokens);
    // amount * WAD < tokens * fx, so amount <= tokens * fx / WAD <= liquidity
    assert(amount * WAD < tokens * fx) by (nonlinear_arith)
        requires
            amount * WAD == fx * (amount * WAD / fx) + (amount * WAD) % fx && 0 <= (amount * WAD)
                % fx < fx && tokens == amount * WAD / fx + 1,
    ;
    vstd::arithmetic::div_mod::lemma_fundamental_div_mod(fx * tokens, WAD as int);
    vstd::arithmetic::div_mod::lemma_mod_division_less_than_divisor(fx * tokens, WAD as int);
    assert(amount <= fx * tokens / (WAD as int)) by (nonlinear_arith)
        requires
            amount * WAD < tokens * fx && WAD > 0 && amount >= 0 && (WAD as int) * (fx * tokens / (
            WAD as int)) + (fx * tokens) % (WAD as int) == fx * tokens && 0 <= (fx * tokens) % (
            WAD as int) < WAD,
    ;
}

/// After writing a snapshot stamped with the market's borrow index, every
/// stored snapshot still carries an index of at least one WAD.
proof fn lemma_snapshot_entries_bounded(
    m0: Market,
    m1: Market,
    borrower: u64,
    new_borrow: u128,
    index: u128,
    i: int,
)
    requires
        m0.wf(),
        index >= WAD,
        m1.snapshots.wf(),
        m1.snapshots.lookup(borrower, 0, 0) == Some(
            AccountSnapshot { borrow_amount: new_borrow, borrow_index: index },
        ),
        forall|a: u64|
            a != borrower ==> #[trigger] m1.snapshots.lookup(a, 0, 0) == m0.snapshots.lookup(
                a,
                0,
                0,
            ),
        forall|x: u64, y: u64, z: u64|
            !(x == borrower && y == 0 && z == 0) ==> #[trigger] m1.snapshots.lookup(x, y, z)
                == m0.snapshots.lookup(x, y, z),
        0 <= i < m1.snapshots.entries.len(),
    ensures
        m1.snapshots.entries[i].val.borrow_index >= WAD,
{
    let e = m1.snapshots.entries[i];
    m1.snapshots.lemma_lookup_at(e.k1, e.k2, e.k3, i);
    if e.k1 == borrower && e.k2 == 0 && e.k3 == 0 {
        assert(e.val.borrow_index == index);
    } else {
        assert(m1.snapshots.lookup(e.k1, e.k2, e.k3) == m0.snapshots.lookup(e.k1, e.k2, e.k3));
        assert(m0.snapshots.contains_key(e.k1, e.k2, e.k3));
        let j = choose|p: int|
            0 <= p < m0.snapshots.entries.len() && crate::store::has_key(
                #[trigger] m0.snapshots.entries[p],
                e.k1,
                e.k2,
                e.k3,
            );
        m0.snapshots.lemma_lookup_at(e.k1, e.k2, e.k3, j);
        assert(m0.snapshots.entries[j].val.borrow_index >= WAD);
    }
}

} // verus!
