//! The risk core: market whitelist, per-account market sets, collateral
//! custody, collateral-factor tiers with timelocked decreases, pause flags,
//! caps, and the policy gates the markets consult.
//!
//! Collateral share tokens are escrowed here; for every market the sum of
//! the account balances equals the stored market total. Collateral-factor
//! decreases are deferred by one day and promoted lazily on the first read
//! past their activation time.

use crate::errors::Error;
use crate::math::{mul_div_floor, WAD};
use crate::store::{has_key, Table};
use vstd::prelude::*;

verus! {

/// The maximum collateral factor, 90%.
pub const MAX_COLLATERAL_FACTOR: u128 = 900_000_000_000_000_000;

/// The most markets one account can be in.
pub const MAX_MARKETS_PER_ACCOUNT: u64 = 8;

/// The most rewards batches per market.
pub const MAX_REWARDS_BATCHES: u64 = 3;

/// The share of a batch that must be distributed before an administrator
/// may remove it, 95%.
pub const MIN_REWARDS_BATCH_TOLERANCE: u128 = 950_000_000_000_000_000;

/// The maximum slippage accepted by configuration swaps, 10%.
pub const MAX_SLIPPAGE: u128 = 100_000_000_000_000_000;

/// The maximum boosting premium, 10%.
pub const MAX_PREMIUM: u128 = 100_000_000_000_000_000;

/// The delay before a collateral-factor decrease applies, one day.
pub const TIMELOCK_COLLATERAL_FACTOR_DECREASE: u64 = 86_400;

/// The largest collateral-factor decrease in one step, 10%.
pub const MAX_COLLATERAL_FACTOR_DECREASE: u128 = 100_000_000_000_000_000;

/// An operation flag: active or paused by the guardian.
#[derive(Clone, Copy, Debug, PartialEq, Eq, Structural)]
pub enum Status {
    Active,
    Paused,
}

/// Whether reward boosting is switched on.
#[derive(Clone, Copy, Debug, PartialEq, Eq, Structural)]
pub enum State {
    Inactive,
    Active,
}

/// A timestamped rewards index, as emitted with batch updates.
#[derive(Clone, Copy, Debug, PartialEq, Eq, Structural)]
pub struct MarketState {
    pub timestamp: u64,
    pub index: u128,
}

/// Which side of a market a rewards batch pays.
#[derive(Clone, Copy, Debug, PartialEq, Eq, Structural)]
pub enum MarketType {
    Supply,
    Borrow,
}

/// A linear rewards schedule over one side of one market.
#[derive(Clone, Copy, Debug, PartialEq, Eq, Structural)]
pub struct RewardsBatch {
    /// Identifier, unique and increasing per market.
    pub id: u64,
    /// The market whose users it rewards.
    pub money_market: u64,
    /// Supply side or borrow side.
    pub market_type: MarketType,
    /// The token the rewards are paid in.
    pub token_id: u64,
    /// Total funding.
    pub amount: u128,
    /// Rewards already attributed to accounts or to the undistributed pot.
    pub distributed_amount: u128,
    /// Tokens per second, WAD-scaled.
    pub speed: u128,
    /// Reward-per-base accumulator, in WAD * WAD.
    pub index: u128,
    /// Last time the index advanced.
    pub last_time: u64,
    /// End of the schedule.
    pub end_time: u64,
}

/// One hop of a swap path on the exchange.
#[derive(Clone, Copy, Debug, PartialEq, Eq, Structural)]
pub struct SwapStep {
    pub pair_address: u64,
    pub input_token_id: u64,
    pub output_token_id: u64,
}

/// A premium pool that converts claimed rewards into governance tokens.
#[derive(Clone, Debug)]
pub struct RewardsBooster {
    pub token_id: u64,
    pub premium: u128,
    pub amount_left: u128,
    pub distributed_amount: u128,
    pub swap_path: Vec<SwapStep>,
}

/// An account's standing: spare liquidity, or a shortfall that exposes it
/// to liquidation.
#[derive(Clone, Copy, Debug, PartialEq, Eq, Structural)]
pub enum RiskProfile {
    Solvent(u128),
    RiskyOrInsolvent(u128),
}

/// The verdict on a proposed liquidation repayment.
#[derive(Clone, Copy, Debug, PartialEq, Eq, Structural)]
pub enum Liquidation {
    Allowed,
    NotAllowed,
    AllowedButTooMuch,
}

/// What the risk simulation reads from one market: the account's debt
/// there and the market's exchange rate.
#[derive(Clone, Copy, Debug, PartialEq, Eq, Structural)]
pub struct AccountSnapshot {
    pub money_market: u64,
    pub underlying_owed_amount: u128,
    pub fx: u128,
}

/// A scheduled collateral-factor change.
#[derive(Clone, Copy, Debug, PartialEq, Eq, Structural)]
pub struct NextFactors {
    pub apply_at: u64,
    pub cf: u128,
    pub uf: u128,
}

/// Per-market data held by the controller.
#[derive(Clone, Copy, Debug)]
pub struct MarketEntry {
    /// The market this entry describes.
    pub market: u64,
    /// Loan-to-value limit for ordinary borrowers, in WAD.
    pub collateral_factor: u128,
    /// Stricter limit applied to stablecoin borrowers, in WAD.
    pub ush_borrower_collateral_factor: u128,
    /// A pending, timelocked decrease of the two factors.
    pub next_factors: Option<NextFactors>,
    /// Collateral share tokens deposited over all accounts.
    pub total_collateral_tokens: u128,
    /// Pause flag for minting.
    pub mint_status: Status,
    /// Pause flag for borrowing.
    pub borrow_status: Status,
    /// Pause flag for seizing collateral here.
    pub seize_status: Status,
    /// Optional cap on the market's liquidity.
    pub liquidity_cap: Option<u128>,
    /// Optional cap on the market's total borrows.
    pub borrow_cap: Option<u128>,
    /// The underlying's price in the numeraire, as last fetched from the
    /// oracle; absent while the oracle cannot price it.
    pub price: Option<u128>,
    /// The identifier the next rewards batch will get.
    pub next_batch_id: u64,
    /// How many rewards batches this market may carry.
    pub max_rewards_batches: u64,
}

/// An account's presence in a market.
#[derive(Clone, Copy, Debug, PartialEq, Eq, Structural)]
pub struct Membership {
    pub account: u64,
    pub market: u64,
}

/// Collateral share tokens one account holds in one market.
#[derive(Clone, Copy, Debug, PartialEq, Eq, Structural)]
pub struct CollateralEntry {
    pub market: u64,
    pub account: u64,
    pub tokens: u128,
}

/// The controller state.
pub struct Controller {
    /// One entry per whitelisted market.
    pub markets: Table<MarketEntry>,
    /// Which accounts are in which markets, in entry order.
    pub memberships: Vec<Membership>,
    /// Per-(market, account) collateral balances.
    pub collaterals: Vec<CollateralEntry>,
    /// All rewards batches, at most `max_rewards_batches` per market.
    pub batches: Vec<RewardsBatch>,
    /// Accrued, unclaimed rewards per (account, token).
    pub account_rewards: Table<u128>,
    /// Reward index snapshots per (market, batch, account).
    pub batch_indexes: Table<u128>,
    /// Rewards that could not be attributed, per token.
    pub undistributed: Table<u128>,
    /// Premium pools per reward token.
    pub boosters: Vec<RewardsBooster>,
    /// How many markets one account may be in, at most eight.
    pub max_markets_per_account: u64,
    /// Pause flag for all seizures.
    pub global_seize_status: Status,
    /// Whether boosting is currently switched on.
    pub boosting_state: State,
    /// Whether boosting has ever been configured.
    pub boosting_supported: bool,
    /// The slippage bound for booster probe swaps, in WAD.
    pub max_slippage: u128,
    /// The stablecoin market notified of collateral changes, if one is
    /// registered.
    pub ush_market_observer: Option<u64>,
}

/// The parts of the controller that collateral and membership changes
/// never touch.
pub open spec fn same_aux(a: Controller, b: Controller) -> bool {
    &&& a.account_rewards == b.account_rewards
    &&& a.batch_indexes == b.batch_indexes
    &&& a.undistributed == b.undistributed
    &&& a.max_markets_per_account == b.max_markets_per_account
    &&& a.global_seize_status == b.global_seize_status
    &&& a.boosting_state == b.boosting_state
    &&& a.boosting_supported == b.boosting_supported
    &&& a.max_slippage == b.max_slippage
    &&& a.ush_market_observer == b.ush_market_observer
}

/// The collateral this entry contributes to market `m`.
pub open spec fn col_contrib(e: CollateralEntry, m: u64) -> int {
    if e.market == m {
        e.tokens as int
    } else {
        0
    }
}

/// Total collateral deposited for market `m`.
pub open spec fn sum_collateral(s: Seq<CollateralEntry>, m: u64) -> int
    decreases s.len(),
{
    if s.len() == 0 {
        0
    } else {
        sum_collateral(s.drop_last(), m) + col_contrib(s.last(), m)
    }
}

/// Whether this membership belongs to `a`.
pub open spec fn member_contrib(e: Membership, a: u64) -> int {
    if e.account == a {
        1
    } else {
        0
    }
}

/// How many markets account `a` is in.
pub open spec fn count_memberships(s: Seq<Membership>, a: u64) -> int
    decreases s.len(),
{
    if s.len() == 0 {
        0
    } else {
        count_memberships(s.drop_last(), a) + member_contrib(s.last(), a)
    }
}

/// The markets account `a` is in, in membership order.
pub open spec fn markets_of(s: Seq<Membership>, a: u64) -> Seq<u64>
    decreases s.len(),
{
    if s.len() == 0 {
        Seq::empty()
    } else if s.last().account == a {
        markets_of(s.drop_last(), a).push(s.last().market)
    } else {
        markets_of(s.drop_last(), a)
    }
}

/// Whether account `a` is in market `m`.
pub open spec fn is_member(s: Seq<Membership>, a: u64, m: u64) -> bool {
    exists|i: int| 0 <= i < s.len() && #[trigger] s[i] == (Membership { account: a, market: m })
}

/// The account's collateral in a market, zero when absent.
pub open spec fn spec_collateral(s: Seq<CollateralEntry>, m: u64, a: u64) -> int {
    if exists|i: int|
        0 <= i < s.len() && (#[trigger] s[i]).market == m && s[i].account == a {
        let i = choose|i: int|
            0 <= i < s.len() && (#[trigger] s[i]).market == m && s[i].account == a;
        s[i].tokens as int
    } else {
        0
    }
}

/// How many rewards batches market `m` carries.
pub open spec fn count_batches(s: Seq<RewardsBatch>, m: u64) -> int
    decreases s.len(),
{
    if s.len() == 0 {
        0
    } else {
        count_batches(s.drop_last(), m) + (if s.last().money_market == m {
            1int
        } else {
            0int
        })
    }
}

/// The factors of a market entry once any due pending change is applied.
pub open spec fn effective_entry(e: MarketEntry, now: u64) -> MarketEntry {
    match e.next_factors {
        Option::Some(n) => {
            if now >= n.apply_at {
                MarketEntry {
                    collateral_factor: n.cf,
                    ush_borrower_collateral_factor: n.uf,
                    next_factors: Option::None,
                    ..e
                }
            } else {
                e
            }
        },
        Option::None => e,
    }
}

/// The collateral factors of market `m` with lazy promotion applied.
pub open spec fn effective_factors(c: Controller, m: u64, now: u64) -> (int, int) {
    match c.markets.lookup(m, 0, 0) {
        Option::Some(e) => {
            let p = effective_entry(e, now);
            (p.collateral_factor as int, p.ush_borrower_collateral_factor as int)
        },
        Option::None => (0, 0),
    }
}

/// Whether the bounds of a pending or applied decrease hold: neither
/// factor may fall by more than the smaller of one tenth and itself.
pub open spec fn valid_decrease(new_v: int, old_v: int) -> bool {
    new_v >= old_v - (if old_v < MAX_COLLATERAL_FACTOR_DECREASE {
        old_v
    } else {
        MAX_COLLATERAL_FACTOR_DECREASE as int
    })
}

impl MarketEntry {
    /// Factor bounds and the pending-change bounds of one entry.
    pub open spec fn wf(self) -> bool {
        &&& self.ush_borrower_collateral_factor <= self.collateral_factor <= MAX_COLLATERAL_FACTOR
        &&& self.max_rewards_batches <= MAX_REWARDS_BATCHES
        &&& self.next_batch_id >= 1
        &&& match self.next_factors {
            Option::Some(n) => {
                &&& n.uf <= n.cf <= MAX_COLLATERAL_FACTOR
                &&& valid_decrease(n.cf as int, self.collateral_factor as int)
                &&& valid_decrease(n.uf as int, self.ush_borrower_collateral_factor as int)
            },
            Option::None => true,
        }
    }
}




/// Every check `tokens_to_seize` makes passes: for distinct markets both
/// are listed with live prices, and each WAD-arithmetic step of
/// `amount * incentive * borrow_price / (collateral_price * fx)` stays
/// within `u128` with a non-zero divisor.
pub open spec fn tokens_to_seize_ok(
    c: Controller,
    borrow_market: u64,
    collateral_market: u64,
    amount: u128,
    fx: u128,
    li: u128,
) -> bool {
    let bp: int = if borrow_market == collateral_market {
        WAD as int
    } else {
        c.markets.lookup(borrow_market, 0, 0).unwrap().price.unwrap() as int
    };
    let cp: int = if borrow_market == collateral_market {
        WAD as int
    } else {
        c.markets.lookup(collateral_market, 0, 0).unwrap().price.unwrap() as int
    };
    &&& (borrow_market != collateral_market ==> c.whitelisted(borrow_market) && c.whitelisted(
        collateral_market,
    ) && c.markets.lookup(borrow_market, 0, 0).unwrap().price is Some && c.markets.lookup(
        collateral_market,
        0,
        0,
    ).unwrap().price is Some)
    &&& li * bp <= u128::MAX
    &&& (cp * fx) / (WAD as int) <= u128::MAX
    &&& (cp * fx) / (WAD as int) > 0
    &&& amount * ((li * bp) / ((cp * fx) / (WAD as int))) / (WAD as int) <= u128::MAX
}

/// Every check `set_collateral_factors` makes passes: the market is
/// listed, the pair is ordered and within the maximum, a non-zero
/// collateral factor has a live oracle price, and any decrease stays
/// within the largest allowed single step.
pub open spec fn set_collateral_factors_ok(
    c: Controller,
    m: u64,
    new_cf: u128,
    new_uf: u128,
    now: u64,
) -> bool {
    &&& c.whitelisted(m)
    &&& new_uf <= new_cf <= MAX_COLLATERAL_FACTOR
    &&& (new_cf != 0 ==> c.markets.lookup(m, 0, 0).unwrap().price is Some)
    &&& valid_decrease(new_cf as int, effective_factors(c, m, now).0)
    &&& valid_decrease(new_uf as int, effective_factors(c, m, now).1)
}

/// Every check `enter_market` makes passes: the market is listed, the
/// account has room for one more market, and both the account's and the
/// market's collateral stay within `u128`.
pub open spec fn enter_market_ok(c: Controller, m: u64, a: u64, tokens: u128) -> bool {
    &&& c.whitelisted(m)
    &&& (is_member(c.memberships@, a, m) || count_memberships(c.memberships@, a)
        < c.max_markets_per_account)
    &&& spec_collateral(c.collaterals@, m, a) + tokens <= u128::MAX
    &&& c.markets.lookup(m, 0, 0).unwrap().total_collateral_tokens + tokens <= u128::MAX
}

/// Every check `exit_market` makes passes: the market is listed, the
/// withdrawal is positive and within the account's collateral there.
pub open spec fn exit_market_ok(c: Controller, m: u64, a: u64, tokens: u128) -> bool {
    &&& c.whitelisted(m)
    &&& tokens > 0
    &&& tokens <= spec_collateral(c.collaterals@, m, a)
}

impl Controller {
    /// Integrity of the controller: unique keys everywhere, per-entry
    /// factor bounds, the membership bound per account, and agreement of
    /// every market total with the sum of its account collaterals.
    pub open spec fn wf(self) -> bool {
        &&& self.markets.wf()
        &&& self.account_rewards.wf()
        &&& self.batch_indexes.wf()
        &&& self.undistributed.wf()
        &&& self.max_markets_per_account <= MAX_MARKETS_PER_ACCOUNT
        &&& self.max_slippage <= MAX_SLIPPAGE
        &&& forall|i: int|
            0 <= i < self.markets.entries.len() ==> has_key(
                #[trigger] self.markets.entries[i],
                self.markets.entries[i].val.market,
                0,
                0,
            )
        &&& forall|i: int|
            0 <= i < self.markets.entries.len() ==> (
            #[trigger] self.markets.entries[i]).val.wf()
        &&& forall|i: int, j: int|
            0 <= i < j < self.memberships.len() ==> #[trigger] self.memberships[i]
                != #[trigger] self.memberships[j]
        &&& forall|a: u64| #[trigger] count_memberships(self.memberships@, a) <= self.max_markets_per_account
        &&& forall|i: int, j: int|
            0 <= i < j < self.collaterals.len() ==> !((#[trigger] self.collaterals[i]).market == (
            #[trigger] self.collaterals[j]).market && self.collaterals[i].account
                == self.collaterals[j].account)
        &&& forall|i: int|
            0 <= i < self.markets.entries.len() ==> (
            #[trigger] self.markets.entries[i]).val.total_collateral_tokens == sum_collateral(
                self.collaterals@,
                self.markets.entries[i].val.market,
            )
        &&& forall|i: int|
            0 <= i < self.collaterals.len() ==> self.whitelisted(
                (#[trigger] self.collaterals[i]).market,
            )
        &&& forall|i: int|
            0 <= i < self.batches.len() ==> self.whitelisted(
                (#[trigger] self.batches[i]).money_market,
            )
        &&& forall|i: int|
            0 <= i < self.batches.len() ==> (#[trigger] self.batches[i]).last_time
                <= self.batches[i].end_time
        &&& forall|i: int, j: int|
            0 <= i < j < self.batches.len() ==> !((#[trigger] self.batches[i]).money_market == (
            #[trigger] self.batches[j]).money_market && self.batches[i].id == self.batches[j].id)
        &&& forall|i: int, j: int|
            0 <= i < self.markets.entries.len() && 0 <= j < self.batches.len() && (
            #[trigger] self.batches[j]).money_market == (
            #[trigger] self.markets.entries[i]).val.market ==> self.batches[j].id
                < self.markets.entries[i].val.next_batch_id
        &&& forall|i: int|
            0 <= i < self.markets.entries.len() ==> count_batches(
                self.batches@,
                (#[trigger] self.markets.entries[i]).val.market,
            ) <= self.markets.entries[i].val.max_rewards_batches
    }

    /// Whether a market is whitelisted.
    pub open spec fn whitelisted(self, m: u64) -> bool {
        self.markets.contains_key(m, 0, 0)
    }

    /// Creates an empty controller.
    pub fn new() -> (r: Controller)
        ensures
            r.wf(),
            r.markets.entries@.len() == 0,
            r.memberships@.len() == 0,
            r.collaterals@.len() == 0,
            r.batches@.len() == 0,
            r.max_markets_per_account == MAX_MARKETS_PER_ACCOUNT,
            r.global_seize_status == Status::Active,
    {
        let c = Controller {
            markets: Table::new(),
            memberships: Vec::new(),
            collaterals: Vec::new(),
            batches: Vec::new(),
            account_rewards: Table::new(),
            batch_indexes: Table::new(),
            undistributed: Table::new(),
            boosters: Vec::new(),
            max_markets_per_account: MAX_MARKETS_PER_ACCOUNT,
            global_seize_status: Status::Active,
            boosting_state: State::Inactive,
            boosting_supported: false,
            max_slippage: MAX_SLIPPAGE,
            ush_market_observer: None,
        };
        proof {
            assert forall|a: u64| #[trigger] count_memberships(c.memberships@, a)
                <= c.max_markets_per_account by {
                assert(count_memberships(c.memberships@, a) == 0);
            }
        }
        c
    }
}

impl Controller {
    /// The entry of a whitelisted market.
    pub fn market_entry(&self, m: u64) -> (r: Option<MarketEntry>)
        requires
            self.wf(),
        ensures
            r == self.markets.lookup(m, 0, 0),
            (r is Some) == self.whitelisted(m),
            r is Some ==> r.unwrap().wf() && r.unwrap().market == m,
            r is Some ==> r.unwrap().total_collateral_tokens == sum_collateral(
                self.collaterals@,
                m,
            ),
            r is Some ==> count_batches(self.batches@, m) <= r.unwrap().max_rewards_batches,
            r is Some ==> forall|j: int|
                0 <= j < self.batches.len() && (#[trigger] self.batches[j]).money_market == m
                    ==> self.batches[j].id < r.unwrap().next_batch_id,
    {
        let r = self.markets.get(m, 0, 0);
        proof {
            if self.markets.contains_key(m, 0, 0) {
                let i = choose|i: int|
                    0 <= i < self.markets.entries.len() && has_key(
                        #[trigger] self.markets.entries[i],
                        m,
                        0,
                        0,
                    );
                self.markets.lemma_lookup_at(m, 0, 0, i);
            }
        }
        r
    }

    /// Whitelists a market with empty risk parameters: a zero collateral
    /// factor, no caps and nothing paused.
    pub fn support_market(&mut self, m: u64) -> (r: Result<(), Error>)
        requires
            old(self).wf(),
        ensures
            final(self).wf(),
            match r {
                Ok(()) => !old(self).whitelisted(m) && final(self).whitelisted(m) && final(self).markets.lookup(m, 0, 0) == Some(
                    MarketEntry {
                        market: m,
                        collateral_factor: 0,
                        ush_borrower_collateral_factor: 0,
                        next_factors: None,
                        total_collateral_tokens: 0,
                        mint_status: Status::Active,
                        borrow_status: Status::Active,
                        seize_status: Status::Active,
                        liquidity_cap: None,
                        borrow_cap: None,
                        price: None,
                        next_batch_id: 1,
                        max_rewards_batches: MAX_REWARDS_BATCHES,
                    },
                ) && final(self).batches == old(self).batches && same_aux(
                    *final(self),
                    *old(self),
                ),
                Err(e) => e == Error::InvalidConfiguration && old(self).whitelisted(m) && *final(self) == *old(self),
            },
            final(self).memberships == old(self).memberships,
            final(self).collaterals == old(self).collaterals,
            forall|x: u64|
                x != m ==> #[trigger] final(self).markets.lookup(x, 0, 0) == old(self).markets.lookup(x, 0, 0),
    {
        if self.market_entry(m).is_some() {
            return Err(Error::InvalidConfiguration);
        }
        let entry = MarketEntry {
            market: m,
            collateral_factor: 0,
            ush_borrower_collateral_factor: 0,
            next_factors: None,
            total_collateral_tokens: 0,
            mint_status: Status::Active,
            borrow_status: Status::Active,
            seize_status: Status::Active,
            liquidity_cap: None,
            borrow_cap: None,
            price: None,
            next_batch_id: 1,
            max_rewards_batches: MAX_REWARDS_BATCHES,
        };
        proof {
            lemma_sum_absent(self.collaterals@, m, *self);
            lemma_count_batches_absent(*self, m);
        }
        self.markets.set(m, 0, 0, entry);
        proof {
            lemma_entries_after_set(*old(self), *self, m, entry);
        }
        Ok(())
    }

    /// The position of the collateral entry for `(m, a)`, if any.
    fn collateral_position(&self, m: u64, a: u64) -> (r: Option<usize>)
        ensures
            match r {
                Some(i) => i < self.collaterals@.len() && self.collaterals@[i as int].market == m
                    && self.collaterals@[i as int].account == a,
                None => !exists|i: int|
                    0 <= i < self.collaterals@.len() && (#[trigger] self.collaterals@[i]).market
                        == m && self.collaterals@[i].account == a,
            },
    {
        let mut i: usize = 0;
        while i < self.collaterals.len()
            invariant
                i <= self.collaterals@.len(),
                forall|j: int|
                    0 <= j < i ==> !((#[trigger] self.collaterals@[j]).market == m
                        && self.collaterals@[j].account == a),
            decreases self.collaterals@.len() - i,
        {
            let e = &self.collaterals[i];
            if e.market == m && e.account == a {
                return Some(i);
            }
            i = i + 1;
        }
        None
    }

    /// The collateral share tokens `a` has deposited for market `m`.
    pub fn get_account_collateral_tokens(&self, m: u64, a: u64) -> (r: u128)
        requires
            self.wf(),
        ensures
            r == spec_collateral(self.collaterals@, m, a),
    {
        match self.collateral_position(m, a) {
            Some(i) => {
                proof {
                    lemma_collateral_at(self.collaterals@, i as int, m, a);
                }
                self.collaterals[i].tokens
            },
            None => 0,
        }
    }

    /// The total collateral share tokens deposited for market `m`.
    pub fn get_total_collateral_tokens(&self, m: u64) -> (r: u128)
        requires
            self.wf(),
        ensures
            self.whitelisted(m) ==> r == self.markets.lookup(m, 0, 0).unwrap().total_collateral_tokens,
            !self.whitelisted(m) ==> r == 0,
    {
        match self.market_entry(m) {
            Some(e) => e.total_collateral_tokens,
            None => 0,
        }
    }

    /// Writes the collateral balance of `(m, a)` and moves the market
    /// total by the difference.
    pub fn set_account_collateral_tokens(&mut self, m: u64, a: u64, new_tokens: u128) -> (r:
        Result<(), Error>)
        requires
            old(self).wf(),
            old(self).whitelisted(m),
        ensures
            final(self).wf(),
            match r {
                Ok(()) => {
                    &&& spec_collateral(final(self).collaterals@, m, a) == new_tokens
                    &&& forall|m2: u64, a2: u64|
                        !(m2 == m && a2 == a) ==> #[trigger] spec_collateral(
                            final(self).collaterals@,
                            m2,
                            a2,
                        ) == spec_collateral(old(self).collaterals@, m2, a2)
                    &&& final(self).markets.lookup(m, 0, 0) == Some(
                        MarketEntry {
                            total_collateral_tokens: (old(self).markets.lookup(
                                m,
                                0,
                                0,
                            ).unwrap().total_collateral_tokens - spec_collateral(
                                old(self).collaterals@,
                                m,
                                a,
                            ) + new_tokens) as u128,
                            ..old(self).markets.lookup(m, 0, 0).unwrap()
                        },
                    )
                    &&& forall|x: u64|
                        x != m ==> #[trigger] final(self).markets.lookup(x, 0, 0) == old(self).markets.lookup(x, 0, 0)
                    &&& final(self).memberships == old(self).memberships
                    &&& final(self).batches == old(self).batches
                    &&& same_aux(*final(self), *old(self))
                },
                Err(e) => e == Error::Arithmetic && *final(self) == *old(self) && old(self).markets.lookup(m, 0, 0).unwrap().total_collateral_tokens - spec_collateral(
                    old(self).collaterals@,
                    m,
                    a,
                ) + new_tokens > u128::MAX,
            },
    {
        let ghost c0 = *self;
        let entry = match self.market_entry(m) {
            Some(e) => e,
            None => {
                // unreachable: the market is whitelisted
                proof {
                    assert(false);
                }
                return Err(Error::Arithmetic);
            },
        };
        match self.collateral_position(m, a) {
            Some(i) => {
                proof {
                    lemma_collateral_at(self.collaterals@, i as int, m, a);
                    lemma_sum_ge_entry(self.collaterals@, i as int, m);
                }
                let old_tokens = self.collaterals[i].tokens;
                let lowered = entry.total_collateral_tokens - old_tokens;
                let new_total = match lowered.checked_add(new_tokens) {
                    None => { return Err(Error::Arithmetic) },
                    Some(v) => v,
                };
                self.collaterals.set(i, CollateralEntry { market: m, account: a, tokens: new_tokens });
                self.markets.set(
                    m,
                    0,
                    0,
                    MarketEntry { total_collateral_tokens: new_total, ..entry },
                );
                proof {
                    lemma_collateral_write(
                        c0,
                        *self,
                        m,
                        a,
                        new_tokens,
                        MarketEntry { total_collateral_tokens: new_total, ..entry },
                    );
                }
                Ok(())
            },
            None => {
                let new_total = match entry.total_collateral_tokens.checked_add(new_tokens) {
                    None => { return Err(Error::Arithmetic) },
                    Some(v) => v,
                };
                self.collaterals.push(CollateralEntry { market: m, account: a, tokens: new_tokens });
                self.markets.set(
                    m,
                    0,
                    0,
                    MarketEntry { total_collateral_tokens: new_total, ..entry },
                );
                proof {
                    lemma_collateral_write(
                        c0,
                        *self,
                        m,
                        a,
                        new_tokens,
                        MarketEntry { total_collateral_tokens: new_total, ..entry },
                    );
                }
                Ok(())
            },
        }
    }
}

impl Controller {
    /// Replaces the entry of an already whitelisted market. The new entry
    /// must keep the market key, the factor bounds and the collateral sum.
    fn put_entry(&mut self, e: MarketEntry)
        requires
            old(self).wf(),
            old(self).whitelisted(e.market),
            e.wf(),
            e.total_collateral_tokens == sum_collateral(old(self).collaterals@, e.market),
            count_batches(old(self).batches@, e.market) <= e.max_rewards_batches,
            forall|j: int|
                0 <= j < old(self).batches.len() && (#[trigger] old(self).batches[j]).money_market
                    == e.market ==> old(self).batches[j].id < e.next_batch_id,
        ensures
            final(self).wf(),
            final(self).markets.lookup(e.market, 0, 0) == Some(e),
            forall|x: u64|
                x != e.market ==> #[trigger] final(self).markets.lookup(x, 0, 0) == old(self).markets.lookup(x, 0, 0),
            final(self).memberships == old(self).memberships,
            final(self).collaterals == old(self).collaterals,
            final(self).batches == old(self).batches,
            final(self).account_rewards == old(self).account_rewards,
            final(self).batch_indexes == old(self).batch_indexes,
            final(self).undistributed == old(self).undistributed,
            final(self).max_markets_per_account == old(self).max_markets_per_account,
            final(self).global_seize_status == old(self).global_seize_status,
            final(self).boosting_state == old(self).boosting_state,
            final(self).boosting_supported == old(self).boosting_supported,
            final(self).max_slippage == old(self).max_slippage,
            final(self).ush_market_observer == old(self).ush_market_observer,
    {
        let ghost c0 = *self;
        self.markets.set(e.market, 0, 0, e);
        proof {
            lemma_entries_after_set(c0, *self, e.market, e);
        }
    }

    /// The position of the membership of `a` in `m`, if any.
    fn membership_position(&self, a: u64, m: u64) -> (r: Option<usize>)
        ensures
            match r {
                Some(i) => i < self.memberships@.len() && self.memberships@[i as int] == (
                Membership { account: a, market: m }),
                None => !is_member(self.memberships@, a, m),
            },
    {
        let mut i: usize = 0;
        while i < self.memberships.len()
            invariant
                i <= self.memberships@.len(),
                forall|j: int|
                    0 <= j < i ==> #[trigger] self.memberships@[j] != (Membership {
                        account: a,
                        market: m,
                    }),
            decreases self.memberships@.len() - i,
        {
            let e = self.memberships[i];
            if e.account == a && e.market == m {
                return Some(i);
            }
            i = i + 1;
        }
        None
    }

    /// Whether account `a` is in market `m`.
    pub fn account_in_market(&self, a: u64, m: u64) -> (r: bool)
        ensures
            r == is_member(self.memberships@, a, m),
    {
        self.membership_position(a, m).is_some()
    }

    /// How many markets account `a` is in.
    pub fn count_account_markets(&self, a: u64) -> (r: u64)
        requires
            self.wf(),
        ensures
            r == count_memberships(self.memberships@, a),
    {
        let mut i: usize = 0;
        let mut n: u64 = 0;
        proof {
            assert(self.memberships@.take(0) =~= Seq::<Membership>::empty());
        }
        while i < self.memberships.len()
            invariant
                self.wf(),
                i <= self.memberships@.len(),
                n == count_memberships(self.memberships@.take(i as int), a),
                n <= i,
            decreases self.memberships@.len() - i,
        {
            let ghost pre = self.memberships@.take(i as int);
            proof {
                assert(self.memberships@.take(i as int + 1).drop_last() =~= pre);
                assert(self.memberships@.take(i as int + 1).last() == self.memberships@[i as int]);
            }
            if self.memberships[i].account == a {
                n = n + 1;
            }
            i = i + 1;
        }
        proof {
            assert(self.memberships@.take(self.memberships@.len() as int) =~= self.memberships@);
        }
        n
    }

    /// Enters `a` into market `m` with `tokens` more collateral: the
    /// account may hold at most `max_markets_per_account` markets.
    pub fn enter_market(&mut self, m: u64, a: u64, tokens: u128) -> (r: Result<(), Error>)
        requires
            old(self).wf(),
        ensures
            final(self).wf(),
            match r {
                Ok(()) => {
                    &&& old(self).whitelisted(m)
                    &&& is_member(final(self).memberships@, a, m)
                    &&& spec_collateral(final(self).collaterals@, m, a) == spec_collateral(
                        old(self).collaterals@,
                        m,
                        a,
                    ) + tokens
                    &&& forall|m2: u64, a2: u64|
                        !(m2 == m && a2 == a) ==> #[trigger] spec_collateral(
                            final(self).collaterals@,
                            m2,
                            a2,
                        ) == spec_collateral(old(self).collaterals@, m2, a2)
                    &&& forall|a2: u64|
                        a2 != a ==> #[trigger] count_memberships(final(self).memberships@, a2)
                            == count_memberships(old(self).memberships@, a2)
                    &&& final(self).batches == old(self).batches
                },
                Err(e) => {
                    &&& *final(self) == *old(self)
                    &&& !enter_market_ok(*old(self), m, a, tokens)
                    &&& (e == Error::NotWhitelisted <==> !old(self).whitelisted(m))
                    &&& (e == Error::CapExceeded ==> !is_member(old(self).memberships@, a, m)
                        && count_memberships(old(self).memberships@, a) >= old(self).max_markets_per_account)
                },
            },
    {
        if self.market_entry(m).is_none() {
            return Err(Error::NotWhitelisted);
        }
        let was_member = self.account_in_market(a, m);
        if !was_member {
            let n = self.count_account_markets(a);
            if n >= self.max_markets_per_account {
                return Err(Error::CapExceeded);
            }
        }
        let current = self.get_account_collateral_tokens(m, a);
        let new_tokens = match current.checked_add(tokens) {
            None => { return Err(Error::Arithmetic) },
            Some(v) => v,
        };
        let result = self.set_account_collateral_tokens(m, a, new_tokens);
        match result {
            Err(e) => { return Err(e) },
            Ok(()) => {},
        }
        if !was_member {
            let ghost ms0 = self.memberships@;
            self.memberships.push(Membership { account: a, market: m });
            proof {
                assert forall|a2: u64| #[trigger] count_memberships(self.memberships@, a2)
                    <= self.max_markets_per_account by {
                    lemma_count_push(ms0, Membership { account: a, market: m }, a2);
                }
                assert(is_member(self.memberships@, a, m)) by {
                    assert(self.memberships@[ms0.len() as int] == (Membership {
                        account: a,
                        market: m,
                    }));
                }
                assert forall|a2: u64| a2 != a implies #[trigger] count_memberships(
                    self.memberships@,
                    a2,
                ) == count_memberships(ms0, a2) by {
                    lemma_count_push(ms0, Membership { account: a, market: m }, a2);
                }
            }
        }
        Ok(())
    }

    /// Removes `tokens` collateral of `a` from market `m`; the account
    /// leaves the market when neither collateral nor debt remains. The
    /// caller has already confirmed the withdrawal keeps the account
    /// solvent and reports the account's outstanding debt in `owed`.
    pub fn exit_market(&mut self, m: u64, a: u64, tokens: u128, owed: u128) -> (r: Result<
        u128,
        Error,
    >)
        requires
            old(self).wf(),
        ensures
            final(self).wf(),
            match r {
                Ok(left) => {
                    &&& old(self).whitelisted(m)
                    &&& tokens > 0
                    &&& tokens <= spec_collateral(old(self).collaterals@, m, a)
                    &&& left == spec_collateral(old(self).collaterals@, m, a) - tokens
                    &&& spec_collateral(final(self).collaterals@, m, a) == left
                    &&& forall|m2: u64, a2: u64|
                        !(m2 == m && a2 == a) ==> #[trigger] spec_collateral(
                            final(self).collaterals@,
                            m2,
                            a2,
                        ) == spec_collateral(old(self).collaterals@, m2, a2)
                    &&& (left == 0 && owed == 0 ==> !is_member(final(self).memberships@, a, m))
                    &&& (!(left == 0 && owed == 0) ==> final(self).memberships == old(self).memberships)
                },
                Err(e) => {
                    &&& *final(self) == *old(self)
                    &&& !exit_market_ok(*old(self), m, a, tokens)
                    &&& (e == Error::NotWhitelisted <==> !old(self).whitelisted(m))
                    &&& (e == Error::InvalidPayment <==> old(self).whitelisted(m) && tokens == 0)
                    &&& (e == Error::InsufficientCollateral <==> old(self).whitelisted(m) && tokens
                        > 0 && tokens > spec_collateral(old(self).collaterals@, m, a))
                },
            },
    {
        if self.market_entry(m).is_none() {
            return Err(Error::NotWhitelisted);
        }
        if tokens == 0 {
            return Err(Error::InvalidPayment);
        }
        let current = self.get_account_collateral_tokens(m, a);
        if tokens > current {
            return Err(Error::InsufficientCollateral);
        }
        let left = current - tokens;
        let result = self.set_account_collateral_tokens(m, a, left);
        match result {
            Err(e) => {
                proof {
                    assert(false);
                }
                return Err(e);
            },
            Ok(()) => {},
        }
        if left == 0 && owed == 0 {
            self.remove_membership(a, m);
        }
        Ok(left)
    }

    /// Removes `a` from market `m` when it has neither collateral nor the
    /// reported outstanding debt there.
    pub fn remove_account_market(&mut self, m: u64, a: u64, owed: u128)
        requires
            old(self).wf(),
        ensures
            final(self).wf(),
            spec_collateral(old(self).collaterals@, m, a) == 0 && owed == 0 ==> !is_member(
                final(self).memberships@,
                a,
                m,
            ),
            !(spec_collateral(old(self).collaterals@, m, a) == 0 && owed == 0) ==> *final(self)
                == *old(self),
            final(self).collaterals == old(self).collaterals,
            final(self).markets == old(self).markets,
            final(self).batches == old(self).batches,
    {
        let tokens = self.get_account_collateral_tokens(m, a);
        if tokens == 0 && owed == 0 {
            self.remove_membership(a, m);
        }
    }

    /// Drops the membership of `a` in `m`, if present.
    fn remove_membership(&mut self, a: u64, m: u64)
        requires
            old(self).wf(),
        ensures
            final(self).wf(),
            !is_member(final(self).memberships@, a, m),
            final(self).collaterals == old(self).collaterals,
            final(self).markets == old(self).markets,
            final(self).batches == old(self).batches,
            final(self).account_rewards == old(self).account_rewards,
            final(self).batch_indexes == old(self).batch_indexes,
            final(self).undistributed == old(self).undistributed,
            final(self).max_markets_per_account == old(self).max_markets_per_account,
            final(self).global_seize_status == old(self).global_seize_status,
    {
        match self.membership_position(a, m) {
            Some(i) => {
                let ghost ms0 = self.memberships@;
                self.memberships.remove(i);
                proof {
                    assert(forall|p: int|
                        0 <= p < self.memberships@.len() ==> #[trigger] self.memberships@[p] == (
                        if p < i as int {
                            ms0[p]
                        } else {
                            ms0[p + 1]
                        }));
                    assert forall|p: int, q: int| 0 <= p < q < self.memberships@.len() implies #[trigger] self.memberships@[p]
                        != #[trigger] self.memberships@[q] by {
                        let p0: int = if p < i as int {
                            p
                        } else {
                            p + 1
                        };
                        let q0: int = if q < i as int {
                            q
                        } else {
                            q + 1
                        };
                        assert(ms0[p0] != ms0[q0]);
                    }
                    assert forall|a2: u64| #[trigger] count_memberships(self.memberships@, a2)
                        <= self.max_markets_per_account by {
                        lemma_count_remove(ms0, i as int, a2);
                        assert(count_memberships(self.memberships@, a2) <= count_memberships(
                            ms0,
                            a2,
                        ));
                    }
                    assert(!is_member(self.memberships@, a, m)) by {
                        if is_member(self.memberships@, a, m) {
                            let j = choose|j: int|
                                0 <= j < self.memberships@.len() && #[trigger] self.memberships@[j]
                                    == (Membership { account: a, market: m });
                            let j0: int = if j < i as int {
                                j
                            } else {
                                j + 1
                            };
                            assert(ms0[j0] == (Membership { account: a, market: m }));
                            if j0 != i as int {
                                assert(ms0[i as int] == (Membership { account: a, market: m }));
                                assert(false);
                            }
                        }
                    }
                }
            },
            None => {},
        }
    }

    /// Reads the collateral factors of `m`, first applying any pending
    /// change whose timelock has elapsed.
    pub fn update_and_get_collateral_factors(&mut self, m: u64, now: u64) -> (r: Result<
        (u128, u128),
        Error,
    >)
        requires
            old(self).wf(),
        ensures
            final(self).wf(),
            match r {
                Ok(f) => {
                    &&& old(self).whitelisted(m)
                    &&& (f.0 as int, f.1 as int) == effective_factors(*old(self), m, now)
                    &&& final(self).markets.lookup(m, 0, 0) == Some(
                        effective_entry(old(self).markets.lookup(m, 0, 0).unwrap(), now),
                    )
                    &&& forall|x: u64|
                        x != m ==> #[trigger] final(self).markets.lookup(x, 0, 0) == old(self).markets.lookup(x, 0, 0)
                    &&& final(self).memberships == old(self).memberships
                    &&& final(self).collaterals == old(self).collaterals
                    &&& final(self).batches == old(self).batches
                    &&& final(self).account_rewards == old(self).account_rewards
                    &&& final(self).batch_indexes == old(self).batch_indexes
                    &&& final(self).undistributed == old(self).undistributed
                    &&& final(self).max_markets_per_account == old(self).max_markets_per_account
                    &&& final(self).global_seize_status == old(self).global_seize_status
                    &&& final(self).boosting_state == old(self).boosting_state
                    &&& final(self).boosting_supported == old(self).boosting_supported
                    &&& final(self).max_slippage == old(self).max_slippage
                    &&& final(self).ush_market_observer == old(self).ush_market_observer
                },
                Err(e) => e == Error::NotWhitelisted && !old(self).whitelisted(m) && *final(self)
                    == *old(self),
            },
    {
        let entry = match self.market_entry(m) {
            None => { return Err(Error::NotWhitelisted) },
            Some(e) => e,
        };
        match entry.next_factors {
            Some(n) => {
                if now >= n.apply_at {
                    let promoted = MarketEntry {
                        collateral_factor: n.cf,
                        ush_borrower_collateral_factor: n.uf,
                        next_factors: None,
                        ..entry
                    };
                    self.put_entry(promoted);
                    Ok((n.cf, n.uf))
                } else {
                    Ok((entry.collateral_factor, entry.ush_borrower_collateral_factor))
                }
            },
            None => Ok((entry.collateral_factor, entry.ush_borrower_collateral_factor)),
        }
    }

    /// Whether a decrease from `old_v` to `new_v` stays within the largest
    /// allowed single step.
    fn valid_factor_decrease(new_v: u128, old_v: u128) -> (r: bool)
        ensures
            r == valid_decrease(new_v as int, old_v as int),
    {
        if new_v >= old_v {
            return true;
        }
        let max_allowed = if MAX_COLLATERAL_FACTOR_DECREASE < old_v {
            MAX_COLLATERAL_FACTOR_DECREASE
        } else {
            old_v
        };
        new_v >= old_v - max_allowed
    }

    /// Sets the collateral-factor pair of a market. Increases apply at
    /// once; a decrease of either factor is bounded by the largest allowed
    /// step and scheduled behind the one-day timelock, while the other
    /// factor, if it does not decrease, applies at once.
    pub fn set_collateral_factors(&mut self, m: u64, new_cf: u128, new_uf: u128, now: u64) -> (r:
        Result<(), Error>)
        requires
            old(self).wf(),
            now + TIMELOCK_COLLATERAL_FACTOR_DECREASE <= u64::MAX,
        ensures
            final(self).wf(),
            match r {
                Ok(()) => {
                    let cf = effective_factors(*old(self), m, now).0;
                    let uf = effective_factors(*old(self), m, now).1;
                    let e1 = final(self).markets.lookup(m, 0, 0).unwrap();
                    {
                        &&& set_collateral_factors_ok(*old(self), m, new_cf, new_uf, now)
                        &&& valid_decrease(new_cf as int, cf)
                        &&& valid_decrease(new_uf as int, uf)
                        &&& (new_cf != 0 ==> old(self).markets.lookup(m, 0, 0).unwrap().price
                            is Some)
                        &&& final(self).whitelisted(m)
                        &&& (forall|x: u64|
                            x != m ==> #[trigger] final(self).markets.lookup(x, 0, 0) == old(self).markets.lookup(x, 0, 0))
                        &&& same_aux(*final(self), *old(self))
                        &&& (new_cf >= cf && new_uf >= uf ==> e1.collateral_factor == new_cf
                            && e1.ush_borrower_collateral_factor == new_uf && e1.next_factors
                            is None)
                        &&& (new_cf < cf && new_uf >= uf ==> e1.collateral_factor == cf
                            && e1.ush_borrower_collateral_factor == new_uf && e1.next_factors
                            == Some(
                            NextFactors {
                                apply_at: (now + TIMELOCK_COLLATERAL_FACTOR_DECREASE) as u64,
                                cf: new_cf,
                                uf: new_uf,
                            },
                        ))
                        &&& (new_cf >= cf && new_uf < uf ==> e1.collateral_factor == new_cf
                            && e1.ush_borrower_collateral_factor == uf && e1.next_factors == Some(
                            NextFactors {
                                apply_at: (now + TIMELOCK_COLLATERAL_FACTOR_DECREASE) as u64,
                                cf: new_cf,
                                uf: new_uf,
                            },
                        ))
                        &&& (new_cf < cf && new_uf < uf ==> e1.collateral_factor == cf
                            && e1.ush_borrower_collateral_factor == uf && e1.next_factors == Some(
                            NextFactors {
                                apply_at: (now + TIMELOCK_COLLATERAL_FACTOR_DECREASE) as u64,
                                cf: new_cf,
                                uf: new_uf,
                            },
                        ))
                        &&& final(self).memberships == old(self).memberships
                        &&& final(self).collaterals == old(self).collaterals
                        &&& final(self).batches == old(self).batches
                    }
                },
                Err(e) => {
                    &&& !set_collateral_factors_ok(*old(self), m, new_cf, new_uf, now)
                    &&& (e == Error::NotWhitelisted <==> !old(self).whitelisted(m))
                    &&& (e == Error::OracleUnavailable ==> new_cf != 0 && old(self).markets.lookup(m, 0, 0).unwrap().price is None)
                    &&& (e == Error::NotWhitelisted || e == Error::InvalidConfiguration || e
                        == Error::OracleUnavailable)
                    &&& final(self).memberships == old(self).memberships
                    &&& final(self).collaterals == old(self).collaterals
                    &&& final(self).batches == old(self).batches
                    &&& same_aux(*final(self), *old(self))
                },
            },
    {
        if self.market_entry(m).is_none() {
            return Err(Error::NotWhitelisted);
        }
        if new_cf > MAX_COLLATERAL_FACTOR {
            return Err(Error::InvalidConfiguration);
        }
        if new_uf > new_cf {
            return Err(Error::InvalidConfiguration);
        }
        // a non-zero collateral factor needs a live oracle price
        if new_cf != 0 {
            let entry = self.market_entry(m).unwrap();
            if entry.price.is_none() {
                return Err(Error::OracleUnavailable);
            }
        }
        let factors = match self.update_and_get_collateral_factors(m, now) {
            Err(e) => { return Err(e) },
            Ok(f) => f,
        };
        let cf = factors.0;
        let uf = factors.1;
        if new_cf < cf && !Self::valid_factor_decrease(new_cf, cf) {
            return Err(Error::InvalidConfiguration);
        }
        if new_uf < uf && !Self::valid_factor_decrease(new_uf, uf) {
            return Err(Error::InvalidConfiguration);
        }
        let entry = self.market_entry(m).unwrap();
        let next = NextFactors {
            apply_at: now + TIMELOCK_COLLATERAL_FACTOR_DECREASE,
            cf: new_cf,
            uf: new_uf,
        };
        if new_cf >= cf && new_uf >= uf {
            self.put_entry(
                MarketEntry {
                    collateral_factor: new_cf,
                    ush_borrower_collateral_factor: new_uf,
                    next_factors: None,
                    ..entry
                },
            );
        } else if new_cf < cf && new_uf >= uf {
            self.put_entry(
                MarketEntry {
                    ush_borrower_collateral_factor: new_uf,
                    next_factors: Some(next),
                    ..entry
                },
            );
        } else if new_cf >= cf && new_uf < uf {
            self.put_entry(
                MarketEntry { collateral_factor: new_cf, next_factors: Some(next), ..entry },
            );
        } else {
            self.put_entry(MarketEntry { next_factors: Some(next), ..entry });
        }
        Ok(())
    }

    /// Computes how many collateral share tokens a repayment seizes:
    /// `amount * incentive * borrow_price / (collateral_price * fx)`, all
    /// in WAD arithmetic; prices drop out when both markets coincide.
    pub fn tokens_to_seize(
        &self,
        borrow_market: u64,
        collateral_market: u64,
        amount: u128,
        fx: u128,
        li: u128,
    ) -> (r: Result<u128, Error>)
        requires
            self.wf(),
        ensures
            match r {
                Ok(v) => {
                    let bp = if borrow_market == collateral_market {
                        WAD as int
                    } else {
                        self.markets.lookup(borrow_market, 0, 0).unwrap().price.unwrap() as int
                    };
                    let cp = if borrow_market == collateral_market {
                        WAD as int
                    } else {
                        self.markets.lookup(collateral_market, 0, 0).unwrap().price.unwrap() as int
                    };
                    v == amount * ((li * bp) / ((cp * fx) / (WAD as int))) / (WAD as int)
                },
                Err(e) => {
                    &&& !tokens_to_seize_ok(*self, borrow_market, collateral_market, amount, fx, li)
                    &&& (e == Error::NotWhitelisted <==> borrow_market != collateral_market && (
                    !self.whitelisted(borrow_market) || !self.whitelisted(collateral_market)))
                    &&& (e == Error::OracleUnavailable <==> borrow_market != collateral_market
                        && self.whitelisted(borrow_market) && self.whitelisted(collateral_market)
                        && (self.markets.lookup(borrow_market, 0, 0).unwrap().price is None
                        || self.markets.lookup(collateral_market, 0, 0).unwrap().price is None))
                    &&& (e == Error::NotWhitelisted || e == Error::OracleUnavailable || e
                        == Error::Arithmetic)
                },
            },
    {
        let bp: u128;
        let cp: u128;
        if borrow_market != collateral_market {
            let be = match self.market_entry(borrow_market) {
                None => { return Err(Error::NotWhitelisted) },
                Some(e) => e,
            };
            let ce = match self.market_entry(collateral_market) {
                None => { return Err(Error::NotWhitelisted) },
                Some(e) => e,
            };
            bp = match be.price {
                None => { return Err(Error::OracleUnavailable) },
                Some(p) => p,
            };
            cp = match ce.price {
                None => { return Err(Error::OracleUnavailable) },
                Some(p) => p,
            };
        } else {
            bp = WAD;
            cp = WAD;
        }
        let num = match mul_div_floor(li, bp, 1) {
            None => { return Err(Error::Arithmetic) },
            Some(v) => v,
        };
        let den = match mul_div_floor(cp, fx, WAD) {
            None => { return Err(Error::Arithmetic) },
            Some(v) => v,
        };
        if den == 0 {
            return Err(Error::Arithmetic);
        }
        let ratio = num / den;
        match mul_div_floor(amount, ratio, WAD) {
            None => Err(Error::Arithmetic),
            Some(v) => Ok(v),
        }
    }
}

/// Read access to the controller's configuration and keyed state.
pub trait StorageModule: Sized {
    /// The controller state this instance works on.
    spec fn ctl(&self) -> Controller;

    /// Whether a market is whitelisted.
    fn is_whitelisted_money_market(&self, m: u64) -> (r: bool)
        requires
            self.ctl().wf(),
        ensures
            r == self.ctl().whitelisted(m),
    ;

    /// The most markets one account may be in.
    fn get_max_markets_per_account(&self) -> (r: u64)
        ensures
            r == self.ctl().max_markets_per_account,
    ;

    /// The mint pause flag of a market.
    fn get_mint_status(&self, m: u64) -> (r: Result<Status, Error>)
        requires
            self.ctl().wf(),
        ensures
            match r {
                Ok(v) => self.ctl().whitelisted(m) && v == self.ctl().markets.lookup(
                    m,
                    0,
                    0,
                ).unwrap().mint_status,
                Err(e) => e == Error::NotWhitelisted && !self.ctl().whitelisted(m),
            },
    ;

    /// The borrow pause flag of a market.
    fn get_borrow_status(&self, m: u64) -> (r: Result<Status, Error>)
        requires
            self.ctl().wf(),
        ensures
            match r {
                Ok(v) => self.ctl().whitelisted(m) && v == self.ctl().markets.lookup(
                    m,
                    0,
                    0,
                ).unwrap().borrow_status,
                Err(e) => e == Error::NotWhitelisted && !self.ctl().whitelisted(m),
            },
    ;

    /// The seize pause flag of a market.
    fn get_seize_status(&self, m: u64) -> (r: Result<Status, Error>)
        requires
            self.ctl().wf(),
        ensures
            match r {
                Ok(v) => self.ctl().whitelisted(m) && v == self.ctl().markets.lookup(
                    m,
                    0,
                    0,
                ).unwrap().seize_status,
                Err(e) => e == Error::NotWhitelisted && !self.ctl().whitelisted(m),
            },
    ;

    /// The global seize pause flag.
    fn get_global_seize_status(&self) -> (r: Status)
        ensures
            r == self.ctl().global_seize_status,
    ;

    /// The liquidity cap of a market, if any.
    fn get_liquidity_cap(&self, m: u64) -> (r: Option<u128>)
        requires
            self.ctl().wf(),
            self.ctl().whitelisted(m),
        ensures
            r == self.ctl().markets.lookup(m, 0, 0).unwrap().liquidity_cap,
    ;

    /// The borrow cap of a market, if any.
    fn get_borrow_cap(&self, m: u64) -> (r: Option<u128>)
        requires
            self.ctl().wf(),
            self.ctl().whitelisted(m),
        ensures
            r == self.ctl().markets.lookup(m, 0, 0).unwrap().borrow_cap,
    ;

    /// The oracle price of a market's underlying.
    fn get_underlying_price(&self, m: u64) -> (r: Result<u128, Error>)
        requires
            self.ctl().wf(),
            self.ctl().whitelisted(m),
        ensures
            match r {
                Ok(v) => self.ctl().markets.lookup(m, 0, 0).unwrap().price == Some(v),
                Err(e) => e == Error::OracleUnavailable && (self.ctl().markets.lookup(
                    m,
                    0,
                    0,
                ).unwrap().price is None),
            },
    ;
}

/// The guardian's pause switches. Pausing is reversible; a paused
/// operation fails with `Paused` until switched back.
pub trait GuardianModule: StorageModule {
    /// Pauses or resumes minting at a market.
    fn pause_mint(&mut self, m: u64, pause: bool) -> (r: Result<(), Error>)
        requires
            old(self).ctl().wf(),
        ensures
            final(self).ctl().wf(),
            match r {
                Ok(()) => final(self).ctl().markets.lookup(m, 0, 0) == Some(
                    MarketEntry {
                        mint_status: if pause {
                            Status::Paused
                        } else {
                            Status::Active
                        },
                        ..old(self).ctl().markets.lookup(m, 0, 0).unwrap()
                    },
                ) && (forall|x: u64|
                    x != m ==> #[trigger] final(self).ctl().markets.lookup(x, 0, 0) == old(self).ctl().markets.lookup(x, 0, 0)) && final(self).ctl().collaterals == old(self).ctl().collaterals && final(self).ctl().memberships == old(self).ctl().memberships && final(self).ctl().batches == old(self).ctl().batches,
                Err(e) => e == Error::NotWhitelisted && *final(self) == *old(self),
            },
    ;

    /// Pauses or resumes borrowing at a market.
    fn pause_borrow(&mut self, m: u64, pause: bool) -> (r: Result<(), Error>)
        requires
            old(self).ctl().wf(),
        ensures
            final(self).ctl().wf(),
            match r {
                Ok(()) => final(self).ctl().markets.lookup(m, 0, 0) == Some(
                    MarketEntry {
                        borrow_status: if pause {
                            Status::Paused
                        } else {
                            Status::Active
                        },
                        ..old(self).ctl().markets.lookup(m, 0, 0).unwrap()
                    },
                ) && (forall|x: u64|
                    x != m ==> #[trigger] final(self).ctl().markets.lookup(x, 0, 0) == old(self).ctl().markets.lookup(x, 0, 0)) && final(self).ctl().collaterals == old(self).ctl().collaterals && final(self).ctl().memberships == old(self).ctl().memberships && final(self).ctl().batches == old(self).ctl().batches,
                Err(e) => e == Error::NotWhitelisted && *final(self) == *old(self),
            },
    ;

    /// Pauses or resumes collateral seizures at a market.
    fn pause_seize(&mut self, m: u64, pause: bool) -> (r: Result<(), Error>)
        requires
            old(self).ctl().wf(),
        ensures
            final(self).ctl().wf(),
            match r {
                Ok(()) => final(self).ctl().markets.lookup(m, 0, 0) == Some(
                    MarketEntry {
                        seize_status: if pause {
                            Status::Paused
                        } else {
                            Status::Active
                        },
                        ..old(self).ctl().markets.lookup(m, 0, 0).unwrap()
                    },
                ) && (forall|x: u64|
                    x != m ==> #[trigger] final(self).ctl().markets.lookup(x, 0, 0) == old(self).ctl().markets.lookup(x, 0, 0)) && final(self).ctl().collaterals == old(self).ctl().collaterals && final(self).ctl().memberships == old(self).ctl().memberships && final(self).ctl().batches == old(self).ctl().batches,
                Err(e) => e == Error::NotWhitelisted && *final(self) == *old(self),
            },
    ;

    /// Pauses or resumes all seizures at once.
    fn pause_global_seize(&mut self, pause: bool)
        requires
            old(self).ctl().wf(),
        ensures
            final(self).ctl().wf(),
            final(self).ctl().global_seize_status == (if pause {
                Status::Paused
            } else {
                Status::Active
            }),
            final(self).ctl().markets == old(self).ctl().markets,
            final(self).ctl().collaterals == old(self).ctl().collaterals,
            final(self).ctl().memberships == old(self).ctl().memberships,
            final(self).ctl().batches == old(self).ctl().batches,
    ;
}

impl StorageModule for Controller {
    open spec fn ctl(&self) -> Controller {
        *self
    }

    fn is_whitelisted_money_market(&self, m: u64) -> (r: bool) {
        self.market_entry(m).is_some()
    }

    fn get_max_markets_per_account(&self) -> (r: u64) {
        self.max_markets_per_account
    }

    fn get_mint_status(&self, m: u64) -> (r: Result<Status, Error>) {
        match self.market_entry(m) {
            None => Err(Error::NotWhitelisted),
            Some(e) => Ok(e.mint_status),
        }
    }

    fn get_borrow_status(&self, m: u64) -> (r: Result<Status, Error>) {
        match self.market_entry(m) {
            None => Err(Error::NotWhitelisted),
            Some(e) => Ok(e.borrow_status),
        }
    }

    fn get_seize_status(&self, m: u64) -> (r: Result<Status, Error>) {
        match self.market_entry(m) {
            None => Err(Error::NotWhitelisted),
            Some(e) => Ok(e.seize_status),
        }
    }

    fn get_global_seize_status(&self) -> (r: Status) {
        self.global_seize_status
    }

    fn get_liquidity_cap(&self, m: u64) -> (r: Option<u128>) {
        self.market_entry(m).unwrap().liquidity_cap
    }

    fn get_borrow_cap(&self, m: u64) -> (r: Option<u128>) {
        self.market_entry(m).unwrap().borrow_cap
    }

    fn get_underlying_price(&self, m: u64) -> (r: Result<u128, Error>) {
        match self.market_entry(m).unwrap().price {
            None => Err(Error::OracleUnavailable),
            Some(p) => Ok(p),
        }
    }
}

impl GuardianModule for Controller {
    fn pause_mint(&mut self, m: u64, pause: bool) -> (r: Result<(), Error>) {
        let entry = match self.market_entry(m) {
            None => { return Err(Error::NotWhitelisted) },
            Some(e) => e,
        };
        let status = if pause {
            Status::Paused
        } else {
            Status::Active
        };
        self.put_entry(MarketEntry { mint_status: status, ..entry });
        Ok(())
    }

    fn pause_borrow(&mut self, m: u64, pause: bool) -> (r: Result<(), Error>) {
        let entry = match self.market_entry(m) {
            None => { return Err(Error::NotWhitelisted) },
            Some(e) => e,
        };
        let status = if pause {
            Status::Paused
        } else {
            Status::Active
        };
        self.put_entry(MarketEntry { borrow_status: status, ..entry });
        Ok(())
    }

    fn pause_seize(&mut self, m: u64, pause: bool) -> (r: Result<(), Error>) {
        let entry = match self.market_entry(m) {
            None => { return Err(Error::NotWhitelisted) },
            Some(e) => e,
        };
        let status = if pause {
            Status::Paused
        } else {
            Status::Active
        };
        self.put_entry(MarketEntry { seize_status: status, ..entry });
        Ok(())
    }

    fn pause_global_seize(&mut self, pause: bool) {
        self.global_seize_status = if pause {
            Status::Paused
        } else {
            Status::Active
        };
    }
}

impl Controller {
    /// Sets or clears the liquidity cap of a market.
    pub fn set_liquidity_cap(&mut self, m: u64, cap: Option<u128>) -> (r: Result<(), Error>)
        requires
            old(self).wf(),
        ensures
            final(self).wf(),
            match r {
                Ok(()) => final(self).markets.lookup(m, 0, 0) == Some(
                    MarketEntry { liquidity_cap: cap, ..old(self).markets.lookup(m, 0, 0).unwrap() },
                ) && (forall|x: u64|
                    x != m ==> #[trigger] final(self).markets.lookup(x, 0, 0) == old(self).markets.lookup(x, 0, 0)) && final(self).collaterals == old(self).collaterals
                    && final(self).memberships == old(self).memberships && final(self).batches
                    == old(self).batches && same_aux(*final(self), *old(self)),
                Err(e) => e == Error::NotWhitelisted && *final(self) == *old(self),
            },
    {
        let entry = match self.market_entry(m) {
            None => { return Err(Error::NotWhitelisted) },
            Some(e) => e,
        };
        self.put_entry(MarketEntry { liquidity_cap: cap, ..entry });
        Ok(())
    }

    /// Sets or clears the borrow cap of a market.
    pub fn set_borrow_cap(&mut self, m: u64, cap: Option<u128>) -> (r: Result<(), Error>)
        requires
            old(self).wf(),
        ensures
            final(self).wf(),
            match r {
                Ok(()) => final(self).markets.lookup(m, 0, 0) == Some(
                    MarketEntry { borrow_cap: cap, ..old(self).markets.lookup(m, 0, 0).unwrap() },
                ) && (forall|x: u64|
                    x != m ==> #[trigger] final(self).markets.lookup(x, 0, 0) == old(self).markets.lookup(x, 0, 0)) && final(self).collaterals == old(self).collaterals
                    && final(self).memberships == old(self).memberships && final(self).batches
                    == old(self).batches && same_aux(*final(self), *old(self)),
                Err(e) => e == Error::NotWhitelisted && *final(self) == *old(self),
            },
    {
        let entry = match self.market_entry(m) {
            None => { return Err(Error::NotWhitelisted) },
            Some(e) => e,
        };
        self.put_entry(MarketEntry { borrow_cap: cap, ..entry });
        Ok(())
    }

    /// Records the oracle's price for a market's underlying; `None` marks
    /// it unavailable.
    pub fn set_underlying_price(&mut self, m: u64, price: Option<u128>) -> (r: Result<(), Error>)
        requires
            old(self).wf(),
        ensures
            final(self).wf(),
            match r {
                Ok(()) => final(self).markets.lookup(m, 0, 0) == Some(
                    MarketEntry { price, ..old(self).markets.lookup(m, 0, 0).unwrap() },
                ) && (forall|x: u64|
                    x != m ==> #[trigger] final(self).markets.lookup(x, 0, 0) == old(self).markets.lookup(x, 0, 0)) && final(self).collaterals == old(self).collaterals
                    && final(self).memberships == old(self).memberships && final(self).batches
                    == old(self).batches && same_aux(*final(self), *old(self)),
                Err(e) => e == Error::NotWhitelisted && *final(self) == *old(self),
            },
    {
        let entry = match self.market_entry(m) {
            None => { return Err(Error::NotWhitelisted) },
            Some(e) => e,
        };
        self.put_entry(MarketEntry { price, ..entry });
        Ok(())
    }

    /// Raises the maximum number of markets per account, up to eight.
    pub fn set_max_markets_per_account(&mut self, new_max: u64) -> (r: Result<(), Error>)
        requires
            old(self).wf(),
        ensures
            final(self).wf(),
            match r {
                Ok(()) => old(self).max_markets_per_account < new_max <= MAX_MARKETS_PER_ACCOUNT
                    && *final(self) == (Controller {
                    max_markets_per_account: new_max,
                    ..*old(self)
                }),
                Err(e) => e == Error::InvalidConfiguration && *final(self) == *old(self),
            },
    {
        if new_max > MAX_MARKETS_PER_ACCOUNT {
            return Err(Error::InvalidConfiguration);
        }
        if new_max <= self.max_markets_per_account {
            return Err(Error::InvalidConfiguration);
        }
        self.max_markets_per_account = new_max;
        Ok(())
    }

    /// Registers the stablecoin market observer.
    pub fn set_ush_market_observer(&mut self, m: u64) -> (r: Result<(), Error>)
        requires
            old(self).wf(),
        ensures
            final(self).wf(),
            match r {
                Ok(()) => old(self).whitelisted(m) && *final(self) == (Controller {
                    ush_market_observer: Some(m),
                    ..*old(self)
                }),
                Err(e) => e == Error::NotWhitelisted && *final(self) == *old(self),
            },
    {
        if self.market_entry(m).is_none() {
            return Err(Error::NotWhitelisted);
        }
        self.ush_market_observer = Some(m);
        Ok(())
    }

    /// Clears the stablecoin market observer.
    pub fn clear_ush_market_observer(&mut self)
        requires
            old(self).wf(),
        ensures
            final(self).wf(),
            (*final(self) == (Controller { ush_market_observer: None, ..*old(self) })),
    {
        self.ush_market_observer = None;
    }
}

impl RiskProfile {
    /// A solvent account may withdraw collateral.
    pub fn can_redeem(&self) -> (r: bool)
        ensures
            r == (self is Solvent),
    {
        matches!(*self, RiskProfile::Solvent(_))
    }

    /// A solvent account may take a new borrow.
    pub fn can_borrow(&self) -> (r: bool)
        ensures
            r == (self is Solvent),
    {
        self.can_redeem()
    }

    /// Whether a liquidation repaying `repay_amount` against a debt of
    /// `borrow_amount` is allowed under the close factor: only accounts at
    /// risk can be liquidated, and at most the close-factor share of the
    /// debt at a time.
    pub fn can_be_liquidated(&self, repay_amount: u128, borrow_amount: u128, close_factor: u128) -> (r:
        Liquidation)
        requires
            close_factor <= WAD,
        ensures
            self is Solvent ==> r == Liquidation::NotAllowed,
            self is RiskyOrInsolvent ==> {
                let max_close = close_factor * borrow_amount / (WAD as int);
                if repay_amount > max_close {
                    r == Liquidation::AllowedButTooMuch
                } else {
                    r == Liquidation::Allowed
                }
            },
    {
        match *self {
            RiskProfile::Solvent(_) => Liquidation::NotAllowed,
            RiskProfile::RiskyOrInsolvent(_) => {
                let max_close = match mul_div_floor(close_factor, borrow_amount, WAD) {
                    None => {
                        // unreachable: the close factor is a WAD fraction
                        proof {
                            crate::math::lemma_scale_down(
                                borrow_amount as int,
                                close_factor as int,
                            );
                            assert(false);
                        }
                        return Liquidation::NotAllowed;
                    },
                    Some(v) => v,
                };
                if repay_amount > max_close {
                    Liquidation::AllowedButTooMuch
                } else {
                    Liquidation::Allowed
                }
            },
        }
    }
}

/// Markets of a controller after writing entry `e` under key `m`: every
/// invariant of `wf` that quantifies over market entries still holds when
/// the new entry is well formed, keyed by its market, and carries the
/// market's collateral sum.
proof fn lemma_entries_after_set(c0: Controller, c1: Controller, m: u64, e: MarketEntry)
    requires
        c0.wf(),
        c1.markets.wf(),
        e.market == m,
        e.wf(),
        e.total_collateral_tokens == sum_collateral(c1.collaterals@, m),
        count_batches(c0.batches@, m) <= e.max_rewards_batches,
        forall|j: int|
            0 <= j < c0.batches.len() && (#[trigger] c0.batches[j]).money_market == m
                ==> c0.batches[j].id < e.next_batch_id,
        c1.batches == c0.batches,
        c1.markets.lookup(m, 0, 0) == Some(e),
        forall|x: u64, y: u64, z: u64|
            !(x == m && y == 0 && z == 0) ==> #[trigger] c1.markets.lookup(x, y, z)
                == c0.markets.lookup(x, y, z),
        c1.collaterals == c0.collaterals,
        c1.memberships == c0.memberships,
        c1.account_rewards == c0.account_rewards,
        c1.batch_indexes == c0.batch_indexes,
        c1.undistributed == c0.undistributed,
        c1.max_markets_per_account == c0.max_markets_per_account,
        c1.max_slippage == c0.max_slippage,
    ensures
        c1.wf(),
{
    assert forall|i: int| 0 <= i < c1.collaterals.len() implies c1.whitelisted(
        (#[trigger] c1.collaterals[i]).market,
    ) by {
        let x = c1.collaterals[i].market;
        assert(c0.whitelisted(x));
        if x != m {
            assert(c1.markets.lookup(x, 0, 0) == c0.markets.lookup(x, 0, 0));
            assert(c0.markets.lookup(x, 0, 0) is Some);
        }
        assert(c1.markets.lookup(x, 0, 0) is Some);
    }
    assert forall|i: int| 0 <= i < c1.batches.len() implies c1.whitelisted(
        (#[trigger] c1.batches[i]).money_market,
    ) by {
        let x = c1.batches[i].money_market;
        assert(c0.whitelisted(x));
        if x != m {
            assert(c1.markets.lookup(x, 0, 0) == c0.markets.lookup(x, 0, 0));
            assert(c0.markets.lookup(x, 0, 0) is Some);
        }
        assert(c1.markets.lookup(x, 0, 0) is Some);
    }
    assert forall|i: int| 0 <= i < c1.markets.entries.len() implies has_key(
        #[trigger] c1.markets.entries[i],
        c1.markets.entries[i].val.market,
        0,
        0,
    ) && c1.markets.entries[i].val.wf() && c1.markets.entries[i].val.total_collateral_tokens
        == sum_collateral(c1.collaterals@, c1.markets.entries[i].val.market) && count_batches(
        c1.batches@,
        c1.markets.entries[i].val.market,
    ) <= c1.markets.entries[i].val.max_rewards_batches && (forall|j: int|
        0 <= j < c1.batches.len() && (#[trigger] c1.batches[j]).money_market
            == c1.markets.entries[i].val.market ==> c1.batches[j].id
            < c1.markets.entries[i].val.next_batch_id) by {
        let en = c1.markets.entries[i];
        c1.markets.lemma_lookup_at(en.k1, en.k2, en.k3, i);
        if en.k1 == m && en.k2 == 0 && en.k3 == 0 {
            assert(en.val == e);
        } else {
            assert(c1.markets.lookup(en.k1, en.k2, en.k3) == c0.markets.lookup(en.k1, en.k2, en.k3));
            assert(c0.markets.contains_key(en.k1, en.k2, en.k3));
            let j = choose|p: int|
                0 <= p < c0.markets.entries.len() && has_key(
                    #[trigger] c0.markets.entries[p],
                    en.k1,
                    en.k2,
                    en.k3,
                );
            c0.markets.lemma_lookup_at(en.k1, en.k2, en.k3, j);
            assert(c0.markets.entries[j].val == en.val);
            assert(has_key(c0.markets.entries[j], c0.markets.entries[j].val.market, 0, 0));
        }
    }
}

/// After a collateral write, the per-account balances and the written
/// market's total line up again.
proof fn lemma_collateral_write(
    c0: Controller,
    c1: Controller,
    m: u64,
    a: u64,
    new_tokens: u128,
    e: MarketEntry,
)
    requires
        c0.wf(),
        c0.whitelisted(m),
        c1.markets.wf(),
        e.market == m,
        e.wf(),
        e.total_collateral_tokens == c0.markets.lookup(m, 0, 0).unwrap().total_collateral_tokens
            - spec_collateral(c0.collaterals@, m, a) + new_tokens,
        e.max_rewards_batches == c0.markets.lookup(m, 0, 0).unwrap().max_rewards_batches,
        e.next_batch_id == c0.markets.lookup(m, 0, 0).unwrap().next_batch_id,
        c1.batches == c0.batches,
        c1.markets.lookup(m, 0, 0) == Some(e),
        forall|x: u64, y: u64, z: u64|
            !(x == m && y == 0 && z == 0) ==> #[trigger] c1.markets.lookup(x, y, z)
                == c0.markets.lookup(x, y, z),
        spec_collateral_present(c0.collaterals@, m, a) ==> c1.collaterals@
            == c0.collaterals@.update(
            spec_collateral_index(c0.collaterals@, m, a),
            CollateralEntry { market: m, account: a, tokens: new_tokens },
        ),
        !spec_collateral_present(c0.collaterals@, m, a) ==> c1.collaterals@
            == c0.collaterals@.push(CollateralEntry { market: m, account: a, tokens: new_tokens }),
        c1.memberships == c0.memberships,
        c1.account_rewards == c0.account_rewards,
        c1.batch_indexes == c0.batch_indexes,
        c1.undistributed == c0.undistributed,
        c1.max_markets_per_account == c0.max_markets_per_account,
        c1.max_slippage == c0.max_slippage,
    ensures
        c1.wf(),
        spec_collateral(c1.collaterals@, m, a) == new_tokens,
        forall|m2: u64, a2: u64|
            !(m2 == m && a2 == a) ==> #[trigger] spec_collateral(c1.collaterals@, m2, a2)
                == spec_collateral(c0.collaterals@, m2, a2),
{
    let s0 = c0.collaterals@;
    let s1 = c1.collaterals@;
    let en = CollateralEntry { market: m, account: a, tokens: new_tokens };
    if spec_collateral_present(s0, m, a) {
        let i = spec_collateral_index(s0, m, a);
        lemma_collateral_at(s0, i, m, a);
        assert(s1 == s0.update(i, en));
        assert forall|m2: u64|
            sum_collateral(s1, m2) == sum_collateral(s0, m2) - col_contrib(s0[i], m2)
                + col_contrib(en, m2) by {
            lemma_sum_update(s0, i, en, m2);
        }
        assert(s1[i] == en);
        assert forall|p: int, q: int| 0 <= p < q < s1.len() implies !((
        #[trigger] s1[p]).market == (#[trigger] s1[q]).market && s1[p].account == s1[q].account) by {
            assert(!((s0[p]).market == (s0[q]).market && s0[p].account == s0[q].account));
        }
        lemma_collateral_at(s1, i, m, a);
        assert forall|m2: u64, a2: u64| !(m2 == m && a2 == a) implies #[trigger] spec_collateral(
            s1,
            m2,
            a2,
        ) == spec_collateral(s0, m2, a2) by {
            lemma_collateral_unrelated(s0, s1, i, m2, a2);
        }
    } else {
        let n = s0.len() as int;
        assert(s1 == s0.push(en));
        assert forall|m2: u64|
            sum_collateral(s1, m2) == sum_collateral(s0, m2) + col_contrib(en, m2) by {
            lemma_sum_push(s0, en, m2);
        }
        assert(spec_collateral(s0, m, a) == 0);
        assert(s1[n] == en);
        assert forall|p: int, q: int| 0 <= p < q < s1.len() implies !((
        #[trigger] s1[p]).market == (#[trigger] s1[q]).market && s1[p].account == s1[q].account) by {
            if q < n {
                assert(!((s0[p]).market == (s0[q]).market && s0[p].account == s0[q].account));
            } else {
                assert(s1[q] == en);
                assert(!(s0[p].market == m && s0[p].account == a));
            }
        }
        lemma_collateral_at(s1, n, m, a);
        assert forall|m2: u64, a2: u64| !(m2 == m && a2 == a) implies #[trigger] spec_collateral(
            s1,
            m2,
            a2,
        ) == spec_collateral(s0, m2, a2) by {
            lemma_collateral_unrelated(s0, s1, n, m2, a2);
        }
    }
    assert forall|i: int| 0 <= i < c1.collaterals.len() implies c1.whitelisted(
        (#[trigger] c1.collaterals[i]).market,
    ) by {
        let x = c1.collaterals[i].market;
        if x != m {
            assert(c0.whitelisted(x));
            assert(c1.markets.lookup(x, 0, 0) == c0.markets.lookup(x, 0, 0));
            assert(c0.markets.lookup(x, 0, 0) is Some);
        }
        assert(c1.markets.lookup(x, 0, 0) is Some);
    }
    assert forall|i: int| 0 <= i < c1.batches.len() implies c1.whitelisted(
        (#[trigger] c1.batches[i]).money_market,
    ) by {
        let x = c1.batches[i].money_market;
        if x != m {
            assert(c0.whitelisted(x));
            assert(c1.markets.lookup(x, 0, 0) == c0.markets.lookup(x, 0, 0));
            assert(c0.markets.lookup(x, 0, 0) is Some);
        }
        assert(c1.markets.lookup(x, 0, 0) is Some);
    }
    assert forall|i: int| 0 <= i < c1.markets.entries.len() implies has_key(
        #[trigger] c1.markets.entries[i],
        c1.markets.entries[i].val.market,
        0,
        0,
    ) && c1.markets.entries[i].val.wf() && c1.markets.entries[i].val.total_collateral_tokens
        == sum_collateral(c1.collaterals@, c1.markets.entries[i].val.market) && count_batches(
        c1.batches@,
        c1.markets.entries[i].val.market,
    ) <= c1.markets.entries[i].val.max_rewards_batches && (forall|j: int|
        0 <= j < c1.batches.len() && (#[trigger] c1.batches[j]).money_market
            == c1.markets.entries[i].val.market ==> c1.batches[j].id
            < c1.markets.entries[i].val.next_batch_id) by {
        let enm = c1.markets.entries[i];
        c1.markets.lemma_lookup_at(enm.k1, enm.k2, enm.k3, i);
        if enm.k1 == m && enm.k2 == 0 && enm.k3 == 0 {
            assert(enm.val == e);
            assert(col_contrib(en, m) == new_tokens);
        } else {
            assert(c1.markets.lookup(enm.k1, enm.k2, enm.k3) == c0.markets.lookup(
                enm.k1,
                enm.k2,
                enm.k3,
            ));
            assert(c0.markets.contains_key(enm.k1, enm.k2, enm.k3));
            let j = choose|p: int|
                0 <= p < c0.markets.entries.len() && has_key(
                    #[trigger] c0.markets.entries[p],
                    enm.k1,
                    enm.k2,
                    enm.k3,
                );
            c0.markets.lemma_lookup_at(enm.k1, enm.k2, enm.k3, j);
            assert(c0.markets.entries[j].val == enm.val);
            assert(has_key(c0.markets.entries[j], c0.markets.entries[j].val.market, 0, 0));
            assert(enm.val.market == enm.k1);
            assert(enm.val.market != m);
            if spec_collateral_present(s0, m, a) {
                let i0 = spec_collateral_index(s0, m, a);
                assert(col_contrib(s0[i0], enm.val.market) == 0);
                assert(col_contrib(en, enm.val.market) == 0);
            } else {
                assert(col_contrib(en, enm.val.market) == 0);
            }
        }
    }
}

/// Whether a collateral entry for `(m, a)` exists.
pub open spec fn spec_collateral_present(s: Seq<CollateralEntry>, m: u64, a: u64) -> bool {
    exists|i: int| 0 <= i < s.len() && (#[trigger] s[i]).market == m && s[i].account == a
}

/// The index of the collateral entry for `(m, a)`.
pub open spec fn spec_collateral_index(s: Seq<CollateralEntry>, m: u64, a: u64) -> int {
    choose|i: int| 0 <= i < s.len() && (#[trigger] s[i]).market == m && s[i].account == a
}

/// An entry at index `i` for `(m, a)` decides the collateral lookup, when
/// keys are unique.
proof fn lemma_collateral_at(s: Seq<CollateralEntry>, i: int, m: u64, a: u64)
    requires
        forall|p: int, q: int|
            0 <= p < q < s.len() ==> !((#[trigger] s[p]).market == (#[trigger] s[q]).market
                && s[p].account == s[q].account),
        0 <= i < s.len(),
        s[i].market == m,
        s[i].account == a,
    ensures
        spec_collateral(s, m, a) == s[i].tokens,
        spec_collateral_index(s, m, a) == i,
{
    assert(spec_collateral_present(s, m, a));
    let j = spec_collateral_index(s, m, a);
    assert(0 <= j < s.len() && s[j].market == m && s[j].account == a);
    if i < j {
        assert(!((s[i]).market == (s[j]).market && s[i].account == s[j].account));
        assert(false);
    } else if j < i {
        assert(!((s[j]).market == (s[i]).market && s[j].account == s[i].account));
        assert(false);
    }
}

/// A lookup of another `(market, account)` pair is unchanged by a write at
/// index `i`.
proof fn lemma_collateral_unrelated(
    s0: Seq<CollateralEntry>,
    s1: Seq<CollateralEntry>,
    i: int,
    m2: u64,
    a2: u64,
)
    requires
        forall|p: int, q: int|
            0 <= p < q < s0.len() ==> !((#[trigger] s0[p]).market == (#[trigger] s0[q]).market
                && s0[p].account == s0[q].account),
        forall|p: int, q: int|
            0 <= p < q < s1.len() ==> !((#[trigger] s1[p]).market == (#[trigger] s1[q]).market
                && s1[p].account == s1[q].account),
        0 <= i < s1.len(),
        s0.len() == s1.len() || s0.len() + 1 == s1.len(),
        s0.len() + 1 == s1.len() ==> i == s0.len(),
        forall|j: int| 0 <= j < s0.len() && j != i ==> #[trigger] s1[j] == s0[j],
        !(s1[i].market == m2 && s1[i].account == a2),
        s0.len() == s1.len() ==> !(s0[i].market == m2 && s0[i].account == a2),
    ensures
        spec_collateral(s1, m2, a2) == spec_collateral(s0, m2, a2),
{
    if spec_collateral_present(s0, m2, a2) {
        let j = spec_collateral_index(s0, m2, a2);
        assert(0 <= j < s0.len() && s0[j].market == m2 && s0[j].account == a2);
        lemma_collateral_at(s0, j, m2, a2);
        assert(j != i);
        lemma_collateral_at(s1, j, m2, a2);
    } else {
        if spec_collateral_present(s1, m2, a2) {
            let j = choose|p: int|
                0 <= p < s1.len() && (#[trigger] s1[p]).market == m2 && s1[p].account == a2;
            assert(j != i);
            assert(j < s0.len());
            assert(s0[j] == s1[j]);
            assert(spec_collateral_present(s0, m2, a2));
        }
    }
}

/// When no entry mentions market `m`, its collateral sum is zero.
proof fn lemma_sum_absent(s: Seq<CollateralEntry>, m: u64, c: Controller)
    requires
        c.wf(),
        s == c.collaterals@,
        !c.whitelisted(m),
    ensures
        sum_collateral(s, m) == 0,
{
    assert forall|i: int| 0 <= i < s.len() implies (#[trigger] s[i]).market != m by {
        assert(c.whitelisted(c.collaterals[i].market));
    }
    lemma_sum_absent_inner(s, m);
}

/// A market outside the whitelist has no rewards batches.
proof fn lemma_count_batches_absent(c: Controller, m: u64)
    requires
        c.wf(),
        !c.whitelisted(m),
    ensures
        count_batches(c.batches@, m) == 0,
{
    assert forall|i: int| 0 <= i < c.batches@.len() implies (#[trigger] c.batches@[i]).money_market
        != m by {
        assert(c.whitelisted(c.batches[i].money_market));
    }
    lemma_count_batches_absent_inner(c.batches@, m);
}

/// Count over a market no batch mentions.
proof fn lemma_count_batches_absent_inner(s: Seq<RewardsBatch>, m: u64)
    requires
        forall|i: int| 0 <= i < s.len() ==> (#[trigger] s[i]).money_market != m,
    ensures
        count_batches(s, m) == 0,
    decreases s.len(),
{
    if s.len() > 0 {
        assert(forall|i: int|
            0 <= i < s.drop_last().len() ==> (#[trigger] s.drop_last()[i]).money_market != m);
        lemma_count_batches_absent_inner(s.drop_last(), m);
    }
}

/// Sum over a market no entry mentions.
proof fn lemma_sum_absent_inner(s: Seq<CollateralEntry>, m: u64)
    requires
        forall|i: int| 0 <= i < s.len() ==> (#[trigger] s[i]).market != m,
    ensures
        sum_collateral(s, m) == 0,
    decreases s.len(),
{
    if s.len() > 0 {
        assert(forall|i: int|
            0 <= i < s.drop_last().len() ==> (#[trigger] s.drop_last()[i]).market != m);
        lemma_sum_absent_inner(s.drop_last(), m);
    }
}

/// Any single entry's contribution is at most the whole sum.
proof fn lemma_sum_ge_entry(s: Seq<CollateralEntry>, i: int, m: u64)
    requires
        0 <= i < s.len(),
    ensures
        sum_collateral(s, m) >= col_contrib(s[i], m),
        sum_collateral(s, m) >= 0,
    decreases s.len(),
{
    lemma_sum_nonneg(s, m);
    if i == s.len() - 1 {
        lemma_sum_nonneg(s.drop_last(), m);
    } else {
        lemma_sum_ge_entry(s.drop_last(), i, m);
    }
}

/// Collateral sums are never negative.
proof fn lemma_sum_nonneg(s: Seq<CollateralEntry>, m: u64)
    ensures
        sum_collateral(s, m) >= 0,
    decreases s.len(),
{
    if s.len() > 0 {
        lemma_sum_nonneg(s.drop_last(), m);
    }
}

/// Updating one collateral entry moves every market sum by the change of
/// that entry's contribution.
proof fn lemma_sum_update(s: Seq<CollateralEntry>, i: int, e: CollateralEntry, m: u64)
    requires
        0 <= i < s.len(),
    ensures
        sum_collateral(s.update(i, e), m) == sum_collateral(s, m) - col_contrib(s[i], m)
            + col_contrib(e, m),
    decreases s.len(),
{
    let t = s.update(i, e);
    if i == s.len() - 1 {
        assert(t.drop_last() =~= s.drop_last());
    } else {
        assert(t.drop_last() =~= s.drop_last().update(i, e));
        lemma_sum_update(s.drop_last(), i, e, m);
    }
}

/// Appending a collateral entry adds its contribution to every market sum.
proof fn lemma_sum_push(s: Seq<CollateralEntry>, e: CollateralEntry, m: u64)
    ensures
        sum_collateral(s.push(e), m) == sum_collateral(s, m) + col_contrib(e, m),
{
    assert(s.push(e).drop_last() =~= s);
}

/// Adding a membership raises only that account's count.
proof fn lemma_count_push(s: Seq<Membership>, e: Membership, a: u64)
    ensures
        count_memberships(s.push(e), a) == count_memberships(s, a) + member_contrib(e, a),
        markets_of(s.push(e), a) == (if e.account == a {
            markets_of(s, a).push(e.market)
        } else {
            markets_of(s, a)
        }),
{
    assert(s.push(e).drop_last() =~= s);
}

/// Removing a membership lowers only that account's count.
proof fn lemma_count_remove(s: Seq<Membership>, i: int, a: u64)
    requires
        0 <= i < s.len(),
    ensures
        count_memberships(s.remove(i), a) == count_memberships(s, a) - member_contrib(s[i], a),
    decreases s.len(),
{
    if i == s.len() - 1 {
        assert(s.remove(i) =~= s.drop_last());
    } else {
        assert(s.remove(i).drop_last() =~= s.drop_last().remove(i));
        lemma_count_remove(s.drop_last(), i, a);
        assert(s.remove(i).last() == s.last());
    }
}

} // verus!
