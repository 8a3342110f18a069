//! The transaction-level entry points: each composes interest accrual,
//! the controller's policy gates and the market mutation in the mandatory
//! order, and fails as a whole when any gate refuses.
//!
//! Markets are identified by their position in the market list; the
//! stablecoin market stands apart under its own identifier. Oracle prices
//! are the ones previously pushed into the controller.

use crate::controller::{is_member, spec_collateral, AccountSnapshot, Controller, StorageModule};
use crate::errors::Error;
use crate::math::WAD;
use crate::market::{
    BorrowModule, Market, MintModule, MoneyMarket, RedeemModule, RepayBorrowModule, SeizeModule,
    MIN_INITIAL_SUPPLY,
};
use crate::policies::PolicyModule;
use crate::rewards::RewardsModule;
use crate::ush_market::{
    spec_update_decision, spec_ush_accrue, CommonsModule, DiscountStrategy, InteractionType,
    ObserverModule, State as UshState, UshMarket, UshMoneyMarket,
};
use vstd::prelude::*;

verus! {

/// Gathers the account's debt and exchange-rate snapshots from every
/// market it is in, in membership order — the data the risk simulation
/// walks. The stablecoin market answers for its own identifier; every
/// other identifier indexes the market list.
pub fn collect_account_snapshots(
    ctl: &Controller,
    markets: &Vec<Market>,
    ush: &UshMarket,
    ush_id: u64,
    account: u64,
) -> (r: Result<Vec<AccountSnapshot>, Error>)
    requires
        ctl.wf(),
        forall|i: int| #![auto] 0 <= i < markets@.len() ==> markets@[i].wf(),
        ush.wf(),
    ensures
        match r {
            Ok(snaps) => forall|i: int|
                0 <= i < snaps@.len() ==> ctl.whitelisted((#[trigger] snaps@[i]).money_market),
            Err(e) => true,
        },
{
    let mut snaps: Vec<AccountSnapshot> = Vec::new();
    let mut i: usize = 0;
    while i < ctl.memberships.len()
        invariant
            ctl.wf(),
            forall|k: int| #![auto] 0 <= k < markets@.len() ==> markets@[k].wf(),
            ush.wf(),
            i <= ctl.memberships@.len(),
            forall|k: int|
                0 <= k < snaps@.len() ==> ctl.whitelisted((#[trigger] snaps@[k]).money_market),
        decreases ctl.memberships@.len() - i,
    {
        let e = ctl.memberships[i];
        if e.account == account {
            if !ctl.is_whitelisted_money_market(e.market) {
                return Err(Error::NotWhitelisted);
            }
            if e.market == ush_id {
                let owed = match ush.stored_account_borrow_amount(account) {
                    Err(err) => { return Err(err) },
                    Ok(v) => v,
                };
                let fx = ush.get_exchange_rate();
                snaps.push(
                    AccountSnapshot {
                        money_market: e.market,
                        underlying_owed_amount: owed,
                        fx,
                    },
                );
            } else {
                if e.market >= markets.len() as u64 {
                    return Err(Error::NotWhitelisted);
                }
                let mkt = &markets[e.market as usize];
                let snap = match mkt.get_account_snapshot(account) {
                    Err(err) => { return Err(err) },
                    Ok(v) => v,
                };
                snaps.push(
                    AccountSnapshot {
                        money_market: e.market,
                        underlying_owed_amount: snap.0,
                        fx: snap.1,
                    },
                );
            }
        }
        i = i + 1;
    }
    Ok(snaps)
}

/// Supplies underlying: accrues, asks the mint policy, then mints share
/// tokens at the post-accrual exchange rate. Returns the minted tokens.
pub fn mint(
    ctl: &Controller,
    market: &mut Market,
    market_id: u64,
    amount: u128,
    now: u64,
) -> (r: Result<u128, Error>)
    requires
        ctl.wf(),
        old(market).wf(),
        now >= old(market).accrual_timestamp,
    ensures
        final(market).wf(),
        match r {
            Ok(tokens) => {
                let m1 = crate::market::spec_accrue(*old(market), now);
                {
                    &&& ctl.whitelisted(market_id)
                    &&& crate::market::spec_mint(m1, amount, now).0 == Ok::<u128, Error>(tokens)
                    &&& *final(market) == crate::market::spec_mint(m1, amount, now).1
                }
            },
            Err(e) => true,
        },
{
    market.accrue_interest(now)?;
    let liquidity = market.get_liquidity();
    let allowed = ctl.mint_allowed(market_id, amount, liquidity)?;
    if !allowed {
        return Err(Error::InvalidConfiguration);
    }
    market.mint(amount, now)
}

/// Supplies underlying and deposits the minted share tokens as
/// collateral in one transaction.
pub fn mint_and_enter_market(
    ctl: &mut Controller,
    market: &mut Market,
    market_id: u64,
    account: u64,
    amount: u128,
    now: u64,
) -> (r: Result<u128, Error>)
    requires
        old(ctl).wf(),
        old(market).wf(),
        now >= old(market).accrual_timestamp,
    ensures
        final(ctl).wf(),
        final(market).wf(),
        match r {
            Ok(tokens) => {
                let m1 = crate::market::spec_accrue(*old(market), now);
                {
                    &&& old(ctl).whitelisted(market_id)
                    &&& crate::market::spec_mint(m1, amount, now).0 == Ok::<u128, Error>(tokens)
                    &&& *final(market) == crate::market::spec_mint(m1, amount, now).1
                    &&& is_member(final(ctl).memberships@, account, market_id)
                    &&& spec_collateral(final(ctl).collaterals@, market_id, account)
                        == spec_collateral(old(ctl).collaterals@, market_id, account) + tokens
                }
            },
            Err(e) => true,
        },
{
    market.accrue_interest(now)?;
    let liquidity = market.get_liquidity();
    let allowed = ctl.mint_allowed(market_id, amount, liquidity)?;
    if !allowed {
        return Err(Error::InvalidConfiguration);
    }
    // confirm the account can enter before minting, so a refused entry
    // leaves no half-done deposit
    if !ctl.account_in_market(account, market_id) {
        let n = ctl.count_account_markets(account);
        if n >= ctl.get_max_markets_per_account() {
            return Err(Error::CapExceeded);
        }
    }
    let tokens = market.mint(amount, now)?;
    ctl.update_supply_rewards_batches_state(market_id, now)?;
    ctl.distribute_supplier_batches_rewards(market_id, account)?;
    ctl.enter_market(market_id, account, tokens)?;
    Ok(tokens)
}

/// Takes a borrow: accrues, enters the borrower into the market on the
/// market's behalf if needed, asks the borrow policy with fresh
/// snapshots, and pays the loan out of the market's cash.
pub fn borrow(
    ctl: &mut Controller,
    markets: &mut Vec<Market>,
    market_id: u64,
    ush: &UshMarket,
    ush_id: u64,
    borrower: u64,
    amount: u128,
    now: u64,
) -> (r: Result<u128, Error>)
    requires
        old(ctl).wf(),
        forall|i: int| #![auto] 0 <= i < old(markets)@.len() ==> old(markets)@[i].wf(),
        ush.wf(),
        (market_id as int) < old(markets)@.len(),
        now >= old(markets)@[market_id as int].accrual_timestamp,
    ensures
        final(ctl).wf(),
        forall|i: int| #![auto] 0 <= i < final(markets)@.len() ==> final(markets)@[i].wf(),
        final(markets)@.len() == old(markets)@.len(),
        match r {
            Ok(granted) => {
                let m1 = crate::market::spec_accrue(old(markets)@[market_id as int], now);
                {
                    &&& crate::market::spec_borrow_check(m1, borrower, amount, now) == Ok::<
                        u128,
                        Error,
                    >(granted)
                    &&& final(markets)@[market_id as int].cash == m1.cash - amount
                    &&& final(markets)@[market_id as int].total_borrows == m1.total_borrows
                        + amount
                    &&& (forall|i: int| #![auto]
                        0 <= i < final(markets)@.len() && i != market_id as int ==> final(markets)@[i] == old(markets)@[i])
                    &&& is_member(final(ctl).memberships@, borrower, market_id)
                }
            },
            Err(e) => true,
        },
{
    if market_id >= markets.len() as u64 {
        return Err(Error::NotWhitelisted);
    }
    let idx = market_id as usize;
    proof {
        assert(idx as int == market_id as int);
        assert(old(markets)@[idx as int].wf());
    }
    let mut mkt = markets.remove(idx);
    let ghost ms0 = markets@;
    let outcome = borrow_inner(ctl, &mut mkt, markets, market_id, ush, ush_id, borrower, amount, now);
    markets.insert(idx, mkt);
    proof {
        assert forall|i: int| #![auto] 0 <= i < markets@.len() implies markets@[i].wf() by {
            if i < idx as int {
                assert(markets@[i] == ms0[i]);
            } else if i > idx as int {
                assert(markets@[i] == ms0[i - 1]);
            }
        }
    }
    outcome
}

/// The borrow steps against a market taken out of the list, so the risk
/// walk can still read the remaining markets.
fn borrow_inner(
    ctl: &mut Controller,
    mkt: &mut Market,
    markets: &Vec<Market>,
    market_id: u64,
    ush: &UshMarket,
    ush_id: u64,
    borrower: u64,
    amount: u128,
    now: u64,
) -> (r: Result<u128, Error>)
    requires
        old(ctl).wf(),
        old(mkt).wf(),
        forall|i: int| #![auto] 0 <= i < markets@.len() ==> markets@[i].wf(),
        ush.wf(),
        now >= old(mkt).accrual_timestamp,
    ensures
        final(ctl).wf(),
        final(mkt).wf(),
        match r {
            Ok(granted) => {
                let m1 = crate::market::spec_accrue(*old(mkt), now);
                {
                    &&& crate::market::spec_borrow_check(m1, borrower, amount, now) == Ok::<
                        u128,
                        Error,
                    >(granted)
                    &&& final(mkt).cash == m1.cash - amount
                    &&& final(mkt).total_borrows == m1.total_borrows + amount
                    &&& is_member(final(ctl).memberships@, borrower, market_id)
                }
            },
            Err(e) => true,
        },
{
    mkt.accrue_interest(now)?;
    if !ctl.account_in_market(borrower, market_id) {
        // the market enters the borrower itself, with no collateral, so
        // the risk walk covers the new debt position
        ctl.enter_market(market_id, borrower, 0)?;
    }
    let snaps = collect_account_snapshots_with(ctl, markets, mkt, market_id, ush, ush_id, borrower)?;
    let base_total = mkt.get_base_total_borrows()?;
    let base_account = mkt.base_account_borrow_amount(borrower)?;
    let total_borrows = mkt.current_total_borrows(now)?;
    let allowed = ctl.borrow_allowed(
        market_id,
        borrower,
        amount,
        total_borrows,
        base_total,
        base_account,
        &snaps,
        now,
    )?;
    if !allowed {
        return Err(Error::RiskyOrInsolvent);
    }
    mkt.borrow(borrower, amount, now)
}

/// Gathers snapshots when one market is held apart from the list under
/// its own identifier.
fn collect_account_snapshots_with(
    ctl: &Controller,
    markets: &Vec<Market>,
    held: &Market,
    held_id: u64,
    ush: &UshMarket,
    ush_id: u64,
    account: u64,
) -> (r: Result<Vec<AccountSnapshot>, Error>)
    requires
        ctl.wf(),
        forall|i: int| #![auto] 0 <= i < markets@.len() ==> markets@[i].wf(),
        held.wf(),
        ush.wf(),
    ensures
        match r {
            Ok(snaps) => forall|i: int|
                0 <= i < snaps@.len() ==> ctl.whitelisted((#[trigger] snaps@[i]).money_market),
            Err(e) => true,
        },
{
    let mut snaps: Vec<AccountSnapshot> = Vec::new();
    let mut i: usize = 0;
    while i < ctl.memberships.len()
        invariant
            ctl.wf(),
            forall|k: int| #![auto] 0 <= k < markets@.len() ==> markets@[k].wf(),
            held.wf(),
            ush.wf(),
            i <= ctl.memberships@.len(),
            forall|k: int|
                0 <= k < snaps@.len() ==> ctl.whitelisted((#[trigger] snaps@[k]).money_market),
        decreases ctl.memberships@.len() - i,
    {
        let e = ctl.memberships[i];
        if e.account == account {
            if !ctl.is_whitelisted_money_market(e.market) {
                return Err(Error::NotWhitelisted);
            }
            let owed: u128;
            let fx: u128;
            if e.market == held_id {
                let snap = match held.get_account_snapshot(account) {
                    Err(err) => { return Err(err) },
                    Ok(v) => v,
                };
                owed = snap.0;
                fx = snap.1;
            } else if e.market == ush_id {
                owed = match ush.stored_account_borrow_amount(account) {
                    Err(err) => { return Err(err) },
                    Ok(v) => v,
                };
                fx = ush.get_exchange_rate();
            } else {
                if e.market >= markets.len() as u64 {
                    return Err(Error::NotWhitelisted);
                }
                let snap = match markets[e.market as usize].get_account_snapshot(account) {
                    Err(err) => { return Err(err) },
                    Ok(v) => v,
                };
                owed = snap.0;
                fx = snap.1;
            }
            snaps.push(AccountSnapshot { money_market: e.market, underlying_owed_amount: owed, fx });
        }
        i = i + 1;
    }
    Ok(snaps)
}

/// Repays a borrow: accrues, notifies the policy so rewards catch up,
/// repays up to the debt, and drops the borrower from the market when
/// nothing remains. Returns `(repaid, refund, new_borrow)`.
pub fn repay_borrow(
    ctl: &mut Controller,
    market: &mut Market,
    market_id: u64,
    borrower: u64,
    payment: u128,
    now: u64,
) -> (r: Result<(u128, u128, u128), Error>)
    requires
        old(ctl).wf(),
        old(market).wf(),
        now >= old(market).accrual_timestamp,
    ensures
        final(ctl).wf(),
        final(market).wf(),
        match r {
            Ok(out) => {
                let m1 = crate::market::spec_accrue(*old(market), now);
                {
                    &&& crate::market::spec_repay_check(m1, borrower, payment, now) == Ok::<
                        (u128, u128, u128),
                        Error,
                    >(out)
                    &&& (out.2 == 0 && spec_collateral(
                        old(ctl).collaterals@,
                        market_id,
                        borrower,
                    ) == 0 ==> !is_member(final(ctl).memberships@, borrower, market_id))
                    &&& (!(out.2 == 0 && spec_collateral(
                        old(ctl).collaterals@,
                        market_id,
                        borrower,
                    ) == 0) ==> final(ctl).memberships == old(ctl).memberships)
                }
            },
            Err(e) => true,
        },
{
    market.accrue_interest(now)?;
    let base_total = market.get_base_total_borrows()?;
    let base_account = market.base_account_borrow_amount(borrower)?;
    let allowed = ctl.repay_borrow_allowed(market_id, borrower, base_total, base_account, now)?;
    if !allowed {
        return Err(Error::NotWhitelisted);
    }
    let out = market.repay_borrow(borrower, payment, now)?;
    ctl.remove_account_market(market_id, borrower, out.2);
    Ok(out)
}

/// Withdraws collateral and redeems it: the risk gate confirms the
/// account stays solvent, the collateral leaves the controller, and the
/// market pays the underlying out. Returns the underlying paid.
pub fn exit_market_and_redeem(
    ctl: &mut Controller,
    markets: &mut Vec<Market>,
    market_id: u64,
    ush: &UshMarket,
    ush_id: u64,
    redeemer: u64,
    tokens: u128,
    now: u64,
) -> (r: Result<u128, Error>)
    requires
        old(ctl).wf(),
        forall|i: int| #![auto] 0 <= i < old(markets)@.len() ==> old(markets)@[i].wf(),
        ush.wf(),
        (market_id as int) < old(markets)@.len(),
        now >= old(markets)@[market_id as int].accrual_timestamp,
        tokens <= old(markets)@[market_id as int].total_supply - MIN_INITIAL_SUPPLY,
    ensures
        final(ctl).wf(),
        forall|i: int| #![auto] 0 <= i < final(markets)@.len() ==> final(markets)@[i].wf(),
        final(markets)@.len() == old(markets)@.len(),
        match r {
            Ok(paid) => {
                let m1 = crate::market::spec_accrue(old(markets)@[market_id as int], now);
                {
                    &&& crate::market::spec_redeem_tokens(m1, tokens, now).0 == Ok::<
                        u128,
                        Error,
                    >(paid)
                    &&& final(markets)@[market_id as int] == crate::market::spec_redeem_tokens(
                        m1,
                        tokens,
                        now,
                    ).1
                    &&& (forall|i: int| #![auto]
                        0 <= i < final(markets)@.len() && i != market_id as int ==> final(markets)@[i] == old(markets)@[i])
                    &&& tokens <= spec_collateral(old(ctl).collaterals@, market_id, redeemer)
                    &&& spec_collateral(final(ctl).collaterals@, market_id, redeemer)
                        == spec_collateral(old(ctl).collaterals@, market_id, redeemer) - tokens
                    &&& (spec_collateral(old(ctl).collaterals@, market_id, redeemer) == tokens
                        && crate::market::spec_account_borrow(m1, redeemer) == 0 ==> !is_member(
                        final(ctl).memberships@,
                        redeemer,
                        market_id,
                    ))
                }
            },
            Err(e) => true,
        },
{
    if market_id >= markets.len() as u64 {
        return Err(Error::NotWhitelisted);
    }
    let idx = market_id as usize;
    proof {
        assert(idx as int == market_id as int);
        assert(old(markets)@[idx as int].wf());
    }
    let mut mkt = markets.remove(idx);
    let ghost ms0 = markets@;
    let outcome = exit_redeem_inner(ctl, &mut mkt, markets, market_id, ush, ush_id, redeemer, tokens, now);
    markets.insert(idx, mkt);
    proof {
        assert forall|i: int| #![auto] 0 <= i < markets@.len() implies markets@[i].wf() by {
            if i < idx as int {
                assert(markets@[i] == ms0[i]);
            } else if i > idx as int {
                assert(markets@[i] == ms0[i - 1]);
            }
        }
    }
    outcome
}

/// The exit-and-redeem steps against the held market.
fn exit_redeem_inner(
    ctl: &mut Controller,
    mkt: &mut Market,
    markets: &Vec<Market>,
    market_id: u64,
    ush: &UshMarket,
    ush_id: u64,
    redeemer: u64,
    tokens: u128,
    now: u64,
) -> (r: Result<u128, Error>)
    requires
        old(ctl).wf(),
        old(mkt).wf(),
        forall|i: int| #![auto] 0 <= i < markets@.len() ==> markets@[i].wf(),
        ush.wf(),
        now >= old(mkt).accrual_timestamp,
        tokens <= old(mkt).total_supply - MIN_INITIAL_SUPPLY,
    ensures
        final(ctl).wf(),
        final(mkt).wf(),
        match r {
            Ok(paid) => {
                let m1 = crate::market::spec_accrue(*old(mkt), now);
                {
                    &&& crate::market::spec_redeem_tokens(m1, tokens, now).0 == Ok::<
                        u128,
                        Error,
                    >(paid)
                    &&& *final(mkt) == crate::market::spec_redeem_tokens(m1, tokens, now).1
                    &&& tokens <= spec_collateral(old(ctl).collaterals@, market_id, redeemer)
                    &&& spec_collateral(final(ctl).collaterals@, market_id, redeemer)
                        == spec_collateral(old(ctl).collaterals@, market_id, redeemer) - tokens
                    &&& (spec_collateral(old(ctl).collaterals@, market_id, redeemer) == tokens
                        && crate::market::spec_account_borrow(m1, redeemer) == 0 ==> !is_member(
                        final(ctl).memberships@,
                        redeemer,
                        market_id,
                    ))
                }
            },
            Err(e) => true,
        },
{
    mkt.accrue_interest(now)?;
    let snaps = collect_account_snapshots_with(ctl, markets, mkt, market_id, ush, ush_id, redeemer)?;
    let allowed = ctl.redeem_allowed(market_id, redeemer, tokens, &snaps, now)?;
    if !allowed {
        return Err(Error::RiskyOrInsolvent);
    }
    let owed = mkt.stored_account_borrow_amount(redeemer)?;
    let exit = ctl.exit_market(market_id, redeemer, tokens, owed);
    match exit {
        Err(e) => { return Err(e) },
        Ok(_) => {},
    }
    mkt.redeem_tokens(tokens, now)
}


/// Takes a stablecoin borrow: the market must be active and freshly
/// accrued, the borrower enters the market on its behalf if needed, the
/// borrow policy confirms solvency with fresh snapshots, and the debt is
/// rewritten under the updated-rate discount `discount_input`. Returns
/// `(new_borrow, new_total_borrows)`.
pub fn ush_borrow(
    ctl: &mut Controller,
    markets: &Vec<Market>,
    ush: &mut UshMarket,
    ush_id: u64,
    borrower: u64,
    amount: u128,
    discount_input: u128,
    now: u64,
) -> (r: Result<(u128, u128), Error>)
    requires
        old(ctl).wf(),
        forall|i: int| #![auto] 0 <= i < markets@.len() ==> markets@[i].wf(),
        old(ush).wf(),
        now >= old(ush).accrual_timestamp,
        discount_input <= WAD,
    ensures
        final(ctl).wf(),
        final(ush).wf(),
        match r {
            Ok(out) => {
                let m1 = spec_ush_accrue(*old(ush), now);
                let dec = spec_update_decision(m1, borrower, amount, InteractionType::Borrow);
                {
                    &&& old(ush).state == UshState::Active
                    &&& amount > 0
                    &&& out.0 as int == dec.1
                    &&& out.1 as int == dec.2
                    &&& final(ush).total_borrows == dec.2
                    &&& final(ush).snapshots.lookup(borrower, 0, 0) == Some(
                        crate::ush_market::AccountSnapshot {
                            borrow_amount: out.0,
                            borrow_index: m1.borrow_index,
                            discount: discount_input,
                        },
                    )
                    &&& is_member(final(ctl).memberships@, borrower, ush_id)
                }
            },
            Err(e) => true,
        },
{
    if !matches!(ush.state, UshState::Active) {
        return Err(Error::InvalidConfiguration);
    }
    ush.accrue_interest(now)?;
    if amount == 0 {
        return Err(Error::InvalidPayment);
    }
    if !ctl.account_in_market(borrower, ush_id) {
        // the market enters the borrower itself, with no collateral, so
        // the risk walk covers the new debt position
        ctl.enter_market(ush_id, borrower, 0)?;
    }
    let snaps = collect_account_snapshots(ctl, markets, ush, ush_id, borrower)?;
    let base_total = ush.total_principal;
    let base_account = match ush.principals.get(borrower, 0, 0) {
        None => 0,
        Some(v) => v,
    };
    let total_borrows = ush.total_borrows;
    let allowed = ctl.borrow_allowed(
        ush_id,
        borrower,
        amount,
        total_borrows,
        base_total,
        base_account,
        &snaps,
        now,
    )?;
    if !allowed {
        return Err(Error::RiskyOrInsolvent);
    }
    let out = ush.update_borrows_data(
        borrower,
        amount,
        InteractionType::Borrow,
        DiscountStrategy::UpdatedExchangeRate,
        discount_input,
        now,
    )?;
    Ok((out.1, out.2))
}

/// Repays a stablecoin borrow: accrues, notifies the repay policy so
/// borrow-side rewards catch up, rewrites the debt under the
/// updated-rate discount, and drops the borrower from the market when
/// nothing remains. Returns `(repaid, new_borrow, new_total_borrows)`.
pub fn ush_repay_borrow(
    ctl: &mut Controller,
    ush: &mut UshMarket,
    ush_id: u64,
    borrower: u64,
    payment: u128,
    discount_input: u128,
    now: u64,
) -> (r: Result<(u128, u128, u128), Error>)
    requires
        old(ctl).wf(),
        old(ush).wf(),
        now >= old(ush).accrual_timestamp,
        discount_input <= WAD,
    ensures
        final(ctl).wf(),
        final(ush).wf(),
        match r {
            Ok(out) => {
                let m1 = spec_ush_accrue(*old(ush), now);
                let dec = spec_update_decision(
                    m1,
                    borrower,
                    payment,
                    InteractionType::RepayBorrow,
                );
                {
                    &&& out.0 as int == dec.0
                    &&& out.1 as int == dec.1
                    &&& out.2 as int == dec.2
                    &&& final(ush).total_borrows == dec.2
                    &&& (out.1 == 0 && spec_collateral(
                        old(ctl).collaterals@,
                        ush_id,
                        borrower,
                    ) == 0 ==> !is_member(final(ctl).memberships@, borrower, ush_id))
                }
            },
            Err(e) => true,
        },
{
    ush.accrue_interest(now)?;
    let base_total = ush.total_principal;
    let base_account = match ush.principals.get(borrower, 0, 0) {
        None => 0,
        Some(v) => v,
    };
    let allowed = ctl.repay_borrow_allowed(ush_id, borrower, base_total, base_account, now)?;
    if !allowed {
        return Err(Error::NotWhitelisted);
    }
    let out = ush.update_borrows_data(
        borrower,
        payment,
        InteractionType::RepayBorrow,
        DiscountStrategy::UpdatedExchangeRate,
        discount_input,
        now,
    )?;
    ctl.remove_account_market(ush_id, borrower, out.1);
    Ok(out)
}

/// Liquidates a stablecoin borrower: accrues both markets, confirms the
/// borrower is at risk and the repayment within the close factor, repays
/// with the stored discount, sizes the seizure
/// `payment * incentive * p_borrow / (p_collateral * fx)`, moves the
/// collateral out of the borrower's balance and splits it between the
/// liquidator and the protocol's reserves. Returns
/// `(liquidator_tokens, total_seized_tokens)`.
pub fn liquidate_borrow(
    ctl: &mut Controller,
    ush: &mut UshMarket,
    ush_id: u64,
    collateral: &mut Market,
    collateral_id: u64,
    markets: &Vec<Market>,
    liquidator: u64,
    borrower: u64,
    payment: u128,
    cached_discount: u128,
    now: u64,
) -> (r: Result<(u128, u128), Error>)
    requires
        old(ctl).wf(),
        old(ush).wf(),
        old(collateral).wf(),
        forall|i: int| #![auto] 0 <= i < markets@.len() ==> markets@[i].wf(),
        now >= old(ush).accrual_timestamp,
        now >= old(collateral).accrual_timestamp,
        cached_discount <= crate::math::WAD,
        liquidator != borrower,
    ensures
        final(ctl).wf(),
        final(ush).wf(),
        final(collateral).wf(),
        match r {
            Ok(out) => {
                let debt_after_repay = crate::ush_market::spec_update_decision(
                    crate::ush_market::spec_ush_accrue(*old(ush), now),
                    borrower,
                    payment,
                    InteractionType::RepayBorrow,
                ).2;
                {
                    &&& out.1 <= crate::controller::spec_collateral(
                        old(ctl).collaterals@,
                        collateral_id,
                        borrower,
                    )
                    &&& crate::controller::spec_collateral(
                        final(ctl).collaterals@,
                        collateral_id,
                        borrower,
                    ) == crate::controller::spec_collateral(
                        old(ctl).collaterals@,
                        collateral_id,
                        borrower,
                    ) - out.1
                    &&& final(ush).total_borrows == debt_after_repay
                }
            },
            Err(_) => true,
        },
{
    if payment == 0 {
        return Err(Error::InvalidPayment);
    }
    ush.accrue_interest(now)?;
    collateral.accrue_interest(now)?;
    let borrow_amount = ush.stored_account_borrow_amount(borrower)?;
    let snaps = collect_account_snapshots_with(
        ctl,
        markets,
        collateral,
        collateral_id,
        ush,
        ush_id,
        borrower,
    )?;
    let close_factor = ush.close_factor;
    proof {
        assert(close_factor <= crate::math::WAD);
    }
    let allowed = ctl.liquidate_borrow_allowed(
        ush_id,
        collateral_id,
        borrower,
        payment,
        borrow_amount,
        crate::math::WAD,
        close_factor,
        &snaps,
        now,
    )?;
    if !allowed {
        return Err(Error::RiskyOrInsolvent);
    }
    // repay with the stored discount: the discount is refreshed when the
    // collateral change is observed below
    let repay = ush.update_borrows_data(
        borrower,
        payment,
        InteractionType::RepayBorrow,
        DiscountStrategy::PreviousDiscount,
        0,
        now,
    )?;
    let fx = collateral.get_stored_exchange_rate()?;
    let li = collateral.get_liquidation_incentive();
    let tokens_to_seize = ctl.tokens_to_seize(ush_id, collateral_id, payment, fx, li)?;
    let held = ctl.get_account_collateral_tokens(collateral_id, borrower);
    if tokens_to_seize > held {
        return Err(Error::InsufficientCollateral);
    }
    let seize_ok = ctl.seize_allowed(collateral_id, ush_id, borrower, now)?;
    if !seize_ok {
        return Err(Error::Paused);
    }
    if !ctl.is_whitelisted_money_market(collateral_id) {
        return Err(Error::NotWhitelisted);
    }
    ctl.set_account_collateral_tokens(collateral_id, borrower, held - tokens_to_seize)?;
    if tokens_to_seize > collateral.total_supply || collateral.total_supply - tokens_to_seize
        < MIN_INITIAL_SUPPLY {
        return Err(Error::InsufficientBalance);
    }
    let seized = collateral.seize(tokens_to_seize, now)?;
    // the collateral change re-evaluates the borrower's discount against
    // cached exchange rates
    ush.on_market_change(borrower, cached_discount, now)?;
    Ok((seized.0, tokens_to_seize))
}

} // verus!
