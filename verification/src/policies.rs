//! The policy gates the money markets consult before mutating state.
//!
//! Each gate validates the whitelist, pause flags and caps, runs the risk
//! simulation where the action moves collateral or debt, and brings the
//! affected side's reward bookkeeping up to date. Values owned by the
//! markets — liquidity, total borrows, debt snapshots, reserve and close
//! factors — arrive as arguments: they are what the markets answer when
//! queried, and the protocol entry points pass them along.

use crate::controller::{
    effective_factors, is_member, spec_collateral, AccountSnapshot, Controller, Liquidation,
    MarketType, RiskProfile, Status, StorageModule,
};
use crate::errors::Error;
use crate::math::WAD;
use crate::rewards::{batch_selected, RewardsModule};
use crate::risk_profile::{
    lemma_simulate_error_kind, lemma_simulate_stable, promoted_only, spec_simulate,
    RiskProfileModule,
};
use vstd::prelude::*;

verus! {

/// A deprecated borrow market: zero effective collateral factor,
/// borrowing paused, and the full reserve factor. Such a market only
/// winds down, so liquidators may repay the whole debt there.
pub open spec fn spec_deprecated(c: Controller, m: u64, reserve_factor: u128, now: u64) -> bool {
    &&& effective_factors(c, m, now).0 == 0
    &&& c.markets.lookup(m, 0, 0).unwrap().borrow_status == Status::Paused
    &&& reserve_factor == WAD
}

/// Every batch of `m` on `side` carries the account's stamp at the
/// batch's current index: the account is fully caught up there and a
/// second distribution would credit nothing.
pub open spec fn caught_up(c: Controller, m: u64, side: MarketType, account: u64) -> bool {
    forall|k: int|
        0 <= k < c.batches@.len() && batch_selected(#[trigger] c.batches@[k], m, side)
            ==> c.batch_indexes.lookup(m, c.batches@[k].id, account) == Some(c.batches@[k].index)
}

/// The six policy gates.
pub trait PolicyModule: RiskProfileModule + RewardsModule {
    /// Whether minting `amount` underlying is allowed at a market whose
    /// stored liquidity is `market_liquidity`.
    fn mint_allowed(&self, m: u64, amount: u128, market_liquidity: u128) -> (r: Result<
        bool,
        Error,
    >)
        requires
            self.ctl().wf(),
        ensures
            match r {
                Ok(ok) => ok && self.ctl().whitelisted(m) && self.ctl().markets.lookup(
                    m,
                    0,
                    0,
                ).unwrap().mint_status == Status::Active && (match self.ctl().markets.lookup(
                    m,
                    0,
                    0,
                ).unwrap().liquidity_cap {
                    Some(cap) => market_liquidity + amount < cap,
                    None => true,
                }),
                Err(e) => {
                    &&& (e == Error::NotWhitelisted <==> !self.ctl().whitelisted(m))
                    &&& (e == Error::Paused <==> self.ctl().whitelisted(m) && self.ctl(
                    ).markets.lookup(m, 0, 0).unwrap().mint_status != Status::Active)
                    &&& (e == Error::CapExceeded <==> self.ctl().whitelisted(m) && self.ctl(
                    ).markets.lookup(m, 0, 0).unwrap().mint_status == Status::Active && (
                    self.ctl().markets.lookup(m, 0, 0).unwrap().liquidity_cap matches Some(cap)
                        && market_liquidity + amount >= cap))
                    &&& (e == Error::NotWhitelisted || e == Error::Paused || e
                        == Error::CapExceeded)
                },
            },
    ;

    /// Whether `redeemer` may withdraw `tokens` collateral from `m`:
    /// besides holding them, the withdrawal must keep the account
    /// solvent. On success the supply-side rewards are brought up to
    /// date for the redeemer.
    fn redeem_allowed(
        &mut self,
        m: u64,
        redeemer: u64,
        tokens: u128,
        snaps: &Vec<AccountSnapshot>,
        now: u64,
    ) -> (r: Result<bool, Error>)
        requires
            old(self).ctl().wf(),
            forall|i: int|
                0 <= i < snaps@.len() ==> old(self).ctl().whitelisted(
                    (#[trigger] snaps@[i]).money_market,
                ),
        ensures
            final(self).ctl().wf(),
            final(self).ctl().collaterals == old(self).ctl().collaterals,
            final(self).ctl().memberships == old(self).ctl().memberships,
            match r {
                Ok(ok) => {
                    &&& old(self).ctl().whitelisted(m)
                    &&& tokens <= spec_collateral(old(self).ctl().collaterals@, m, redeemer)
                    &&& (ok ==> (spec_simulate(
                        old(self).ctl(),
                        redeemer,
                        m,
                        tokens,
                        0,
                        true,
                        now,
                        snaps@,
                    ) matches Ok(p) && (p is Solvent)))
                    &&& (!ok ==> (spec_simulate(
                        old(self).ctl(),
                        redeemer,
                        m,
                        tokens,
                        0,
                        true,
                        now,
                        snaps@,
                    ) matches Ok(p) && (p is RiskyOrInsolvent)))
                    &&& (ok ==> caught_up(final(self).ctl(), m, MarketType::Supply, redeemer))
                },
                Err(e) => {
                    &&& (e == Error::NotWhitelisted <==> !old(self).ctl().whitelisted(m))
                    &&& (e == Error::InsufficientCollateral <==> old(self).ctl().whitelisted(m)
                        && tokens > spec_collateral(old(self).ctl().collaterals@, m, redeemer))
                    &&& (e != Error::NotWhitelisted && e != Error::InsufficientCollateral ==> ((
                    spec_simulate(
                        old(self).ctl(),
                        redeemer,
                        m,
                        tokens,
                        0,
                        true,
                        now,
                        snaps@,
                    ) matches Err(e2) && e == e2) || (e == Error::Arithmetic && (spec_simulate(
                        old(self).ctl(),
                        redeemer,
                        m,
                        tokens,
                        0,
                        true,
                        now,
                        snaps@,
                    ) matches Ok(p) && (p is Solvent)))))
                },
            },
    ;

    /// Whether `borrower` may take `amount` more underlying from `m`.
    /// The borrower must already be a member; the protocol entry point
    /// enters it on the market's behalf first. On success the borrow-side
    /// rewards are brought up to date for the borrower.
    fn borrow_allowed(
        &mut self,
        m: u64,
        borrower: u64,
        amount: u128,
        market_total_borrows: u128,
        base_total_borrows: u128,
        base_account_borrow: u128,
        snaps: &Vec<AccountSnapshot>,
        now: u64,
    ) -> (r: Result<bool, Error>)
        requires
            old(self).ctl().wf(),
            forall|i: int|
                0 <= i < snaps@.len() ==> old(self).ctl().whitelisted(
                    (#[trigger] snaps@[i]).money_market,
                ),
        ensures
            final(self).ctl().wf(),
            final(self).ctl().collaterals == old(self).ctl().collaterals,
            final(self).ctl().memberships == old(self).ctl().memberships,
            match r {
                Ok(ok) => {
                    &&& old(self).ctl().whitelisted(m)
                    &&& old(self).ctl().markets.lookup(m, 0, 0).unwrap().borrow_status
                        == Status::Active
                    &&& is_member(old(self).ctl().memberships@, borrower, m)
                    &&& (old(self).ctl().markets.lookup(m, 0, 0).unwrap().price is Some)
                    &&& (match old(self).ctl().markets.lookup(m, 0, 0).unwrap().borrow_cap {
                        Some(cap) => market_total_borrows + amount < cap,
                        None => true,
                    })
                    &&& (ok ==> (spec_simulate(
                        old(self).ctl(),
                        borrower,
                        m,
                        0,
                        amount,
                        true,
                        now,
                        snaps@,
                    ) matches Ok(p) && (p is Solvent)))
                    &&& (!ok ==> (spec_simulate(
                        old(self).ctl(),
                        borrower,
                        m,
                        0,
                        amount,
                        true,
                        now,
                        snaps@,
                    ) matches Ok(p) && (p is RiskyOrInsolvent)))
                    &&& (ok ==> caught_up(final(self).ctl(), m, MarketType::Borrow, borrower))
                },
                Err(e) => {
                    let c0 = old(self).ctl();
                    let wl = c0.whitelisted(m);
                    let active = c0.markets.lookup(m, 0, 0).unwrap().borrow_status
                        == Status::Active;
                    let member = is_member(c0.memberships@, borrower, m);
                    let priced = c0.markets.lookup(m, 0, 0).unwrap().price is Some;
                    let cap_hit = (c0.markets.lookup(m, 0, 0).unwrap().borrow_cap matches Some(cap)
                        && market_total_borrows + amount >= cap);
                    {
                        &&& (e == Error::NotWhitelisted <==> !wl)
                        &&& (e == Error::Paused <==> wl && !active)
                        &&& (e == Error::Unauthorized <==> wl && active && !member)
                        &&& (e == Error::CapExceeded <==> wl && active && member && priced
                            && cap_hit)
                        &&& (wl && active && member && !priced ==> e == Error::OracleUnavailable)
                        &&& (e == Error::OracleUnavailable ==> wl && active && member && (!priced
                            || spec_simulate(c0, borrower, m, 0, amount, true, now, snaps@)
                            is Err))
                        &&& (wl && active && member && priced && !cap_hit ==> ((spec_simulate(
                            c0,
                            borrower,
                            m,
                            0,
                            amount,
                            true,
                            now,
                            snaps@,
                        ) matches Err(e2) && e == e2) || (e == Error::Arithmetic && (spec_simulate(
                            c0,
                            borrower,
                            m,
                            0,
                            amount,
                            true,
                            now,
                            snaps@,
                        ) matches Ok(p) && (p is Solvent)))))
                    }
                },
            },
    ;

    /// Whether a repayment may proceed: any whitelisted market accepts
    /// repayments; the call only brings the borrower's reward bookkeeping
    /// up to date.
    fn repay_borrow_allowed(
        &mut self,
        m: u64,
        borrower: u64,
        base_total_borrows: u128,
        base_account_borrow: u128,
        now: u64,
    ) -> (r: Result<bool, Error>)
        requires
            old(self).ctl().wf(),
        ensures
            final(self).ctl().wf(),
            final(self).ctl().markets == old(self).ctl().markets,
            final(self).ctl().collaterals == old(self).ctl().collaterals,
            final(self).ctl().memberships == old(self).ctl().memberships,
            match r {
                Ok(ok) => ok == old(self).ctl().whitelisted(m) && (ok ==> caught_up(
                    final(self).ctl(),
                    m,
                    MarketType::Borrow,
                    borrower,
                )),
                Err(e) => e == Error::Arithmetic && old(self).ctl().whitelisted(m),
            },
    ;

    /// Whether a liquidation repaying `amount` of the borrower's
    /// `borrow_amount` debt is allowed. A deprecated borrow market — zero
    /// collateral factor, borrowing paused, full reserve factor — accepts
    /// repayment of the whole debt; anywhere else the account must be at
    /// risk and the repayment within the close factor's share.
    fn liquidate_borrow_allowed(
        &mut self,
        borrow_market: u64,
        collateral_market: u64,
        borrower: u64,
        amount: u128,
        borrow_amount: u128,
        reserve_factor: u128,
        close_factor: u128,
        snaps: &Vec<AccountSnapshot>,
        now: u64,
    ) -> (r: Result<bool, Error>)
        requires
            old(self).ctl().wf(),
            close_factor <= WAD,
            forall|i: int|
                0 <= i < snaps@.len() ==> old(self).ctl().whitelisted(
                    (#[trigger] snaps@[i]).money_market,
                ),
        ensures
            final(self).ctl().wf(),
            final(self).ctl().collaterals == old(self).ctl().collaterals,
            final(self).ctl().markets.wf(),
            match r {
                Ok(ok) => {
                    &&& old(self).ctl().whitelisted(borrow_market)
                    &&& old(self).ctl().whitelisted(collateral_market)
                    &&& (spec_deprecated(old(self).ctl(), borrow_market, reserve_factor, now)
                        ==> ok && amount <= borrow_amount)
                    &&& (!spec_deprecated(old(self).ctl(), borrow_market, reserve_factor, now)
                        ==> {
                        &&& (ok ==> (spec_simulate(
                            old(self).ctl(),
                            borrower,
                            0,
                            0,
                            0,
                            true,
                            now,
                            snaps@,
                        ) matches Ok(p) && (p is RiskyOrInsolvent)) && amount <= close_factor
                            * borrow_amount / (WAD as int))
                        &&& (!ok ==> (spec_simulate(
                            old(self).ctl(),
                            borrower,
                            0,
                            0,
                            0,
                            true,
                            now,
                            snaps@,
                        ) matches Ok(p) && (p is Solvent)))
                    })
                },
                Err(e) => {
                    &&& (e == Error::NotWhitelisted <==> !old(self).ctl().whitelisted(
                        borrow_market,
                    ) || !old(self).ctl().whitelisted(collateral_market))
                    &&& (e == Error::RepaymentTooLarge ==> ((spec_deprecated(
                        old(self).ctl(),
                        borrow_market,
                        reserve_factor,
                        now,
                    ) && amount > borrow_amount) || (!spec_deprecated(
                        old(self).ctl(),
                        borrow_market,
                        reserve_factor,
                        now,
                    ) && (spec_simulate(
                        old(self).ctl(),
                        borrower,
                        0,
                        0,
                        0,
                        true,
                        now,
                        snaps@,
                    ) matches Ok(p) && (p is RiskyOrInsolvent)) && amount > close_factor
                        * borrow_amount / (WAD as int))))
                    &&& (e == Error::OracleUnavailable || e == Error::Arithmetic ==> !spec_deprecated(
                        old(self).ctl(),
                        borrow_market,
                        reserve_factor,
                        now,
                    ) && spec_simulate(old(self).ctl(), borrower, 0, 0, 0, true, now, snaps@)
                        == Err::<RiskProfile, Error>(e))
                },
            },
    ;

    /// Whether seizing the borrower's collateral at `collateral_market`
    /// on behalf of `borrow_market` is allowed: seizures are not paused
    /// globally, at the collateral market, nor at any market the borrower
    /// is in, and both markets answer to this controller. On success the
    /// borrower's supply-side rewards at the collateral market are
    /// brought up to date.
    fn seize_allowed(
        &mut self,
        collateral_market: u64,
        borrow_market: u64,
        borrower: u64,
        now: u64,
    ) -> (r: Result<bool, Error>)
        requires
            old(self).ctl().wf(),
        ensures
            final(self).ctl().wf(),
            final(self).ctl().collaterals == old(self).ctl().collaterals,
            final(self).ctl().markets == old(self).ctl().markets,
            match r {
                Ok(ok) => ok && old(self).ctl().global_seize_status == Status::Active && old(self).ctl().whitelisted(borrow_market) && old(self).ctl().whitelisted(
                    collateral_market,
                ) && caught_up(final(self).ctl(), collateral_market, MarketType::Supply, borrower),
                Err(e) => {
                    &&& (e == Error::NotWhitelisted <==> old(self).ctl().global_seize_status
                        == Status::Active && (!old(self).ctl().whitelisted(borrow_market) || !old(self).ctl().whitelisted(collateral_market)))
                    &&& (old(self).ctl().global_seize_status != Status::Active ==> e
                        == Error::Paused)
                    &&& (e == Error::Paused ==> old(self).ctl().global_seize_status
                        != Status::Active || (exists|i: int|
                        0 <= i < old(self).ctl().memberships@.len() && (#[trigger] old(self).ctl().memberships@[i]).account == borrower && (old(self).ctl().markets.lookup(old(self).ctl().memberships@[i].market, 0, 0)
                            matches Some(me) && me.seize_status != Status::Active)))
                    &&& (e == Error::Arithmetic ==> old(self).ctl().global_seize_status
                        == Status::Active && old(self).ctl().whitelisted(borrow_market) && old(self).ctl().whitelisted(collateral_market))
                },
            },
    ;
}

impl PolicyModule for Controller {
    fn mint_allowed(&self, m: u64, amount: u128, market_liquidity: u128) -> (r: Result<
        bool,
        Error,
    >) {
        let entry = match self.market_entry(m) {
            None => { return Err(Error::NotWhitelisted) },
            Some(e) => e,
        };
        if !matches!(entry.mint_status, Status::Active) {
            return Err(Error::Paused);
        }
        match entry.liquidity_cap {
            Some(cap) => {
                let within = match market_liquidity.checked_add(amount) {
                    None => false,
                    Some(v) => v < cap,
                };
                if !within {
                    return Err(Error::CapExceeded);
                }
            },
            None => {},
        }
        Ok(true)
    }

    fn redeem_allowed(
        &mut self,
        m: u64,
        redeemer: u64,
        tokens: u128,
        snaps: &Vec<AccountSnapshot>,
        now: u64,
    ) -> (r: Result<bool, Error>) {
        if self.market_entry(m).is_none() {
            return Err(Error::NotWhitelisted);
        }
        let held = self.get_account_collateral_tokens(m, redeemer);
        if tokens > held {
            return Err(Error::InsufficientCollateral);
        }
        let ghost c0 = *self;
        proof {
            lemma_simulate_error_kind(c0, redeemer, m, tokens, 0, true, now, snaps@);
        }
        let profile = self.simulate_risk_profile(redeemer, m, tokens, 0, true, snaps, now)?;
        if !profile.can_redeem() {
            return Ok(false);
        }
        proof {
            assert(self.markets.lookup(m, 0, 0) == c0.markets.lookup(m, 0, 0)
                || self.markets.lookup(m, 0, 0) is Some);
        }
        self.update_supply_rewards_batches_state(m, now)?;
        let ghost c2 = *self;
        self.distribute_supplier_batches_rewards(m, redeemer)?;
        proof {
            assert forall|k: int|
                0 <= k < self.batches@.len() && batch_selected(
                    #[trigger] self.batches@[k],
                    m,
                    MarketType::Supply,
                ) implies self.batch_indexes.lookup(m, self.batches@[k].id, redeemer) == Some(
                self.batches@[k].index,
            ) by {
                assert(batch_selected(c2.batches@[k], m, MarketType::Supply));
                assert(self.batches@[k].id == c2.batches@[k].id);
                assert(self.batches@[k].index == c2.batches@[k].index);
            }
        }
        Ok(true)
    }

    fn borrow_allowed(
        &mut self,
        m: u64,
        borrower: u64,
        amount: u128,
        market_total_borrows: u128,
        base_total_borrows: u128,
        base_account_borrow: u128,
        snaps: &Vec<AccountSnapshot>,
        now: u64,
    ) -> (r: Result<bool, Error>) {
        let entry = match self.market_entry(m) {
            None => { return Err(Error::NotWhitelisted) },
            Some(e) => e,
        };
        if !matches!(entry.borrow_status, Status::Active) {
            return Err(Error::Paused);
        }
        if !self.account_in_market(borrower, m) {
            return Err(Error::Unauthorized);
        }
        if entry.price.is_none() {
            return Err(Error::OracleUnavailable);
        }
        match entry.borrow_cap {
            Some(cap) => {
                let within = match market_total_borrows.checked_add(amount) {
                    None => false,
                    Some(v) => v < cap,
                };
                if !within {
                    return Err(Error::CapExceeded);
                }
            },
            None => {},
        }
        let ghost c0 = *self;
        proof {
            lemma_simulate_error_kind(c0, borrower, m, 0, amount, true, now, snaps@);
        }
        let profile = self.simulate_risk_profile(borrower, m, 0, amount, true, snaps, now)?;
        if !profile.can_borrow() {
            return Ok(false);
        }
        proof {
            assert(self.markets.lookup(m, 0, 0) == c0.markets.lookup(m, 0, 0)
                || self.markets.lookup(m, 0, 0) is Some);
        }
        self.update_borrow_rewards_batches_state(m, base_total_borrows, now)?;
        let ghost c2 = *self;
        self.distribute_borrower_batches_rewards(m, borrower, base_account_borrow)?;
        proof {
            assert forall|k: int|
                0 <= k < self.batches@.len() && batch_selected(
                    #[trigger] self.batches@[k],
                    m,
                    MarketType::Borrow,
                ) implies self.batch_indexes.lookup(m, self.batches@[k].id, borrower) == Some(
                self.batches@[k].index,
            ) by {
                assert(batch_selected(c2.batches@[k], m, MarketType::Borrow));
                assert(self.batches@[k].id == c2.batches@[k].id);
                assert(self.batches@[k].index == c2.batches@[k].index);
            }
        }
        Ok(true)
    }

    fn repay_borrow_allowed(
        &mut self,
        m: u64,
        borrower: u64,
        base_total_borrows: u128,
        base_account_borrow: u128,
        now: u64,
    ) -> (r: Result<bool, Error>) {
        if self.market_entry(m).is_none() {
            return Ok(false);
        }
        self.update_borrow_rewards_batches_state(m, base_total_borrows, now)?;
        let ghost c2 = *self;
        self.distribute_borrower_batches_rewards(m, borrower, base_account_borrow)?;
        proof {
            assert forall|k: int|
                0 <= k < self.batches@.len() && batch_selected(
                    #[trigger] self.batches@[k],
                    m,
                    MarketType::Borrow,
                ) implies self.batch_indexes.lookup(m, self.batches@[k].id, borrower) == Some(
                self.batches@[k].index,
            ) by {
                assert(batch_selected(c2.batches@[k], m, MarketType::Borrow));
                assert(self.batches@[k].id == c2.batches@[k].id);
                assert(self.batches@[k].index == c2.batches@[k].index);
            }
        }
        Ok(true)
    }

    fn liquidate_borrow_allowed(
        &mut self,
        borrow_market: u64,
        collateral_market: u64,
        borrower: u64,
        amount: u128,
        borrow_amount: u128,
        reserve_factor: u128,
        close_factor: u128,
        snaps: &Vec<AccountSnapshot>,
        now: u64,
    ) -> (r: Result<bool, Error>) {
        let ghost c_old = *self;
        if self.market_entry(borrow_market).is_none() {
            return Err(Error::NotWhitelisted);
        }
        if self.market_entry(collateral_market).is_none() {
            return Err(Error::NotWhitelisted);
        }
        // borrows at deprecated markets can be fully repaid
        let factors = self.update_and_get_collateral_factors(borrow_market, now)?;
        let borrow_entry = self.market_entry(borrow_market).unwrap();
        proof {
            assert(promoted_only(c_old, *self, now)) by {
                assert forall|x: u64|
                    #[trigger] self.markets.lookup(x, 0, 0) == c_old.markets.lookup(x, 0, 0) || (
                    c_old.markets.lookup(x, 0, 0) is Some && self.markets.lookup(x, 0, 0) == Some(
                        crate::controller::effective_entry(
                            c_old.markets.lookup(x, 0, 0).unwrap(),
                            now,
                        ),
                    )) by {
                    if x != borrow_market {
                        assert(self.markets.lookup(x, 0, 0) == c_old.markets.lookup(x, 0, 0));
                    }
                }
            }
            assert forall|i: int| 0 <= i < snaps@.len() implies self.whitelisted(
                (#[trigger] snaps@[i]).money_market,
            ) by {
                let x = snaps@[i].money_market;
                assert(c_old.markets.lookup(x, 0, 0) is Some);
                assert(self.markets.lookup(x, 0, 0) == c_old.markets.lookup(x, 0, 0)
                    || self.markets.lookup(x, 0, 0) == Some(
                    crate::controller::effective_entry(
                        c_old.markets.lookup(x, 0, 0).unwrap(),
                        now,
                    ),
                ));
            }
        }
        let deprecated = factors.0 == 0 && matches!(borrow_entry.borrow_status, Status::Paused)
            && reserve_factor == WAD;
        if deprecated {
            if amount <= borrow_amount {
                return Ok(true);
            }
            return Err(Error::RepaymentTooLarge);
        }
        let ghost c_mid = *self;
        proof {
            lemma_simulate_stable(c_old, c_mid, borrower, 0, 0, 0, true, now, snaps@);
            lemma_simulate_error_kind(c_old, borrower, 0, 0, 0, true, now, snaps@);
        }
        let profile = self.simulate_risk_profile(borrower, 0, 0, 0, true, snaps, now)?;
        match profile.can_be_liquidated(amount, borrow_amount, close_factor) {
            Liquidation::Allowed => Ok(true),
            Liquidation::NotAllowed => Ok(false),
            Liquidation::AllowedButTooMuch => Err(Error::RepaymentTooLarge),
        }
    }

    fn seize_allowed(
        &mut self,
        collateral_market: u64,
        borrow_market: u64,
        borrower: u64,
        now: u64,
    ) -> (r: Result<bool, Error>) {
        if !matches!(self.global_seize_status, Status::Active) {
            return Err(Error::Paused);
        }
        if self.market_entry(borrow_market).is_none() {
            return Err(Error::NotWhitelisted);
        }
        if self.market_entry(collateral_market).is_none() {
            return Err(Error::NotWhitelisted);
        }
        // none of the borrower's markets may have seizures paused
        let mut i: usize = 0;
        while i < self.memberships.len()
            invariant
                self.wf(),
                i <= self.memberships@.len(),
                *self == *old(self),
                old(self).global_seize_status == Status::Active,
                old(self).whitelisted(borrow_market),
                old(self).whitelisted(collateral_market),
            decreases self.memberships@.len() - i,
        {
            let e = self.memberships[i];
            if e.account == borrower {
                match self.market_entry(e.market) {
                    Some(me) => {
                        if !matches!(me.seize_status, Status::Active) {
                            return Err(Error::Paused);
                        }
                    },
                    None => {},
                }
            }
            i = i + 1;
        }
        self.update_supply_rewards_batches_state(collateral_market, now)?;
        let ghost c2 = *self;
        self.distribute_supplier_batches_rewards(collateral_market, borrower)?;
        proof {
            assert forall|k: int|
                0 <= k < self.batches@.len() && batch_selected(
                    #[trigger] self.batches@[k],
                    collateral_market,
                    MarketType::Supply,
                ) implies self.batch_indexes.lookup(
                collateral_market,
                self.batches@[k].id,
                borrower,
            ) == Some(self.batches@[k].index) by {
                assert(batch_selected(c2.batches@[k], collateral_market, MarketType::Supply));
                assert(self.batches@[k].id == c2.batches@[k].id);
                assert(self.batches@[k].index == c2.batches@[k].index);
            }
        }
        Ok(true)
    }
}

} // verus!
