//! Per-account risk simulation.
//!
//! The controller walks all markets an account is in, values its
//! collateral at the loan-to-value limit and its debts at oracle prices,
//! and compares the two totals. The walk consumes one `AccountSnapshot`
//! per market — the debt and exchange rate fetched from each market
//! before this computation — and reads collateral balances, collateral
//! factors (with lazy promotion) and prices from the controller itself.

use crate::controller::{
    effective_entry, effective_factors, spec_collateral, AccountSnapshot, Controller, RiskProfile,
    StorageModule,
};
use crate::errors::Error;
use crate::math::{mul_div_floor, WAD};
use vstd::prelude::*;

verus! {

/// The oracle price the controller holds for a market's underlying.
pub open spec fn price_of(c: Controller, m: u64) -> Option<u128> {
    match c.markets.lookup(m, 0, 0) {
        Option::Some(e) => e.price,
        Option::None => Option::None,
    }
}

/// Whether the account owes anything anywhere, or is about to.
pub open spec fn spec_borrower(snaps: Seq<AccountSnapshot>, borrow_amount: u128) -> bool {
    (exists|i: int|
        0 <= i < snaps.len() && (#[trigger] snaps[i]).underlying_owed_amount > 0)
        || borrow_amount > 0
}

/// Whether the account owes the stablecoin market, or is about to.
pub open spec fn spec_ush_borrower(
    c: Controller,
    snaps: Seq<AccountSnapshot>,
    this_market: u64,
    borrow_amount: u128,
) -> bool {
    (exists|i: int|
        0 <= i < snaps.len() && (#[trigger] snaps[i]).underlying_owed_amount > 0
            && c.ush_market_observer == Some(snaps[i].money_market)) || (borrow_amount > 0
        && c.ush_market_observer == Some(this_market))
}

/// One tail-recursive pass of the risk walk, accumulating the collateral
/// and borrow totals from position `i` on. Every product is floored WAD
/// arithmetic; any value past 128 bits aborts with an arithmetic error,
/// and a missing price with an oracle error.
pub open spec fn spec_risk_go(
    c: Controller,
    account: u64,
    this_market: u64,
    redeem_tokens: u128,
    borrow_amount: u128,
    ush_borrower: bool,
    now: u64,
    snaps: Seq<AccountSnapshot>,
    i: int,
    tc: int,
    tb: int,
) -> Result<(int, int), Error>
    decreases snaps.len() - i,
{
    if i < 0 || i >= snaps.len() {
        Ok((tc, tb))
    } else {
        let s = snaps[i];
        let m = s.money_market;
        match price_of(c, m) {
            Option::None => Err(Error::OracleUnavailable),
            Option::Some(p) => {
                let token_price = s.fx * p / (WAD as int);
                let ltv = if ush_borrower {
                    effective_factors(c, m, now).1
                } else {
                    effective_factors(c, m, now).0
                };
                let eff = ltv * token_price / (WAD as int);
                let tokens = spec_collateral(c.collaterals@, m, account);
                let add_c = eff * tokens / (WAD as int);
                let add_b = p * s.underlying_owed_amount / (WAD as int);
                if token_price > u128::MAX {
                    Err(Error::Arithmetic)
                } else if add_c > u128::MAX || tc + add_c > u128::MAX {
                    Err(Error::Arithmetic)
                } else if add_b > u128::MAX || tb + add_b > u128::MAX {
                    Err(Error::Arithmetic)
                } else {
                    let tb1 = tb + add_b;
                    if m == this_market {
                        let rex = eff * redeem_tokens / (WAD as int);
                        let bex = p * borrow_amount / (WAD as int);
                        if rex > u128::MAX || tb1 + rex > u128::MAX {
                            Err(Error::Arithmetic)
                        } else if bex > u128::MAX || tb1 + rex + bex > u128::MAX {
                            Err(Error::Arithmetic)
                        } else {
                            spec_risk_go(
                                c,
                                account,
                                this_market,
                                redeem_tokens,
                                borrow_amount,
                                ush_borrower,
                                now,
                                snaps,
                                i + 1,
                                tc + add_c,
                                tb1 + rex + bex,
                            )
                        }
                    } else {
                        spec_risk_go(
                            c,
                            account,
                            this_market,
                            redeem_tokens,
                            borrow_amount,
                            ush_borrower,
                            now,
                            snaps,
                            i + 1,
                            tc + add_c,
                            tb1,
                        )
                    }
                }
            },
        }
    }
}

/// The outcome of the full risk simulation: solvent when the weighted
/// collateral covers the debts plus the simulated redeem and borrow,
/// otherwise at risk by the shortfall.
pub open spec fn spec_simulate(
    c: Controller,
    account: u64,
    this_market: u64,
    redeem_tokens: u128,
    borrow_amount: u128,
    lazy: bool,
    now: u64,
    snaps: Seq<AccountSnapshot>,
) -> Result<RiskProfile, Error> {
    if lazy && !spec_borrower(snaps, borrow_amount) {
        Ok(RiskProfile::Solvent(0))
    } else {
        match spec_risk_go(
            c,
            account,
            this_market,
            redeem_tokens,
            borrow_amount,
            spec_ush_borrower(c, snaps, this_market, borrow_amount),
            now,
            snaps,
            0,
            0,
            0,
        ) {
            Err(e) => Err(e),
            Ok(t) => {
                if t.0 >= t.1 {
                    Ok(RiskProfile::Solvent((t.0 - t.1) as u128))
                } else {
                    Ok(RiskProfile::RiskyOrInsolvent((t.1 - t.0) as u128))
                }
            },
        }
    }
}


/// The risk walk fails only for a missing price or a value past 128
/// bits: its error is always `OracleUnavailable` or `Arithmetic`.
proof fn lemma_risk_go_error_kind(
    c: Controller,
    account: u64,
    this_market: u64,
    redeem_tokens: u128,
    borrow_amount: u128,
    ush_borrower: bool,
    now: u64,
    snaps: Seq<AccountSnapshot>,
    i: int,
    tc: int,
    tb: int,
)
    ensures
        (spec_risk_go(
            c,
            account,
            this_market,
            redeem_tokens,
            borrow_amount,
            ush_borrower,
            now,
            snaps,
            i,
            tc,
            tb,
        ) matches Err(e) ==> e == Error::OracleUnavailable || e == Error::Arithmetic),
    decreases snaps.len() - i,
{
    if i < 0 || i >= snaps.len() {
    } else {
        let s = snaps[i];
        let m = s.money_market;
        match price_of(c, m) {
            Option::None => {},
            Option::Some(p) => {
                let token_price = s.fx * p / (WAD as int);
                let ltv = if ush_borrower {
                    effective_factors(c, m, now).1
                } else {
                    effective_factors(c, m, now).0
                };
                let eff = ltv * token_price / (WAD as int);
                let tokens = spec_collateral(c.collaterals@, m, account);
                let add_c = eff * tokens / (WAD as int);
                let add_b = p * s.underlying_owed_amount / (WAD as int);
                let tb1 = tb + add_b;
                if m == this_market {
                    let rex = eff * redeem_tokens / (WAD as int);
                    let bex = p * borrow_amount / (WAD as int);
                    lemma_risk_go_error_kind(
                        c,
                        account,
                        this_market,
                        redeem_tokens,
                        borrow_amount,
                        ush_borrower,
                        now,
                        snaps,
                        i + 1,
                        tc + add_c,
                        tb1 + rex + bex,
                    );
                } else {
                    lemma_risk_go_error_kind(
                        c,
                        account,
                        this_market,
                        redeem_tokens,
                        borrow_amount,
                        ush_borrower,
                        now,
                        snaps,
                        i + 1,
                        tc + add_c,
                        tb1,
                    );
                }
            },
        }
    }
}

/// The risk simulation fails only for a missing price or a value past
/// 128 bits.
pub proof fn lemma_simulate_error_kind(
    c: Controller,
    account: u64,
    this_market: u64,
    redeem_tokens: u128,
    borrow_amount: u128,
    lazy: bool,
    now: u64,
    snaps: Seq<AccountSnapshot>,
)
    ensures
        (spec_simulate(
            c,
            account,
            this_market,
            redeem_tokens,
            borrow_amount,
            lazy,
            now,
            snaps,
        ) matches Err(e) ==> e == Error::OracleUnavailable || e == Error::Arithmetic),
{
    lemma_risk_go_error_kind(
        c,
        account,
        this_market,
        redeem_tokens,
        borrow_amount,
        spec_ush_borrower(c, snaps, this_market, borrow_amount),
        now,
        snaps,
        0,
        0,
        0,
    );
}

/// After the simulation, every market entry is either untouched or
/// promoted; nothing else of the controller changed.
pub open spec fn promoted_only(c0: Controller, c1: Controller, now: u64) -> bool {
    &&& forall|m: u64|
        #[trigger] c1.markets.lookup(m, 0, 0) == c0.markets.lookup(m, 0, 0) || (
        c0.markets.lookup(m, 0, 0) is Some && c1.markets.lookup(m, 0, 0) == Some(
            effective_entry(c0.markets.lookup(m, 0, 0).unwrap(), now),
        ))
    &&& c1.memberships == c0.memberships
    &&& c1.collaterals == c0.collaterals
    &&& c1.batches == c0.batches
    &&& crate::controller::same_aux(c1, c0)
}

/// The risk simulation over an account's markets.
pub trait RiskProfileModule: StorageModule {
    /// Simulates the account's risk profile, optionally with a redeem of
    /// `redeem_tokens` and a borrow of `borrow_amount` at `this_market`.
    /// `snaps` carries, per market the account is in, the debt and
    /// exchange rate read from that market. When `lazy` is set and the
    /// account owes nothing, the walk is skipped. Reading the collateral
    /// factors promotes due pending changes, which is the only state this
    /// simulation writes.
    fn simulate_risk_profile(
        &mut self,
        account: u64,
        this_market: u64,
        redeem_tokens: u128,
        borrow_amount: u128,
        lazy: bool,
        snaps: &Vec<AccountSnapshot>,
        now: u64,
    ) -> (r: Result<RiskProfile, Error>)
        requires
            old(self).ctl().wf(),
            forall|i: int|
                0 <= i < snaps@.len() ==> old(self).ctl().whitelisted(
                    (#[trigger] snaps@[i]).money_market,
                ),
        ensures
            final(self).ctl().wf(),
            r == spec_simulate(
                old(self).ctl(),
                account,
                this_market,
                redeem_tokens,
                borrow_amount,
                lazy,
                now,
                snaps@,
            ),
            promoted_only(old(self).ctl(), final(self).ctl(), now),
    ;

    /// Whether the account is currently at risk: the plain profile with
    /// no simulated action.
    fn is_risky(&mut self, account: u64, snaps: &Vec<AccountSnapshot>, now: u64) -> (r: Result<
        bool,
        Error,
    >)
        requires
            old(self).ctl().wf(),
            forall|i: int|
                0 <= i < snaps@.len() ==> old(self).ctl().whitelisted(
                    (#[trigger] snaps@[i]).money_market,
                ),
        ensures
            final(self).ctl().wf(),
            promoted_only(old(self).ctl(), final(self).ctl(), now),
            (match spec_simulate(old(self).ctl(), account, 0, 0, 0, true, now, snaps@) {
                Ok(p) => r == Ok::<bool, Error>(p is RiskyOrInsolvent),
                Err(e) => r == Err::<bool, Error>(e),
            }),
    ;
}

impl RiskProfileModule for Controller {
    fn simulate_risk_profile(
        &mut self,
        account: u64,
        this_market: u64,
        redeem_tokens: u128,
        borrow_amount: u128,
        lazy: bool,
        snaps: &Vec<AccountSnapshot>,
        now: u64,
    ) -> (r: Result<RiskProfile, Error>) {
        let ghost c0 = *self;
        // first pass: does the account owe anything, and any stablecoin?
        let mut borrower = borrow_amount > 0;
        let mut ush_borrower = false;
        if borrow_amount > 0 {
            match self.ush_market_observer {
                Some(u) => {
                    if u == this_market {
                        ush_borrower = true;
                    }
                },
                None => {},
            }
        }
        let mut i: usize = 0;
        while i < snaps.len()
            invariant
                *self == c0,
                i <= snaps@.len(),
                borrower == ((exists|j: int|
                    0 <= j < i && (#[trigger] snaps@[j]).underlying_owed_amount > 0)
                    || borrow_amount > 0),
                ush_borrower == ((exists|j: int|
                    0 <= j < i && (#[trigger] snaps@[j]).underlying_owed_amount > 0
                        && c0.ush_market_observer == Some(snaps@[j].money_market)) || (
                borrow_amount > 0 && c0.ush_market_observer == Some(this_market))),
            decreases snaps@.len() - i,
        {
            let s = snaps[i];
            if s.underlying_owed_amount > 0 {
                borrower = true;
                match self.ush_market_observer {
                    Some(u) => {
                        if u == s.money_market {
                            ush_borrower = true;
                        }
                    },
                    None => {},
                }
            }
            i = i + 1;
        }
        proof {
            assert(borrower == spec_borrower(snaps@, borrow_amount));
            assert(ush_borrower == spec_ush_borrower(c0, snaps@, this_market, borrow_amount));
        }
        if lazy && !borrower {
            return Ok(RiskProfile::Solvent(0));
        }
        // second pass: accumulate weighted collateral and debt
        let mut tc: u128 = 0;
        let mut tb: u128 = 0;
        let mut j: usize = 0;
        while j < snaps.len()
            invariant
                self.wf(),
                c0 == *old(self),
                c0.wf(),
                j <= snaps@.len(),
                !(lazy && !spec_borrower(snaps@, borrow_amount)),
                ush_borrower == spec_ush_borrower(c0, snaps@, this_market, borrow_amount),
                promoted_only(c0, *self, now),
                forall|k: int|
                    0 <= k < snaps@.len() ==> c0.whitelisted((#[trigger] snaps@[k]).money_market),
                spec_risk_go(
                    c0,
                    account,
                    this_market,
                    redeem_tokens,
                    borrow_amount,
                    ush_borrower,
                    now,
                    snaps@,
                    0,
                    0,
                    0,
                ) == spec_risk_go(
                    c0,
                    account,
                    this_market,
                    redeem_tokens,
                    borrow_amount,
                    ush_borrower,
                    now,
                    snaps@,
                    j as int,
                    tc as int,
                    tb as int,
                ),
            decreases snaps@.len() - j,
        {
            let ghost c_iter = *self;
            let s = snaps[j];
            let m = s.money_market;
            proof {
                assert(c0.whitelisted(m));
                assert(self.markets.lookup(m, 0, 0) is Some);
            }
            let factors = match self.update_and_get_collateral_factors(m, now) {
                Err(e) => {
                    // unreachable: every snapshot market is whitelisted
                    proof {
                        assert(false);
                    }
                    return Err(e);
                },
                Ok(f) => f,
            };
            proof {
                lemma_promotion_composes(c0, c_iter, *self, m, now);
                assert((factors.0 as int, factors.1 as int) == effective_factors(c0, m, now)) by {
                    lemma_effective_stable(c0, c_iter, m, now);
                }
            }
            let entry_price = match self.market_entry(m) {
                None => {
                    // unreachable: every snapshot market is whitelisted
                    proof {
                        assert(false);
                    }
                    return Err(Error::NotWhitelisted);
                },
                Some(e) => e.price,
            };
            proof {
                assert(price_of(*self, m) == price_of(c0, m)) by {
                    lemma_price_stable(c0, *self, m, now);
                }
            }
            let p = match entry_price {
                None => { return Err(Error::OracleUnavailable) },
                Some(p) => p,
            };
            let token_price = match mul_div_floor(s.fx, p, WAD) {
                None => { return Err(Error::Arithmetic) },
                Some(v) => v,
            };
            let ltv = if ush_borrower {
                factors.1
            } else {
                factors.0
            };
            proof {
                crate::math::lemma_scale_down(token_price as int, ltv as int);
                lemma_ltv_bounded(c0, m, now);
            }
            let eff = match mul_div_floor(ltv, token_price, WAD) {
                None => {
                    // unreachable: the factor is a WAD fraction, so the
                    // scaled price never grows
                    proof {
                        assert(false);
                    }
                    return Err(Error::Arithmetic);
                },
                Some(v) => v,
            };
            let tokens = self.get_account_collateral_tokens(m, account);
            proof {
                assert(spec_collateral(self.collaterals@, m, account) == spec_collateral(
                    c0.collaterals@,
                    m,
                    account,
                ));
            }
            let add_c = match mul_div_floor(eff, tokens, WAD) {
                None => { return Err(Error::Arithmetic) },
                Some(v) => v,
            };
            let tc1 = match tc.checked_add(add_c) {
                None => { return Err(Error::Arithmetic) },
                Some(v) => v,
            };
            let add_b = match mul_div_floor(p, s.underlying_owed_amount, WAD) {
                None => { return Err(Error::Arithmetic) },
                Some(v) => v,
            };
            let mut tb1 = match tb.checked_add(add_b) {
                None => { return Err(Error::Arithmetic) },
                Some(v) => v,
            };
            if m == this_market {
                let rex = match mul_div_floor(eff, redeem_tokens, WAD) {
                    None => { return Err(Error::Arithmetic) },
                    Some(v) => v,
                };
                tb1 = match tb1.checked_add(rex) {
                    None => { return Err(Error::Arithmetic) },
                    Some(v) => v,
                };
                let bex = match mul_div_floor(p, borrow_amount, WAD) {
                    None => { return Err(Error::Arithmetic) },
                    Some(v) => v,
                };
                tb1 = match tb1.checked_add(bex) {
                    None => { return Err(Error::Arithmetic) },
                    Some(v) => v,
                };
            }
            tc = tc1;
            tb = tb1;
            j = j + 1;
        }
        if tc >= tb {
            Ok(RiskProfile::Solvent(tc - tb))
        } else {
            Ok(RiskProfile::RiskyOrInsolvent(tb - tc))
        }
    }

    fn is_risky(&mut self, account: u64, snaps: &Vec<AccountSnapshot>, now: u64) -> (r: Result<
        bool,
        Error,
    >) {
        let profile = self.simulate_risk_profile(account, 0, 0, 0, true, snaps, now)?;
        Ok(!profile.can_redeem())
    }
}

/// The risk walk reads only prices, effective factors and collateral, so
/// lazy promotions do not change its outcome.
pub proof fn lemma_risk_go_stable(
    c0: Controller,
    c1: Controller,
    account: u64,
    this_market: u64,
    redeem_tokens: u128,
    borrow_amount: u128,
    ush_borrower: bool,
    now: u64,
    snaps: Seq<AccountSnapshot>,
    i: int,
    tc: int,
    tb: int,
)
    requires
        promoted_only(c0, c1, now),
    ensures
        spec_risk_go(
            c1,
            account,
            this_market,
            redeem_tokens,
            borrow_amount,
            ush_borrower,
            now,
            snaps,
            i,
            tc,
            tb,
        ) == spec_risk_go(
            c0,
            account,
            this_market,
            redeem_tokens,
            borrow_amount,
            ush_borrower,
            now,
            snaps,
            i,
            tc,
            tb,
        ),
    decreases snaps.len() - i,
{
    if 0 <= i < snaps.len() {
        let m = snaps[i].money_market;
        lemma_price_stable(c0, c1, m, now);
        if c0.markets.lookup(m, 0, 0) is Some {
            lemma_effective_stable(c0, c1, m, now);
        } else {
            assert(c1.markets.lookup(m, 0, 0) == c0.markets.lookup(m, 0, 0));
        }
        lemma_risk_go_stable(
            c0,
            c1,
            account,
            this_market,
            redeem_tokens,
            borrow_amount,
            ush_borrower,
            now,
            snaps,
            i + 1,
            tc + spec_step_add_c(c0, account, ush_borrower, now, snaps, i),
            tb + spec_step_add_b(c0, account, this_market, redeem_tokens, borrow_amount,
                ush_borrower, now, snaps, i),
        );
    }
}

/// The collateral-side contribution of one walk step.
spec fn spec_step_add_c(
    c: Controller,
    account: u64,
    ush_borrower: bool,
    now: u64,
    snaps: Seq<AccountSnapshot>,
    i: int,
) -> int {
    let s = snaps[i];
    let m = s.money_market;
    let p = price_of(c, m).unwrap() as int;
    let token_price = s.fx * p / (WAD as int);
    let ltv = if ush_borrower {
        effective_factors(c, m, now).1
    } else {
        effective_factors(c, m, now).0
    };
    let eff = ltv * token_price / (WAD as int);
    eff * spec_collateral(c.collaterals@, m, account) / (WAD as int)
}

/// The borrow-side contribution of one walk step.
spec fn spec_step_add_b(
    c: Controller,
    account: u64,
    this_market: u64,
    redeem_tokens: u128,
    borrow_amount: u128,
    ush_borrower: bool,
    now: u64,
    snaps: Seq<AccountSnapshot>,
    i: int,
) -> int {
    let s = snaps[i];
    let m = s.money_market;
    let p = price_of(c, m).unwrap() as int;
    let token_price = s.fx * p / (WAD as int);
    let ltv = if ush_borrower {
        effective_factors(c, m, now).1
    } else {
        effective_factors(c, m, now).0
    };
    let eff = ltv * token_price / (WAD as int);
    let base = p * s.underlying_owed_amount / (WAD as int);
    if m == this_market {
        base + eff * redeem_tokens / (WAD as int) + p * borrow_amount / (WAD as int)
    } else {
        base
    }
}

/// Lazy promotions do not change the simulation's outcome.
pub proof fn lemma_simulate_stable(
    c0: Controller,
    c1: Controller,
    account: u64,
    this_market: u64,
    redeem_tokens: u128,
    borrow_amount: u128,
    lazy: bool,
    now: u64,
    snaps: Seq<AccountSnapshot>,
)
    requires
        promoted_only(c0, c1, now),
    ensures
        spec_simulate(c1, account, this_market, redeem_tokens, borrow_amount, lazy, now, snaps)
            == spec_simulate(
            c0,
            account,
            this_market,
            redeem_tokens,
            borrow_amount,
            lazy,
            now,
            snaps,
        ),
{
    assert(c1.ush_market_observer == c0.ush_market_observer);
    assert(spec_ush_borrower(c1, snaps, this_market, borrow_amount) == spec_ush_borrower(
        c0,
        snaps,
        this_market,
        borrow_amount,
    ));
    lemma_risk_go_stable(
        c0,
        c1,
        account,
        this_market,
        redeem_tokens,
        borrow_amount,
        spec_ush_borrower(c0, snaps, this_market, borrow_amount),
        now,
        snaps,
        0,
        0,
        0,
    );
}

/// Promotions compose: after one more lazy promotion on a state that
/// differs from `c0` only by promotions, the state still differs from
/// `c0` only by promotions.
proof fn lemma_promotion_composes(c0: Controller, c1: Controller, c2: Controller, m: u64, now: u64)
    requires
        promoted_only(c0, c1, now),
        c0.markets.lookup(m, 0, 0) is Some,
        c2.markets.lookup(m, 0, 0) == Some(effective_entry(c1.markets.lookup(m, 0, 0).unwrap(), now)),
        forall|x: u64|
            x != m ==> #[trigger] c2.markets.lookup(x, 0, 0) == c1.markets.lookup(x, 0, 0),
        c2.memberships == c1.memberships,
        c2.collaterals == c1.collaterals,
        c2.batches == c1.batches,
        crate::controller::same_aux(c2, c1),
    ensures
        promoted_only(c0, c2, now),
{
    assert forall|x: u64|
        #[trigger] c2.markets.lookup(x, 0, 0) == c0.markets.lookup(x, 0, 0) || (c0.markets.lookup(
            x,
            0,
            0,
        ) is Some && c2.markets.lookup(x, 0, 0) == Some(
            effective_entry(c0.markets.lookup(x, 0, 0).unwrap(), now),
        )) by {
        if x == m {
            let e0 = c0.markets.lookup(m, 0, 0).unwrap();
            let e1 = c1.markets.lookup(m, 0, 0).unwrap();
            assert(e1 == e0 || e1 == effective_entry(e0, now));
            assert(effective_entry(effective_entry(e0, now), now) == effective_entry(e0, now));
        }
    }
}

/// Promotions do not change the effective factors of any market.
proof fn lemma_effective_stable(c0: Controller, c1: Controller, m: u64, now: u64)
    requires
        promoted_only(c0, c1, now),
        c0.markets.lookup(m, 0, 0) is Some,
    ensures
        effective_factors(c1, m, now) == effective_factors(c0, m, now),
{
    let e0 = c0.markets.lookup(m, 0, 0).unwrap();
    assert(c1.markets.lookup(m, 0, 0) == c0.markets.lookup(m, 0, 0) || c1.markets.lookup(m, 0, 0)
        == Some(effective_entry(e0, now)));
    assert(effective_entry(effective_entry(e0, now), now) == effective_entry(e0, now));
}

/// Promotions do not change any stored price.
proof fn lemma_price_stable(c0: Controller, c1: Controller, m: u64, now: u64)
    requires
        promoted_only(c0, c1, now),
    ensures
        price_of(c1, m) == price_of(c0, m),
{
    assert(c1.markets.lookup(m, 0, 0) == c0.markets.lookup(m, 0, 0) || (c0.markets.lookup(m, 0, 0)
        is Some && c1.markets.lookup(m, 0, 0) == Some(
        effective_entry(c0.markets.lookup(m, 0, 0).unwrap(), now),
    )));
}

/// Effective collateral factors stay within the global bound, so scaling
/// a token price by one never overflows.
proof fn lemma_ltv_bounded(c0: Controller, m: u64, now: u64)
    requires
        c0.wf(),
        c0.markets.lookup(m, 0, 0) is Some,
    ensures
        0 <= effective_factors(c0, m, now).0 <= WAD,
        0 <= effective_factors(c0, m, now).1 <= WAD,
{
    let e = c0.markets.lookup(m, 0, 0).unwrap();
    assert(c0.markets.contains_key(m, 0, 0));
    let i = choose|i: int|
        0 <= i < c0.markets.entries.len() && crate::store::has_key(
            #[trigger] c0.markets.entries[i],
            m,
            0,
            0,
        );
    c0.markets.lemma_lookup_at(m, 0, 0, i);
    assert(c0.markets.entries[i].val.wf());
}

} // verus!
