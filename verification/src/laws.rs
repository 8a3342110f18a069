//! The protocol's standing laws, stated once over the spec-level models
//! so a reader sees them rather than deriving them from the contracts.

use crate::controller::{
    count_batches, count_memberships, sum_collateral, valid_decrease, Controller,
    MAX_COLLATERAL_FACTOR, MAX_MARKETS_PER_ACCOUNT,
};
use crate::market::{
    accrue_fits, spec_accrue, spec_exchange_rate, spec_liquidity, spec_mint, spec_redeem_tokens,
    spec_tokens_to_underlying, spec_underlying_to_tokens, Market, State, MIN_INITIAL_SUPPLY,
};
use crate::math::WAD;
use crate::rewards::spec_batch_update;
use crate::store::has_key;
use crate::ush_market::{spec_ush_accrue, ush_accrue_fits, UshMarket};
use vstd::arithmetic::div_mod::{
    lemma_div_is_ordered, lemma_div_multiples_vanish, lemma_div_pos_is_pos,
    lemma_fundamental_div_mod, lemma_fundamental_div_mod_converse,
    lemma_mod_division_less_than_divisor,
};
use vstd::prelude::*;

verus! {

/// Liquidity is the cash plus the borrows minus the reserves, and the
/// exchange rate never falls across an interest accrual: the reserve
/// slice of the interest is never more than the interest itself.
pub proof fn lemma_accrual_preserves_exchange_rate(m: Market, now: u64)
    requires
        m.wf(),
        now >= m.accrual_timestamp,
        accrue_fits(m, now),
    ensures
        spec_liquidity(m) == m.cash + m.total_borrows - m.total_reserves,
        spec_exchange_rate(spec_accrue(m, now)) >= spec_exchange_rate(m),
{
    let m1 = spec_accrue(m, now);
    if now != m.accrual_timestamp {
        let dt = now - m.accrual_timestamp;
        let db = crate::market::accrue_delta_borrows(m, dt);
        let dr = crate::market::accrue_delta_reserves(m, dt);
        crate::math::lemma_scale_down(db, m.reserve_factor as int);
        assert(db >= 0) by {
            lemma_div_pos_is_pos(
                crate::market::accrue_rate(m) * dt * m.total_borrows,
                WAD as int,
            );
            lemma_rate_nonneg(m, dt);
        }
        assert(spec_liquidity(m1) >= spec_liquidity(m));
        if m.total_supply != 0 {
            assert(spec_liquidity(m1) * WAD >= spec_liquidity(m) * WAD);
            lemma_div_is_ordered(
                spec_liquidity(m) * WAD,
                spec_liquidity(m1) * WAD,
                m.total_supply as int,
            );
        }
    }
}

/// The accrual rate and its products are never negative.
proof fn lemma_rate_nonneg(m: Market, dt: int)
    requires
        m.wf(),
        dt >= 0,
    ensures
        crate::market::accrue_rate(m) * dt * m.total_borrows >= 0,
        crate::market::accrue_rate(m) * dt * m.borrow_index >= 0,
{
    let rate = crate::market::accrue_rate(m);
    assert(rate >= 0) by {
        lemma_borrow_rate_nonneg(m.rate_model, m.total_borrows as int, spec_liquidity(m));
    }
    assert(rate * dt * m.total_borrows >= 0 && rate * dt * m.borrow_index >= 0)
        by (nonlinear_arith)
        requires
            rate >= 0 && dt >= 0 && m.total_borrows >= 0 && m.borrow_index >= 0,
    ;
}

/// The two-slope model never answers a negative rate.
proof fn lemma_borrow_rate_nonneg(md: crate::interest_rate_model::RateModel, b: int, l: int)
    requires
        md.wf(),
        b >= 0,
        l >= 0,
    ensures
        crate::interest_rate_model::spec_borrow_rate(md, b, l) >= 0,
{
    if b != 0 && l != 0 {
        let u = b * WAD / l;
        assert(u >= 0) by {
            assert(b * WAD >= 0) by (nonlinear_arith)
                requires
                    b >= 0,
            ;
            lemma_div_pos_is_pos(b * WAD, l);
        }
        if u <= md.optimal_utilization {
            assert(md.first_slope * u >= 0) by (nonlinear_arith)
                requires
                    u >= 0,
            ;
            lemma_div_pos_is_pos(md.first_slope * u, WAD as int);
        } else {
            assert(md.first_slope * md.optimal_utilization >= 0) by (nonlinear_arith);
            assert(md.last_slope * (u - md.optimal_utilization) >= 0) by (nonlinear_arith)
                requires
                    u > md.optimal_utilization,
            ;
            lemma_div_pos_is_pos(md.first_slope * md.optimal_utilization, WAD as int);
            lemma_div_pos_is_pos(md.last_slope * (u - md.optimal_utilization), WAD as int);
        }
    }
}

/// An active market's share supply never falls below the permanently
/// burned floor.
pub proof fn lemma_active_supply_floor(m: Market)
    requires
        m.wf(),
        m.state == State::Active,
    ensures
        m.total_supply >= MIN_INITIAL_SUPPLY,
{
}

/// The borrow index starts at one WAD and never decreases across an
/// accrual.
pub proof fn lemma_borrow_index_monotonic(m: Market, now: u64)
    requires
        m.wf(),
        now >= m.accrual_timestamp,
        accrue_fits(m, now),
    ensures
        spec_accrue(m, now).borrow_index >= m.borrow_index,
        m.borrow_index >= WAD,
{
    if now != m.accrual_timestamp {
        let dt = now - m.accrual_timestamp;
        assert(crate::market::accrue_delta_index(m, dt) >= 0) by {
            lemma_rate_nonneg(m, dt);
            lemma_div_pos_is_pos(
                crate::market::accrue_rate(m) * dt * m.borrow_index,
                WAD as int,
            );
        }
    }
}

/// For every whitelisted market, the stored total equals the sum of the
/// account collateral balances.
pub proof fn lemma_collateral_sum_invariant(c: Controller, m: u64)
    requires
        c.wf(),
        c.whitelisted(m),
    ensures
        c.markets.lookup(m, 0, 0).unwrap().total_collateral_tokens == sum_collateral(
            c.collaterals@,
            m,
        ),
{
    let i = choose|i: int|
        0 <= i < c.markets.entries.len() && has_key(#[trigger] c.markets.entries[i], m, 0, 0);
    c.markets.lemma_lookup_at(m, 0, 0, i);
}

/// Collateral factors respect the tiers: the stablecoin-borrower factor
/// never exceeds the ordinary one, both stay at or under 90%, and any
/// pending change respects the same bounds and the largest allowed
/// decrease against the current values.
pub proof fn lemma_collateral_factor_bounds(c: Controller, m: u64)
    requires
        c.wf(),
        c.whitelisted(m),
    ensures
        ({
            let e = c.markets.lookup(m, 0, 0).unwrap();
            {
                &&& e.ush_borrower_collateral_factor <= e.collateral_factor
                    <= MAX_COLLATERAL_FACTOR
                &&& (e.next_factors matches Some(n) ==> n.uf <= n.cf <= MAX_COLLATERAL_FACTOR
                    && valid_decrease(n.cf as int, e.collateral_factor as int) && valid_decrease(
                    n.uf as int,
                    e.ush_borrower_collateral_factor as int,
                ))
            }
        }),
{
    let i = choose|i: int|
        0 <= i < c.markets.entries.len() && has_key(#[trigger] c.markets.entries[i], m, 0, 0);
    c.markets.lemma_lookup_at(m, 0, 0, i);
    assert(c.markets.entries[i].val.wf());
}

/// No account is ever in more than the configured number of markets,
/// itself at most eight.
pub proof fn lemma_membership_bound(c: Controller, a: u64)
    requires
        c.wf(),
    ensures
        count_memberships(c.memberships@, a) <= c.max_markets_per_account,
        c.max_markets_per_account <= MAX_MARKETS_PER_ACCOUNT,
{
}

/// A market never carries more rewards batches than its configured
/// maximum, and a batch's index never falls across a state update.
pub proof fn lemma_rewards_batch_bounds(
    c: Controller,
    m: u64,
    b: crate::controller::RewardsBatch,
    denom: int,
    now: u64,
)
    requires
        c.wf(),
        c.whitelisted(m),
        denom >= 0,
        spec_batch_update(b, denom, now) is Some,
    ensures
        count_batches(c.batches@, m) <= c.markets.lookup(m, 0, 0).unwrap().max_rewards_batches,
        spec_batch_update(b, denom, now).unwrap().0.index >= b.index,
{
    let i = choose|i: int|
        0 <= i < c.markets.entries.len() && has_key(#[trigger] c.markets.entries[i], m, 0, 0);
    c.markets.lemma_lookup_at(m, 0, 0, i);
    let stop: u64 = if now > b.end_time {
        b.end_time
    } else {
        now
    };
    if b.last_time < stop && b.speed > 0 {
        let accrued = b.speed * (stop - b.last_time);
        assert(accrued >= 0) by (nonlinear_arith)
            requires
                accrued == b.speed * (stop - b.last_time) && b.speed >= 0 && b.last_time < stop,
        ;
        if denom != 0 && accrued <= u128::MAX {
            assert(accrued * WAD >= 0) by (nonlinear_arith)
                requires
                    accrued >= 0 && WAD > 0,
            ;
            lemma_div_pos_is_pos(accrued * WAD, denom);
        }
    }
}

/// Accruing twice at one timestamp changes nothing the second time.
pub proof fn lemma_accrue_idempotent(m: Market, now: u64)
    requires
        m.wf(),
        now >= m.accrual_timestamp,
    ensures
        spec_accrue(spec_accrue(m, now), now) == spec_accrue(m, now),
{
}

/// The stablecoin market's accrual is idempotent too, and it keeps the
/// effective borrows at or under the total borrows, because both grow by
/// the same interest.
pub proof fn lemma_ush_accrue_laws(m: UshMarket, now: u64)
    requires
        m.wf(),
        now >= m.accrual_timestamp,
        ush_accrue_fits(m, now),
        m.effective_borrows <= m.total_borrows,
    ensures
        spec_ush_accrue(spec_ush_accrue(m, now), now) == spec_ush_accrue(m, now),
        spec_ush_accrue(m, now).effective_borrows <= spec_ush_accrue(m, now).total_borrows,
{
}

/// Right after an interaction stamps a borrower's snapshot at the
/// current index, recomputing the debt from the snapshot returns the
/// stored amount exactly; truncation can only drift once the index moves
/// on.
pub proof fn lemma_ush_snapshot_recomputes_exactly(m: UshMarket, a: u64)
    requires
        m.wf(),
        m.snapshots.lookup(a, 0, 0) is Some,
        m.snapshots.lookup(a, 0, 0).unwrap().borrow_index == m.borrow_index,
    ensures
        crate::ush_market::spec_ush_account_borrow(m, a) == m.snapshots.lookup(
            a,
            0,
            0,
        ).unwrap().borrow_amount,
{
    let s = m.snapshots.lookup(a, 0, 0).unwrap();
    let mi = m.borrow_index as int;
    let d = s.discount as int;
    assert(d <= WAD && mi >= WAD) by {
        let i = choose|i: int|
            0 <= i < m.snapshots.entries.len() && has_key(#[trigger] m.snapshots.entries[i], a, 0, 0);
        m.snapshots.lemma_lookup_at(a, 0, 0, i);
    }
    assert(mi * (WAD - d) == (WAD - d) * mi) by (nonlinear_arith);
    lemma_div_multiples_vanish(WAD - d, mi);
    assert(mi * (WAD - d) / mi + d == WAD);
    assert(s.borrow_amount * (WAD as int) == (WAD as int) * (s.borrow_amount as int))
        by (nonlinear_arith);
    lemma_div_multiples_vanish(s.borrow_amount as int, WAD as int);
}

/// Advancing a rewards batch twice at one timestamp is a no-op the
/// second time, so updating the batch state and then distributing equals
/// the composite call whatever bookkeeping ran in between at other
/// markets.
pub proof fn lemma_batch_update_idempotent(
    b: crate::controller::RewardsBatch,
    denom: int,
    now: u64,
)
    requires
        b.last_time <= b.end_time,
        spec_batch_update(b, denom, now) is Some,
    ensures
        spec_batch_update(spec_batch_update(b, denom, now).unwrap().0, denom, now) == Some(
            (spec_batch_update(b, denom, now).unwrap().0, 0int),
        ),
{
}

/// Converting underlying to share tokens and back never returns more
/// than was put in, and misses it by less than one share token's value;
/// at an exchange rate of exactly one WAD the round trip is exact.
pub proof fn lemma_conversion_round_trip(m: Market, x: u128)
    requires
        m.wf(),
        spec_exchange_rate(m) > 0,
        spec_exchange_rate(m) <= u128::MAX,
    ensures
        spec_tokens_to_underlying(m, spec_underlying_to_tokens(m, x as int)) <= x,
        x - spec_tokens_to_underlying(m, spec_underlying_to_tokens(m, x as int)) <= (
        spec_exchange_rate(m) - 1) / (WAD as int) + 1,
        spec_exchange_rate(m) == WAD ==> spec_tokens_to_underlying(
            m,
            spec_underlying_to_tokens(m, x as int),
        ) == x,
{
    let fx = spec_exchange_rate(m);
    let tokens = x * WAD / fx;
    let back = fx * tokens / (WAD as int);
    lemma_fundamental_div_mod(x * WAD, fx);
    lemma_mod_division_less_than_divisor(x * WAD, fx);
    let r1 = (x * WAD) % fx;
    assert(fx * tokens == x * WAD - r1) by (nonlinear_arith)
        requires
            x * WAD == fx * (x * WAD / fx) + r1 && tokens == x * WAD / fx,
    ;
    // back == (x * WAD - r1) / WAD, which is x minus the rounded loss
    lemma_round_loss_bounds(x as int, fx, r1);
    assert(back == (x * WAD - r1) / (WAD as int));
    if fx == WAD {
        assert(r1 == 0) by {
            vstd::arithmetic::div_mod::lemma_mod_multiples_basic(x as int, WAD as int);
        }
        assert(((0 + WAD - 1) as int) / (WAD as int) == 0) by {
            vstd::arithmetic::div_mod::lemma_basic_div((WAD - 1) as int, WAD as int);
        }
    }
}

/// The rounded loss `ceil(r1 / WAD)` of the round trip lies between zero
/// and `(fx - 1) / WAD + 1`, and vanishes when the exchange rate is one
/// WAD.
proof fn lemma_round_loss_bounds(x: int, fx: int, r1: int)
    requires
        0 <= r1 < fx,
        x >= 0,
        fx > 0,
    ensures
        (x * WAD - r1) / (WAD as int) == x - ((r1 + WAD - 1) / (WAD as int)),
        0 <= (r1 + WAD - 1) / (WAD as int) <= (fx - 1) / (WAD as int) + 1,
{
    let w = WAD as int;
    let loss = (r1 + w - 1) / w;
    lemma_div_pos_is_pos(r1 + w - 1, w);
    lemma_div_is_ordered(r1 + w - 1, fx - 1 + w - 1, w);
    assert((fx - 1 + w - 1) / w <= (fx - 1) / w + 1) by {
        lemma_fundamental_div_mod(fx - 1, w);
        lemma_mod_division_less_than_divisor(fx - 1, w);
        lemma_fundamental_div_mod_converse(
            fx - 1 + w,
            w,
            (fx - 1) / w + 1,
            (fx - 1) % w,
        );
        lemma_div_is_ordered(fx - 1 + w - 1, fx - 1 + w, w);
    }
    // x * WAD - r1 == (x - loss) * WAD + (loss * WAD - r1), with the tail in [0, WAD)
    lemma_fundamental_div_mod(r1 + w - 1, w);
    lemma_mod_division_less_than_divisor(r1 + w - 1, w);
    assert(loss * w - r1 >= 0 && loss * w - r1 < w) by (nonlinear_arith)
        requires
            r1 + w - 1 == w * loss + ((r1 + w - 1) % w) && 0 <= (r1 + w - 1) % w < w && w > 0,
    ;
    assert(x * w - r1 == (x - loss) * w + (loss * w - r1)) by (nonlinear_arith);
    lemma_fundamental_div_mod_converse(x * w - r1, w, x - loss, loss * w - r1);
    if fx == w {
        assert(loss <= 1);
    }
}

/// A deposit at an exchange rate of one WAD mints exactly as many share
/// tokens, and redeeming them right away returns exactly the deposit:
/// the freshly accrued, otherwise idle market charges nothing.
pub proof fn lemma_mint_redeem_exact(m: Market, x: u128, now: u64)
    requires
        m.wf(),
        m.state == State::Active,
        m.accrual_timestamp == now,
        x > 0,
        m.total_supply == spec_liquidity(m),
        m.total_supply > 0,
        m.staking_rewards <= m.cash,
        x <= u128::MAX - m.total_supply,
        m.cash + x + m.total_borrows <= u128::MAX,
    ensures
        ({
            let minted = spec_mint(m, x, now);
            minted.0 == Ok::<u128, crate::errors::Error>(x) && {
                let redeemed = spec_redeem_tokens(minted.1, x, now);
                redeemed.0 == Ok::<u128, crate::errors::Error>(x)
            }
        }),
{
    let s = m.total_supply as int;
    lemma_exchange_rate_at_par(spec_liquidity(m), s);
    assert(spec_exchange_rate(m) == WAD);
    lemma_div_multiples_vanish(x as int, WAD as int);
    assert(x * WAD / (WAD as int) == x) by {
        assert(x * WAD == (WAD as int) * x) by (nonlinear_arith);
    }
    assert(spec_underlying_to_tokens(m, x as int) == x);
    let m1 = spec_mint(m, x, now).1;
    assert(spec_liquidity(m1) == spec_liquidity(m) + x);
    assert(m1.total_supply == s + x);
    lemma_exchange_rate_at_par(spec_liquidity(m1), s + x);
    assert(spec_exchange_rate(m1) == WAD);
    assert(WAD * x / (WAD as int) == x) by {
        lemma_div_multiples_vanish(x as int, WAD as int);
    }
    assert(spec_tokens_to_underlying(m1, x as int) == x);
}

/// When the backing liquidity equals the share supply, the exchange rate
/// is exactly one WAD.
proof fn lemma_exchange_rate_at_par(l: int, s: int)
    requires
        l == s,
        s > 0,
    ensures
        l * WAD / s == WAD,
{
    lemma_fundamental_div_mod_converse(l * WAD, s, WAD as int, 0);
    assert(l * WAD == s * WAD + 0) by (nonlinear_arith)
        requires
            l == s,
    ;
}

} // verus!
