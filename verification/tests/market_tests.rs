use money_market::interest_rate_model::{InterestRateModel, RateModel};
use money_market::market::{
    BorrowModule, Market, MintModule, MoneyMarket, RedeemModule, RepayBorrowModule, SeizeModule,
    StakingModule, State,
};

const WAD: u128 = 1_000_000_000_000_000_000;

fn flat_rate_model(rate: u128) -> RateModel {
    // zero first slope: the borrow rate equals the base rate while the
    // utilization stays under the optimal point
    RateModel {
        base_rate: rate,
        first_slope: 0,
        last_slope: 1,
        optimal_utilization: 900_000_000_000_000_000,
        max_borrow_rate: 2 * rate + 2,
    }
}

fn active_market(cash: u128, borrows: u128, supply: u128, rate: u128) -> Market {
    let mut m = Market::new(WAD, flat_rate_model(rate), 0).expect("market");
    m.state = State::Active;
    m.cash = cash;
    m.total_borrows = borrows;
    m.total_supply = supply;
    m
}

#[test]
fn accrual_math_one_day() {
    // cash 1000e18, borrows 500e18, reserve factor 0.1, stake factor 0.5,
    // rate 1e9 per second, one day elapsed
    let mut m = active_market(1_000 * WAD, 500 * WAD, 1_500 * WAD, 1_000_000_000);
    m.reserve_factor = 100_000_000_000_000_000;
    m.stake_factor = 500_000_000_000_000_000;
    m.accrue_interest(86_400).expect("accrue");
    let delta_borrows = 43_200_000_000_000_000u128; // 1e9 * 86400 * 500e18 / 1e18
    assert_eq!(m.total_borrows, 500 * WAD + delta_borrows);
    assert_eq!(m.total_reserves, 4_320_000_000_000_000);
    assert_eq!(m.staking_rewards, 2_160_000_000_000_000);
    assert_eq!(m.historical_staking_rewards, 2_160_000_000_000_000);
    assert_eq!(m.revenue, 2_160_000_000_000_000);
    assert_eq!(m.borrow_index, 1_000_086_400_000_000_000);
    assert_eq!(m.accrual_timestamp, 86_400);
}

#[test]
fn accrue_twice_same_timestamp_is_noop() {
    let mut m = active_market(1_000 * WAD, 500 * WAD, 1_500 * WAD, 1_000_000_000);
    m.reserve_factor = 100_000_000_000_000_000;
    m.accrue_interest(86_400).expect("accrue");
    let borrows = m.total_borrows;
    let reserves = m.total_reserves;
    let index = m.borrow_index;
    m.accrue_interest(86_400).expect("second accrue");
    assert_eq!(m.total_borrows, borrows);
    assert_eq!(m.total_reserves, reserves);
    assert_eq!(m.borrow_index, index);
}

#[test]
fn exchange_rate_never_falls_under_accrual() {
    let mut m = active_market(1_000 * WAD, 500 * WAD, 1_500 * WAD, 1_000_000_000);
    m.reserve_factor = WAD; // the whole interest goes to reserves
    let fx_before = m.get_stored_exchange_rate().expect("rate");
    m.accrue_interest(86_400).expect("accrue");
    let fx_after = m.get_stored_exchange_rate().expect("rate");
    assert!(fx_after >= fx_before);
}

#[test]
fn mint_then_redeem_returns_deposit_at_par() {
    let mut m = active_market(10_000, 0, 10_000, 1_000_000_000);
    let x = 777u128;
    let tokens = m.mint(x, 0).expect("mint");
    assert_eq!(tokens, x);
    let back = m.redeem_tokens(tokens, 0).expect("redeem");
    assert_eq!(back, x);
    assert_eq!(m.cash, 10_000);
    assert_eq!(m.total_supply, 10_000);
}

#[test]
fn mint_requires_active_fresh_and_value() {
    let mut m = Market::new(WAD, flat_rate_model(0), 0).expect("market");
    assert!(m.mint(100, 0).is_err()); // inactive
    let mut m = active_market(10_000, 0, 10_000, 0);
    assert!(m.mint(0, 0).is_err()); // no payment
    assert!(m.mint(100, 5).is_err()); // not accrued to now
}

#[test]
fn redeem_respects_staking_rewards_guard() {
    let mut m = active_market(100, 950, 10_000, 0);
    m.total_reserves = 50;
    m.staking_rewards = 50;
    // the payout would dip into the staking rewards
    assert!(m.redeem_tokens(2_000, 0).is_err());
}

#[test]
fn borrow_and_repay_update_snapshot_and_totals() {
    let mut m = active_market(1_000, 0, 1_000, 0);
    let new_borrow = BorrowModule::borrow(&mut m, 7, 400, 0).expect("borrow");
    assert_eq!(new_borrow, 400);
    assert_eq!(m.cash, 600);
    assert_eq!(m.total_borrows, 400);
    let (repaid, refund, left) = m.repay_borrow(7, 500, 0).expect("repay");
    assert_eq!(repaid, 400);
    assert_eq!(refund, 100);
    assert_eq!(left, 0);
    assert_eq!(m.cash, 1_000);
    assert_eq!(m.total_borrows, 0);
}

#[test]
fn repayment_is_clamped_to_total_borrows() {
    let mut m = active_market(1_000, 0, 1_000, 0);
    BorrowModule::borrow(&mut m, 7, 400, 0).expect("borrow");
    // truncation elsewhere can leave the pool owing less than the account
    m.total_borrows = 300;
    let (repaid, refund, left) = m.repay_borrow(7, 400, 0).expect("repay");
    assert_eq!(repaid, 300);
    assert_eq!(refund, 100);
    assert_eq!(left, 0);
}

#[test]
fn seize_splits_between_liquidator_and_reserves() {
    // liquidation sizing scenario, scaled to whole WAD units: 54e18 seized
    // tokens at a 5% protocol share and 25% stake factor
    let mut m = active_market(1_000_000 * WAD, 0, 1_000_000 * WAD, 0);
    m.protocol_seize_share = 50_000_000_000_000_000;
    m.stake_factor = 250_000_000_000_000_000;
    let (liquidator_tokens, protocol_tokens, delta_reserves) =
        m.seize(54 * WAD, 0).expect("seize");
    assert_eq!(protocol_tokens, 2_700_000_000_000_000_000); // 2.7e18
    assert_eq!(liquidator_tokens, 54 * WAD - 2_700_000_000_000_000_000);
    assert_eq!(delta_reserves, 2_700_000_000_000_000_000); // at par
    assert_eq!(m.staking_rewards, 675_000_000_000_000_000); // 0.675e18
    assert_eq!(m.revenue, 2_025_000_000_000_000_000); // 2.025e18
    assert_eq!(m.total_supply, 1_000_000 * WAD - 2_700_000_000_000_000_000);
}

#[test]
fn initial_supply_floor_holds_after_activation() {
    let mut m = Market::new(WAD, flat_rate_model(0), 0).expect("market");
    let left = m.mint_initial_supply(5_000, 0).expect("initial supply");
    assert_eq!(left, 4_000);
    assert!(matches!(m.state, State::Active));
    assert_eq!(m.total_supply, 5_000);
    // too small a deposit cannot activate a market
    let mut small = Market::new(WAD, flat_rate_model(0), 0).expect("market");
    assert!(small.mint_initial_supply(999, 0).is_err());
}

#[test]
fn claim_staking_rewards_moves_cash_out() {
    let mut m = active_market(1_000, 0, 1_000, 0);
    m.total_reserves = 300;
    m.staking_rewards = 200;
    m.revenue = 100;
    let paid = m.claim_staking_rewards(0).expect("claim");
    assert_eq!(paid, 200);
    assert_eq!(m.staking_rewards, 0);
    assert_eq!(m.total_reserves, 100);
    assert_eq!(m.cash, 800);
}

#[test]
fn reserve_governance_checks_bounds() {
    let mut m = active_market(1_000, 0, 1_000, 0);
    assert!(m.set_reserve_factor(WAD + 1, 0).is_err());
    assert!(m.set_reserve_factor(WAD, 0).is_ok());
    assert!(m.set_close_factor(100).is_err()); // under the minimum
    assert!(m.set_close_factor(WAD / 2).is_ok());
    assert!(m.set_liquidation_incentive(WAD).is_err()); // no liquidator margin
    assert!(m.set_liquidation_incentive(1_080_000_000_000_000_000).is_ok());
    assert!(m.set_protocol_seize_share(WAD).is_err());
    assert!(m.set_protocol_seize_share(50_000_000_000_000_000).is_ok());
    m.add_reserves(100, 0).expect("donate");
    assert_eq!(m.revenue, 100);
    assert!(m.reduce_reserves(200, 0).is_err()); // beyond revenue
    assert!(m.reduce_reserves(100, 0).is_ok());
}

#[test]
fn rate_model_matches_two_slope_formula() {
    let model = RateModel {
        base_rate: 1_000,
        first_slope: 2_000_000,
        last_slope: 4_000_000,
        optimal_utilization: 800_000_000_000_000_000,
        max_borrow_rate: 10_000_000,
    };
    // below the optimal point: r0 + m1 * u / WAD with u = 0.5 WAD
    let r = model.get_borrow_rate(500, 1_000).expect("rate");
    assert_eq!(r, 1_000 + 1_000_000);
    // no borrows: the base rate
    assert_eq!(model.get_borrow_rate(0, 1_000).expect("rate"), 1_000);
    // no liquidity: the clamp
    assert_eq!(model.get_borrow_rate(500, 0).expect("rate"), 10_000_000);
    // above the optimal point the second slope applies
    let r = model.get_borrow_rate(900, 1_000).expect("rate");
    let r1 = 2_000_000u128 * 800_000_000_000_000_000 / WAD + 1_000;
    let r2 = r1 + 4_000_000u128 * 100_000_000_000_000_000 / WAD;
    assert_eq!(r, r2);
    // the supply rate scales by utilization and the reserve share
    let s = model
        .get_supply_rate(500, 1_000, 100_000_000_000_000_000)
        .expect("supply rate");
    let u = 500u128 * WAD / 1_000;
    let expected = u * (1_000 + 1_000_000) / WAD * (WAD - 100_000_000_000_000_000) / WAD;
    assert_eq!(s, expected);
}

#[test]
fn arithmetic_overflow_is_reported() {
    let mut m = active_market(u128::MAX - 10, 0, 1_000, 0);
    assert!(matches!(
        m.add_reserves(100, 0),
        Err(money_market::errors::Error::Arithmetic)
    ));
}
