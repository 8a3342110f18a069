use money_market::controller::Controller;
use money_market::errors::Error;
use money_market::interest_rate_model::RateModel;
use money_market::market::BorrowModule;
use money_market::market::{Market, State as MarketState};
use money_market::ush_market::{
    AccountSnapshot, CommonsModule, DiscountStrategy, InteractionType, ObserverModule, State,
    UshMarket, UshMoneyMarket,
};

const WAD: u128 = 1_000_000_000_000_000_000;

#[test]
fn discounted_borrow_accrues_less() {
    // borrow 1000, discount 0.25, snapshot at one WAD; the index moves to
    // 1.01 WAD: the debt compounds to 1007.5, not 1010
    let mut m = UshMarket::new(0);
    m.snapshots.set(42, 0, 0, AccountSnapshot::new(1_000 * WAD, WAD, 250_000_000_000_000_000));
    m.borrow_index = 1_010_000_000_000_000_000;
    let owed = m.stored_account_borrow_amount(42).expect("owed");
    assert_eq!(owed, 1_007_500_000_000_000_000_000);
}

#[test]
fn ush_accrual_feeds_reserves_and_rounds_the_index_up() {
    let mut m = UshMarket::new(0);
    m.borrow_rate = 1_000_000_000;
    m.borrow_rate_set = true;
    m.total_borrows = 1_000 * WAD;
    m.effective_borrows = 800 * WAD;
    m.stake_factor = 500_000_000_000_000_000;
    m.accrue_interest(86_400).expect("accrue");
    // interest runs on the effective borrows only
    let expected = 69_120_000_000_000_000u128; // 1e9 * 86400 * 800e18 / 1e18
    assert_eq!(m.total_borrows, 1_000 * WAD + expected);
    assert_eq!(m.effective_borrows, 800 * WAD + expected);
    assert_eq!(m.total_reserves, expected);
    assert_eq!(m.staking_rewards, expected / 2);
    assert_eq!(m.revenue, expected - expected / 2);
    assert_eq!(m.borrow_index, WAD + 86_400_000_000_000);
    // a second accrual at the same time changes nothing
    let snapshot = m.total_borrows;
    m.accrue_interest(86_400).expect("again");
    assert_eq!(m.total_borrows, snapshot);
}

#[test]
fn borrow_rate_changes_are_bounded_and_timed() {
    let mut m = UshMarket::new(0);
    // the first rate must stay under one WAD per year
    assert!(m.set_borrow_apr(2 * WAD, 0).is_err());
    m.set_borrow_apr(WAD / 2, 0).expect("initial rate");
    let rate = m.borrow_rate;
    // more than ten percent off in one step is refused
    let too_low = rate - rate / 9;
    assert!(m.set_borrow_apr(too_low * 31_556_926, 0).is_err());
    // an increase must wait a day since the last change
    let up = rate + rate / 20;
    assert!(matches!(
        m.set_borrow_apr(up * 31_556_926, 3_600),
        Err(Error::InvalidConfiguration)
    ));
    // a decrease within the band applies at once
    let down = rate - rate / 20;
    m.accrual_timestamp = 3_600;
    m.set_borrow_apr(down * 31_556_926, 3_600).expect("decrease");
    assert_eq!(m.borrow_rate, down);
    // after a day the increase goes through
    m.accrual_timestamp = 3_600 + 86_400;
    m.set_borrow_apr((down + down / 20) * 31_556_926, 3_600 + 86_400)
        .expect("increase after delay");
}

#[test]
fn update_borrows_data_tracks_principal_and_effective_borrows() {
    let mut m = UshMarket::new(0);
    let (eff, new_borrow, total) = m
        .update_borrows_data(
            7,
            500,
            InteractionType::Borrow,
            DiscountStrategy::UpdatedExchangeRate,
            200_000_000_000_000_000,
            0,
        )
        .expect("borrow");
    assert_eq!((eff, new_borrow, total), (500, 500, 500));
    assert_eq!(m.total_principal, 500);
    // the effective contribution is scaled by one minus the discount
    assert_eq!(m.effective_borrows, 400);
    let (repaid, left, total) = match m.update_borrows_data(
        7,
        200,
        InteractionType::RepayBorrow,
        DiscountStrategy::PreviousDiscount,
        0,
        0,
    ) {
        Ok(v) => v,
        Err(e) => panic!("repay failed: {:?}", e),
    };
    assert_eq!((repaid, left, total), (200, 300, 300));
    assert_eq!(m.total_principal, 300);
    assert_eq!(m.effective_borrows, 240);
    // a membership notification may not carry value
    assert!(matches!(
        m.update_borrows_data(
            7,
            1,
            InteractionType::EnterOrExitMarket,
            DiscountStrategy::PreviousDiscount,
            0,
            0,
        ),
        Err(Error::InvalidPayment)
    ));
}

#[test]
fn ush_mint_and_redeem_use_the_fixed_scale() {
    let mut m = UshMarket::new(0);
    m.state = State::Active;
    // ten stablecoins of eighteen decimals become share tokens of eight
    let tokens = m.mint(10 * WAD, 0).expect("mint");
    assert_eq!(tokens, 1_000_000_000); // 10e8
    assert_eq!(m.total_supply, 1_000_000_000);
    let back = m.redeem_tokens(tokens, 0).expect("redeem");
    assert_eq!(back, 10 * WAD);
    assert_eq!(m.total_supply, 0);
}

fn flat_rate_model() -> RateModel {
    RateModel {
        base_rate: 0,
        first_slope: 0,
        last_slope: 1,
        optimal_utilization: 900_000_000_000_000_000,
        max_borrow_rate: 2,
    }
}

#[test]
fn liquidation_seizes_collateral_and_shrinks_the_debt() {
    let mut ctl = Controller::new();
    ctl.support_market(0).expect("support collateral");
    ctl.support_market(9).expect("support ush");
    ctl.set_ush_market_observer(9).expect("observer");
    ctl.set_underlying_price(0, Some(2 * WAD)).expect("price");
    ctl.set_underlying_price(9, Some(WAD)).expect("ush price");
    ctl.set_collateral_factors(0, 500_000_000_000_000_000, 400_000_000_000_000_000, 0)
        .expect("factors");

    let mut collateral = Market::new(WAD, flat_rate_model(), 0).expect("market");
    collateral.state = MarketState::Active;
    collateral.cash = 1_000_000;
    collateral.total_supply = 1_000_000;

    let mut ush = UshMarket::new(0);
    ush.state = State::Active;

    // the borrower pledges 1000 collateral tokens and owes 900 stablecoins
    ctl.enter_market(0, 42, 1_000).expect("enter collateral");
    ctl.enter_market(9, 42, 0).expect("enter ush");
    ush.update_borrows_data(
        42,
        900,
        InteractionType::Borrow,
        DiscountStrategy::UpdatedExchangeRate,
        0,
        0,
    )
    .expect("borrow");

    // weighted collateral 0.4 * 2 * 1000 = 800 covers less than the 900
    // debt, so a liquidation of up to the close factor's 180 may run
    let markets: Vec<Market> = Vec::new();
    let too_much = money_market::protocol::liquidate_borrow(
        &mut ctl,
        &mut ush,
        9,
        &mut collateral,
        0,
        &markets,
        5,
        42,
        181,
        0,
        0,
    );
    assert!(matches!(too_much, Err(Error::RepaymentTooLarge)));

    let (liquidator_tokens, total_seized) = money_market::protocol::liquidate_borrow(
        &mut ctl,
        &mut ush,
        9,
        &mut collateral,
        0,
        &markets,
        5,
        42,
        100,
        0,
        0,
    )
    .expect("liquidation");
    // repay 100 at price one against collateral at two with a 1.01
    // incentive: 50 tokens, all to the liquidator at a zero seize share
    assert_eq!(total_seized, 50);
    assert_eq!(liquidator_tokens, 50);
    assert_eq!(ctl.get_account_collateral_tokens(0, 42), 950);
    let owed = ush.stored_account_borrow_amount(42).expect("owed");
    assert_eq!(owed, 800);
    assert_eq!(ush.total_borrows, 800);
}

#[test]
fn borrow_flow_refuses_an_undercollateralized_account() {
    let mut ctl = Controller::new();
    ctl.support_market(0).expect("support");
    ctl.set_underlying_price(0, Some(WAD)).expect("price");
    ctl.set_collateral_factors(0, 500_000_000_000_000_000, 400_000_000_000_000_000, 0)
        .expect("factors");
    let mut market = Market::new(WAD, flat_rate_model(), 0).expect("market");
    market.state = MarketState::Active;
    market.cash = 1_000_000;
    market.total_supply = 1_000_000;
    ctl.enter_market(0, 42, 100).expect("enter");
    let mut markets = vec![market];
    let ush = UshMarket::new(0);
    // one hundred collateral at a half factor covers a borrow of 50 only
    let refused = money_market::protocol::borrow(
        &mut ctl, &mut markets, 0, &ush, 9, 42, 60, 0,
    );
    assert!(matches!(refused, Err(Error::RiskyOrInsolvent)));
    let granted = money_market::protocol::borrow(
        &mut ctl, &mut markets, 0, &ush, 9, 42, 50, 0,
    )
    .expect("borrow");
    assert_eq!(granted, 50);
    assert_eq!(markets[0].cash, 1_000_000 - 50);
}

#[test]
fn repay_flow_releases_the_membership() {
    let mut ctl = Controller::new();
    ctl.support_market(0).expect("support");
    ctl.set_underlying_price(0, Some(WAD)).expect("price");
    let mut market = Market::new(WAD, flat_rate_model(), 0).expect("market");
    market.state = MarketState::Active;
    market.cash = 1_000;
    market.total_supply = 1_000;
    ctl.enter_market(0, 7, 0).expect("enter");
    BorrowModule::borrow(&mut market, 7, 100, 0).expect("borrow");
    let (repaid, refund, left) =
        money_market::protocol::repay_borrow(&mut ctl, &mut market, 0, 7, 100, 0)
            .expect("repay");
    assert_eq!((repaid, refund, left), (100, 0, 0));
    assert!(!ctl.account_in_market(7, 0));
}

#[test]
fn observer_notifications_refresh_the_discount() {
    let mut m = UshMarket::new(0);
    m.update_borrows_data(
        7,
        500,
        InteractionType::Borrow,
        DiscountStrategy::UpdatedExchangeRate,
        100_000_000_000_000_000,
        0,
    )
    .expect("borrow");
    // a collateral change elsewhere re-evaluates the discount against
    // cached rates without touching the principal
    m.on_market_change(7, 300_000_000_000_000_000, 0).expect("notify");
    assert_eq!(m.total_principal, 500);
    assert_eq!(m.effective_borrows, 350);
    // non-borrowers are ignored
    m.on_market_change(8, 300_000_000_000_000_000, 0).expect("ignore");
}

#[test]
fn ush_governance_setters_validate_their_bands() {
    let mut m = UshMarket::new(0);
    assert_eq!(m.set_stake_factor(WAD / 2, 0), Ok(()));
    assert_eq!(m.stake_factor, WAD / 2);
    assert_eq!(m.set_stake_factor(WAD + 1, 0), Err(Error::InvalidConfiguration));
    assert_eq!(m.set_close_factor(WAD / 2), Ok(()));
    assert_eq!(m.close_factor, WAD / 2);
    assert_eq!(m.set_close_factor(0), Err(Error::InvalidConfiguration));
    assert_eq!(m.set_accrual_time_threshold(600), Ok(()));
    assert_eq!(m.accrual_time_threshold, 600);
    assert!(m.set_accrual_time_threshold(u64::MAX).is_err());
    // the incentive must leave the liquidator the minimum after the
    // protocol's share, and its bonus stays below 1 / MAX_LTV
    assert_eq!(m.set_liquidation_incentive(11 * WAD / 10), Ok(()));
    assert_eq!(m.liquidation_incentive, 11 * WAD / 10);
    assert!(m.set_liquidation_incentive(3 * WAD).is_err());
    assert_eq!(m.set_protocol_seize_share(WAD / 20), Ok(()));
    assert_eq!(m.protocol_seize_share, WAD / 20);
    assert!(m.set_protocol_seize_share(WAD).is_err());
}

#[test]
fn ush_borrow_and_repay_round_trip() {
    let mut ctl = Controller::new();
    ctl.support_market(0).expect("support collateral");
    ctl.set_underlying_price(0, Some(WAD)).expect("price");
    ctl.set_collateral_factors(0, 500_000_000_000_000_000, 400_000_000_000_000_000, 0)
        .expect("factors");
    ctl.support_market(9).expect("support ush");
    ctl.set_underlying_price(9, Some(WAD)).expect("ush price");
    ctl.set_ush_market_observer(9).expect("observer");
    let mut market = Market::new(WAD, flat_rate_model(), 0).expect("market");
    market.state = MarketState::Active;
    market.cash = 1_000;
    market.total_supply = 1_000;
    ctl.enter_market(0, 42, 100).expect("enter");
    let markets = vec![market];
    let mut ush = UshMarket::new(0);
    ush.state = State::Active;
    // one hundred collateral at the stablecoin factor 0.4 covers 40
    let refused =
        money_market::protocol::ush_borrow(&mut ctl, &markets, &mut ush, 9, 42, 45, 0, 0);
    assert!(matches!(refused, Err(Error::RiskyOrInsolvent)));
    let (owed, total) =
        money_market::protocol::ush_borrow(&mut ctl, &markets, &mut ush, 9, 42, 40, 0, 0)
            .expect("borrow");
    assert_eq!((owed, total), (40, 40));
    assert!(ctl.account_in_market(42, 9));
    let (repaid, left, total) =
        money_market::protocol::ush_repay_borrow(&mut ctl, &mut ush, 9, 42, 40, 0, 0)
            .expect("repay");
    assert_eq!((repaid, left, total), (40, 0, 0));
    assert!(!ctl.account_in_market(42, 9));
}
