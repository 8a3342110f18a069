use money_market::controller::{
    AccountSnapshot, Controller, GuardianModule, Liquidation, RiskProfile, Status, StorageModule,
};
use money_market::errors::Error;
use money_market::policies::PolicyModule;
use money_market::risk_profile::RiskProfileModule;

const WAD: u128 = 1_000_000_000_000_000_000;

fn controller_with_market(m: u64, price: u128) -> Controller {
    let mut c = Controller::new();
    c.support_market(m).expect("support");
    c.set_underlying_price(m, Some(price)).expect("price");
    c
}

#[test]
fn collateral_factor_timelock_defers_decreases() {
    let mut c = controller_with_market(0, WAD);
    // increases apply at once
    c.set_collateral_factors(0, 800_000_000_000_000_000, 600_000_000_000_000_000, 0)
        .expect("initial factors");
    let f = c.update_and_get_collateral_factors(0, 0).expect("read");
    assert_eq!(f, (800_000_000_000_000_000, 600_000_000_000_000_000));
    // a decrease of both waits behind the one-day timelock
    c.set_collateral_factors(0, 750_000_000_000_000_000, 550_000_000_000_000_000, 100)
        .expect("pending decrease");
    let f = c.update_and_get_collateral_factors(0, 100).expect("read");
    assert_eq!(f, (800_000_000_000_000_000, 600_000_000_000_000_000));
    let f = c.update_and_get_collateral_factors(0, 100 + 86_399).expect("read");
    assert_eq!(f, (800_000_000_000_000_000, 600_000_000_000_000_000));
    // the first read past the activation time promotes the pending pair
    let f = c.update_and_get_collateral_factors(0, 100 + 86_400).expect("read");
    assert_eq!(f, (750_000_000_000_000_000, 550_000_000_000_000_000));
    let e = c.market_entry(0).expect("entry");
    assert!(e.next_factors.is_none());
}

#[test]
fn collateral_factor_decrease_is_bounded() {
    let mut c = controller_with_market(0, WAD);
    c.set_collateral_factors(0, 800_000_000_000_000_000, 600_000_000_000_000_000, 0)
        .expect("initial factors");
    // more than a tenth off in one step is refused
    assert!(c
        .set_collateral_factors(0, 650_000_000_000_000_000, 600_000_000_000_000_000, 10)
        .is_err());
    // above the 90% ceiling, or tiers out of order, is refused
    assert!(c
        .set_collateral_factors(0, 950_000_000_000_000_000, 600_000_000_000_000_000, 10)
        .is_err());
    assert!(c
        .set_collateral_factors(0, 800_000_000_000_000_000, 850_000_000_000_000_000, 10)
        .is_err());
}

#[test]
fn collateral_factors_need_a_live_price() {
    let mut c = Controller::new();
    c.support_market(3).expect("support");
    assert!(matches!(
        c.set_collateral_factors(3, 500_000_000_000_000_000, 0, 0),
        Err(Error::OracleUnavailable)
    ));
}

#[test]
fn risk_profile_uses_the_stablecoin_tier_for_ush_borrowers() {
    // market 1: CF 0.8, UF 0.6, fx one WAD, price two WAD; the account
    // holds 1000 collateral tokens there and owes 500 stablecoins
    let mut c = controller_with_market(1, 2 * WAD);
    c.support_market(9).expect("support ush");
    c.set_underlying_price(9, Some(WAD)).expect("ush price");
    c.set_collateral_factors(1, 800_000_000_000_000_000, 600_000_000_000_000_000, 0)
        .expect("factors");
    c.enter_market(1, 42, 1_000).expect("enter");
    c.enter_market(9, 42, 0).expect("enter ush");
    let snaps = vec![
        AccountSnapshot { money_market: 1, underlying_owed_amount: 0, fx: WAD },
        AccountSnapshot { money_market: 9, underlying_owed_amount: 500, fx: WAD },
    ];
    // without the observer the debt is not a stablecoin debt: CF applies
    let p = c
        .simulate_risk_profile(42, 0, 0, 0, true, &snaps, 0)
        .expect("simulate");
    assert_eq!(p, RiskProfile::Solvent(1_100));
    // with market 9 registered as the stablecoin market, UF applies
    c.set_ush_market_observer(9).expect("observer");
    let p = c
        .simulate_risk_profile(42, 0, 0, 0, true, &snaps, 0)
        .expect("simulate");
    assert_eq!(p, RiskProfile::Solvent(700));
}

#[test]
fn lazy_accounts_short_circuit_to_solvent() {
    let mut c = controller_with_market(1, WAD);
    c.enter_market(1, 42, 50).expect("enter");
    let snaps = vec![AccountSnapshot { money_market: 1, underlying_owed_amount: 0, fx: WAD }];
    let p = c
        .simulate_risk_profile(42, 0, 0, 0, true, &snaps, 0)
        .expect("simulate");
    assert_eq!(p, RiskProfile::Solvent(0));
}

#[test]
fn liquidation_sizing_follows_the_incentive_formula() {
    // repay 100 at borrow price one WAD against collateral priced two
    // WAD at an exchange rate of one WAD and a 1.08 incentive: 54 tokens
    let mut c = controller_with_market(0, WAD);
    c.support_market(1).expect("support");
    c.set_underlying_price(1, Some(2 * WAD)).expect("price");
    let seized = c
        .tokens_to_seize(0, 1, 100, WAD, 1_080_000_000_000_000_000)
        .expect("sizing");
    assert_eq!(seized, 54);
    // prices drop out when both markets coincide
    let seized = c
        .tokens_to_seize(0, 0, 100, WAD, 1_080_000_000_000_000_000)
        .expect("sizing");
    assert_eq!(seized, 108);
}

#[test]
fn close_factor_limits_liquidation_repayments() {
    let risky = RiskProfile::RiskyOrInsolvent(10);
    assert_eq!(
        risky.can_be_liquidated(180, 900, 200_000_000_000_000_000),
        Liquidation::Allowed
    );
    assert_eq!(
        risky.can_be_liquidated(181, 900, 200_000_000_000_000_000),
        Liquidation::AllowedButTooMuch
    );
    let solvent = RiskProfile::Solvent(10);
    assert_eq!(
        solvent.can_be_liquidated(1, 900, 200_000_000_000_000_000),
        Liquidation::NotAllowed
    );
}

#[test]
fn collateral_totals_track_account_balances() {
    let mut c = controller_with_market(2, WAD);
    c.enter_market(2, 1, 300).expect("enter");
    c.enter_market(2, 2, 700).expect("enter");
    assert_eq!(c.get_total_collateral_tokens(2), 1_000);
    assert_eq!(c.get_account_collateral_tokens(2, 1), 300);
    c.exit_market(2, 1, 100, 0).expect("exit");
    assert_eq!(c.get_total_collateral_tokens(2), 900);
    assert_eq!(c.get_account_collateral_tokens(2, 1), 200);
    // leaving with everything and no debt drops the membership
    c.exit_market(2, 1, 200, 0).expect("exit all");
    assert!(!c.account_in_market(1, 2));
    assert!(c.account_in_market(2, 2));
    assert_eq!(c.get_total_collateral_tokens(2), 700);
}

#[test]
fn membership_is_capped_per_account() {
    let mut c = Controller::new();
    for m in 0..9u64 {
        c.support_market(m).expect("support");
    }
    for m in 0..8u64 {
        c.enter_market(m, 5, 1).expect("enter");
    }
    assert!(matches!(c.enter_market(8, 5, 1), Err(Error::CapExceeded)));
}

#[test]
fn policy_gates_check_whitelist_pauses_and_caps() {
    let mut c = controller_with_market(0, WAD);
    assert!(matches!(
        c.mint_allowed(1, 10, 0),
        Err(Error::NotWhitelisted)
    ));
    assert!(c.mint_allowed(0, 10, 0).expect("allowed"));
    c.pause_mint(0, true).expect("pause");
    assert!(matches!(c.mint_allowed(0, 10, 0), Err(Error::Paused)));
    c.pause_mint(0, false).expect("resume");
    c.set_liquidity_cap(0, Some(1_000)).expect("cap");
    assert!(matches!(
        c.mint_allowed(0, 600, 500),
        Err(Error::CapExceeded)
    ));
    assert!(c.mint_allowed(0, 400, 500).expect("allowed"));
}

#[test]
fn seize_allowed_respects_pauses() {
    let mut c = controller_with_market(0, WAD);
    c.support_market(1).expect("support");
    c.enter_market(0, 7, 10).expect("enter");
    assert!(c.seize_allowed(0, 1, 7, 0).expect("allowed"));
    c.pause_seize(0, true).expect("pause");
    assert!(matches!(c.seize_allowed(0, 1, 7, 0), Err(Error::Paused)));
    c.pause_seize(0, false).expect("resume");
    c.pause_global_seize(true);
    assert!(matches!(c.seize_allowed(0, 1, 7, 0), Err(Error::Paused)));
    assert_eq!(c.get_global_seize_status(), Status::Paused);
}

#[test]
fn borrowers_must_be_members_before_borrow_checks() {
    let mut c = controller_with_market(0, WAD);
    let snaps: Vec<AccountSnapshot> = Vec::new();
    assert!(matches!(
        c.borrow_allowed(0, 11, 5, 0, 0, 0, &snaps, 0),
        Err(Error::Unauthorized)
    ));
}

#[test]
fn exits_cannot_exceed_the_deposit() {
    let mut c = controller_with_market(0, WAD);
    c.enter_market(0, 9, 50).expect("enter");
    assert!(matches!(
        c.exit_market(0, 9, 60, 0),
        Err(Error::InsufficientCollateral)
    ));
    // a market outside the whitelist answers with that refusal
    assert!(matches!(
        c.update_and_get_collateral_factors(5, 0),
        Err(Error::NotWhitelisted)
    ));
}
