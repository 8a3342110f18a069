use money_market::controller::{Controller, MarketType, SwapStep};
use money_market::errors::Error;
use money_market::rewards::RewardsModule;

const WAD: u128 = 1_000_000_000_000_000_000;
const WAD_WAD: u128 = 1_000_000_000_000_000_000_000_000_000_000_000_000;

fn controller_with_market(m: u64) -> Controller {
    let mut c = Controller::new();
    c.support_market(m).expect("support");
    c
}

#[test]
fn supply_distribution_scenario() {
    // total collateral 1000, batch speed 2e18 per second, ten seconds: the
    // index gains 2e34 and a supplier with 100 tokens collects 2
    let mut c = controller_with_market(0);
    c.enter_market(0, 1, 100).expect("enter supplier");
    c.enter_market(0, 2, 900).expect("enter other");
    let id = c
        .set_rewards_batch(0, MarketType::Supply, 77, 20, 10, 0)
        .expect("batch");
    assert_eq!(id, 1);
    assert_eq!(c.batches[0].speed, 2 * WAD);
    assert_eq!(c.batches[0].index, WAD_WAD);
    c.update_supply_rewards_batches_state(0, 10).expect("update");
    assert_eq!(c.batches[0].index, WAD_WAD + 20_000_000_000_000_000_000_000_000_000_000_000);
    assert_eq!(c.batches[0].last_time, 10);
    c.distribute_supplier_batches_rewards(0, 1).expect("distribute");
    assert_eq!(c.get_account_accrued_rewards(1, 77), 2);
    assert_eq!(c.batches[0].distributed_amount, 2);
    // the second supplier collects the rest of the ten-second window
    c.distribute_supplier_batches_rewards(0, 2).expect("distribute");
    assert_eq!(c.get_account_accrued_rewards(2, 77), 18);
    assert_eq!(c.batches[0].distributed_amount, 20);
}

#[test]
fn update_then_distribute_equals_composite_run() {
    let mut c1 = controller_with_market(0);
    c1.enter_market(0, 1, 100).expect("enter");
    c1.set_rewards_batch(0, MarketType::Supply, 77, 20, 10, 0)
        .expect("batch");
    c1.update_supply_rewards_batches_state(0, 10).expect("update");
    // a second update at the same time is a no-op
    c1.update_supply_rewards_batches_state(0, 10).expect("update again");
    c1.distribute_supplier_batches_rewards(0, 1).expect("distribute");

    let mut c2 = controller_with_market(0);
    c2.enter_market(0, 1, 100).expect("enter");
    c2.set_rewards_batch(0, MarketType::Supply, 77, 20, 10, 0)
        .expect("batch");
    c2.update_supply_rewards_batches_state(0, 10).expect("update");
    c2.distribute_supplier_batches_rewards(0, 1).expect("distribute");

    assert_eq!(
        c1.get_account_accrued_rewards(1, 77),
        c2.get_account_accrued_rewards(1, 77)
    );
    assert_eq!(c1.batches[0].index, c2.batches[0].index);
    assert_eq!(c1.batches[0].distributed_amount, c2.batches[0].distributed_amount);
}

#[test]
fn rewards_without_collateral_go_undistributed() {
    let mut c = controller_with_market(0);
    c.set_rewards_batch(0, MarketType::Supply, 77, 20, 10, 0)
        .expect("batch");
    c.update_supply_rewards_batches_state(0, 10).expect("update");
    // nothing to divide by: the whole window lands in the undistributed pot
    assert_eq!(c.batches[0].distributed_amount, 20);
    let amount = c.claim_undistributed_rewards(77).expect("claim");
    assert_eq!(amount, 20);
    assert!(matches!(
        c.claim_undistributed_rewards(77),
        Err(Error::InvalidPayment)
    ));
}

#[test]
fn borrow_side_uses_base_borrows_plus_one() {
    let mut c = controller_with_market(0);
    c.set_rewards_batch(0, MarketType::Borrow, 55, 20, 10, 0)
        .expect("batch");
    c.update_borrow_rewards_batches_state(0, 999, 10).expect("update");
    // accrued 20e18 over denominator 1000
    assert_eq!(c.batches[0].index, WAD_WAD + 20_000_000_000_000_000_000_000_000_000_000_000);
    c.distribute_borrower_batches_rewards(0, 4, 100).expect("distribute");
    assert_eq!(c.get_account_accrued_rewards(4, 55), 2);
}

#[test]
fn batch_count_is_capped_per_market() {
    let mut c = controller_with_market(0);
    c.set_rewards_batch(0, MarketType::Supply, 1, 10, 10, 0).expect("one");
    c.set_rewards_batch(0, MarketType::Supply, 2, 10, 10, 0).expect("two");
    c.set_rewards_batch(0, MarketType::Borrow, 3, 10, 10, 0).expect("three");
    assert!(matches!(
        c.set_rewards_batch(0, MarketType::Supply, 4, 10, 10, 0),
        Err(Error::CapExceeded)
    ));
}

#[test]
fn batch_lifecycle_operations() {
    let mut c = controller_with_market(0);
    let id = c
        .set_rewards_batch(0, MarketType::Supply, 77, 100, 100, 0)
        .expect("batch");
    // topping up at the same speed extends the end time
    c.add_rewards_batch(0, id, 77, 50, 0).expect("top up");
    assert_eq!(c.batches[0].end_time, 150);
    assert_eq!(c.batches[0].amount, 150);
    // halving the speed doubles the remaining period
    c.update_rewards_batch_speed(0, id, WAD / 2, 50).expect("speed");
    assert_eq!(c.batches[0].speed, WAD / 2);
    assert_eq!(c.batches[0].end_time, 50 + 200);
    // setting the remaining period recomputes the speed
    c.update_rewards_batch_remaining_period(0, id, 100, 50).expect("period");
    assert_eq!(c.batches[0].end_time, 150);
    assert_eq!(c.batches[0].speed, WAD);
    // cancelling refunds the linear remainder
    let left = c.cancel_rewards_batch(0, id, 100).expect("cancel");
    assert_eq!(left, 50);
    assert_eq!(c.batches[0].end_time, 100);
    assert_eq!(c.batches[0].amount, 100);
    // not fully distributed: only the administrator path may drop it
    assert!(c.remove_rewards_batch(0, id).is_err());
    assert!(c
        .admin_remove_rewards_batch(0, id, 900_000_000_000_000_000, 101)
        .is_err()); // tolerance under the minimum
    c.batches[0].distributed_amount = 96;
    c.admin_remove_rewards_batch(0, id, 950_000_000_000_000_000, 101)
        .expect("admin remove within tolerance");
    assert_eq!(c.batches.len(), 0);
}

#[test]
fn boosters_validate_probe_slippage() {
    let mut c = controller_with_market(0);
    c.boosting_state = money_market::controller::State::Active;
    c.set_rewards_batch(0, MarketType::Supply, 77, 100, 100, 0)
        .expect("batch");
    let path = vec![SwapStep { pair_address: 1, input_token_id: 77, output_token_id: 2 }];
    // a probe that loses more than the slippage bound is refused
    assert!(matches!(
        c.boost_rewards(77, 50_000_000_000_000_000, 1_000, 100, 50, path.clone(), 0),
        Err(Error::SwapSlippageExceeded)
    ));
    // within the bound the loss is deducted from the captured funding
    c.boost_rewards(77, 50_000_000_000_000_000, 1_000, 100, 95, path, 0)
        .expect("booster");
    assert_eq!(c.boosters[0].amount_left, 995);
    c.update_booster(77, 60_000_000_000_000_000, 5, 0).expect("update");
    assert_eq!(c.boosters[0].amount_left, 1_000);
    assert_eq!(c.boosters[0].premium, 60_000_000_000_000_000);
    let left = c.cancel_booster(77).expect("cancel");
    assert_eq!(left, 1_000);
    assert_eq!(c.boosters.len(), 0);
}

#[test]
fn claims_zero_balances_and_apply_premiums() {
    let mut c = controller_with_market(0);
    c.boosting_state = money_market::controller::State::Active;
    c.enter_market(0, 1, 100).expect("enter");
    c.set_rewards_batch(0, MarketType::Supply, 77, 20, 10, 0)
        .expect("batch");
    let path = vec![SwapStep { pair_address: 1, input_token_id: 77, output_token_id: 2 }];
    c.boost_rewards(77, 100_000_000_000_000_000, 1_000_000_000_000_000_000_000, 100, 100, path, 0)
        .expect("booster");
    let accounts = vec![1u64];
    let bases = vec![0u128];
    let payments = c
        .claim_rewards(true, true, false, 0, &accounts, &bases, 0, 10)
        .expect("claim");
    assert_eq!(payments.len(), 1);
    assert_eq!(payments[0].account, 1);
    assert_eq!(payments[0].token_id, 77);
    // all twenty window rewards, boosted by the ten percent premium
    assert_eq!(payments[0].amount, 22);
    assert!(payments[0].boosted);
    assert_eq!(c.get_account_accrued_rewards(1, 77), 0);
}
