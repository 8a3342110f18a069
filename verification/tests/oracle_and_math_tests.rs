use money_market::discount::{DiscountData, DiscountInput, DiscountRateModel};
use money_market::errors::Error;
use money_market::math::{mul_div_ceil, mul_div_floor, mul_le};
use money_market::oracle::{ExchangePricingMethod, Oracle, PricingMethod, TokenData, TokenType};

const WAD: u128 = 1_000_000_000_000_000_000;

#[test]
fn wide_multiply_divide_is_exact() {
    assert_eq!(mul_div_floor(10, 10, 4), Some(25));
    assert_eq!(mul_div_floor(10, 3, 4), Some(7));
    assert_eq!(mul_div_ceil(10, 3, 4), Some(8));
    assert_eq!(mul_div_floor(5, 5, 0), None);
    // the product needs both 128-bit words
    assert_eq!(mul_div_floor(u128::MAX, u128::MAX, u128::MAX), Some(u128::MAX));
    assert_eq!(mul_div_floor(u128::MAX, 2, 2), Some(u128::MAX));
    assert_eq!(mul_div_floor(u128::MAX, 2, 1), None);
    assert_eq!(
        mul_div_floor(1_000 * WAD, WAD, WAD / 2),
        Some(2_000 * WAD)
    );
    assert_eq!(mul_div_ceil(u128::MAX, u128::MAX, u128::MAX), Some(u128::MAX));
    assert!(mul_le(3, 4, 2, 6));
    assert!(!mul_le(u128::MAX, u128::MAX, u128::MAX, u128::MAX - 1));
}

fn default_token(id: u64, oracle: &mut Oracle) {
    let tolerances = oracle
        .get_anchor_tolerances(10_000_000_000_000_000, 100_000_000_000_000_000)
        .expect("tolerances");
    oracle
        .support_token(TokenData {
            token_type: TokenType::Native,
            identifier: id,
            decimals: 18,
            pricing_method: PricingMethod::Default,
            xexchange_pair: None,
            tolerances: Some(tolerances),
        })
        .expect("support");
}

#[test]
fn default_pricing_trusts_the_reporter_within_the_first_band() {
    let mut o = Oracle::new(1);
    default_token(2, &mut o);
    let p = o.get_default_price(2, WAD, WAD).expect("price");
    assert_eq!(p, WAD);
    // slightly off but within one percent: still the reporter
    let p = o
        .get_default_price(2, 1_005_000_000_000_000_000, WAD)
        .expect("price");
    assert_eq!(p, WAD);
}

#[test]
fn default_pricing_falls_back_then_pauses() {
    let mut o = Oracle::new(1);
    default_token(2, &mut o);
    o.get_default_price(2, WAD, WAD).expect("reliable price");
    // outside the first band but within the last: the cached price
    let p = o
        .get_default_price(2, 1_050_000_000_000_000_000, WAD)
        .expect("fallback");
    assert_eq!(p, WAD);
    // a second unreliable reading is refused outright
    assert!(o
        .get_default_price(2, 1_050_000_000_000_000_000, WAD)
        .is_err());
    // recover, then breach the last band: pricing pauses itself
    o.get_default_price(2, WAD, WAD).expect("reliable again");
    let p = o
        .get_default_price(2, 2 * WAD, WAD)
        .expect("cached price while pausing");
    assert_eq!(p, WAD);
    assert!(matches!(
        o.get_default_price(2, WAD, WAD),
        Err(Error::Paused)
    ));
    // the wrapped-native token is always one WAD while its wrapper lives
    let p = o
        .get_price_in_egld(1, false, None, None, None, None, None)
        .expect("wrapped native");
    assert_eq!(p, WAD);
    assert!(matches!(
        o.get_price_in_egld(1, true, None, None, None, None, None),
        Err(Error::Paused)
    ));
    // unpausing needs a reading back within the first band
    assert!(o.unpause_token(2, None, false).is_err());
    o.unpause_token(2, None, true).expect("unpause");
    o.get_default_price(2, WAD, WAD).expect("priced again");
}

#[test]
fn pricing_method_switches_are_validated() {
    let mut o = Oracle::new(1);
    default_token(2, &mut o);
    assert!(o
        .set_pricing_method(2, PricingMethod::Unset, ExchangePricingMethod::All, true, false)
        .is_err());
    assert!(o
        .set_pricing_method(2, PricingMethod::Default, ExchangePricingMethod::All, false, false)
        .is_err());
    assert!(o
        .set_pricing_method(
            2,
            PricingMethod::Instantaneous,
            ExchangePricingMethod::SafePriceOnly,
            true,
            false,
        )
        .is_err());
    assert!(o
        .set_pricing_method(
            2,
            PricingMethod::PriceAggregator,
            ExchangePricingMethod::All,
            true,
            false,
        )
        .is_err());
    o.set_pricing_method(2, PricingMethod::Safe, ExchangePricingMethod::All, false, false)
        .expect("safe method");
    let p = o
        .get_price_in_egld(2, false, None, None, None, Some(3 * WAD), None)
        .expect("safe price");
    assert_eq!(p, 3 * WAD);
}

#[test]
fn discount_entries_stay_sorted_and_unique() {
    let mut d = DiscountRateModel::new();
    d.set_discount_data(1, 11, 2_000).expect("first");
    d.set_discount_data(2, 22, 5_000).expect("second");
    d.set_discount_data(3, 33, 3_000).expect("third");
    assert_eq!(
        d.entries,
        vec![
            DiscountData { money_market: 2, underlying_id: 22, discount: 5_000 },
            DiscountData { money_market: 3, underlying_id: 33, discount: 3_000 },
            DiscountData { money_market: 1, underlying_id: 11, discount: 2_000 },
        ]
    );
    assert!(d.set_discount_data(2, 22, 1_000).is_err()); // already present
    assert!(d.set_discount_data(4, 44, 0).is_err()); // no discount
    assert!(d.set_discount_data(4, 44, 10_001).is_err()); // over one
    d.update_discount_data(3, 33, 6_000).expect("update");
    assert_eq!(d.entries[0].money_market, 3);
    d.remove_discount_data(3).expect("remove");
    assert_eq!(d.entries.len(), 2);
}

#[test]
fn discount_walk_weights_collateral_until_the_borrow_is_covered() {
    let mut d = DiscountRateModel::new();
    // 25% on the first market's collateral, 10% on the second's
    d.set_discount_data(1, 11, 2_500).expect("first");
    d.set_discount_data(2, 22, 1_000).expect("second");
    let inputs = vec![
        // 600 stablecoins' worth of eligible collateral
        DiscountInput { tokens: 600, fx: WAD, price: WAD, ltv: WAD },
        // plenty more at the lower tier
        DiscountInput { tokens: 10_000, fx: WAD, price: WAD, ltv: WAD },
    ];
    // borrow 1000: 600 at 25% and the remaining 400 at 10%
    let discount = d.get_account_discount(1_000, &inputs, WAD).expect("discount");
    assert_eq!(discount, (600 * 2_500 / 10_000 + 400 * 1_000 / 10_000) * WAD / 1_000);
    // no borrow, no discount
    assert_eq!(d.get_account_discount(0, &inputs, WAD).expect("zero"), 0);
    // collateral beyond the borrow earns nothing extra
    let discount = d.get_account_discount(100, &inputs, WAD).expect("capped");
    assert_eq!(discount, 250_000_000_000_000_000);
}

#[test]
fn liquid_staking_price_composes_share_rate_and_underlying() {
    // a share worth 1.2 of the underlying, underlying at 0.5 EGLD
    let p = money_market::oracle::get_liquid_staking_price(
        1_200_000_000_000_000_000,
        500_000_000_000_000_000,
    )
    .expect("price");
    assert_eq!(p, 600_000_000_000_000_000);
}

#[test]
fn default_price_without_a_cached_reading_answers_zero() {
    let mut o = Oracle::new(1);
    default_token(2, &mut o);
    // the very first reading already breaches the last band: pricing
    // pauses itself and, with nothing cached, the answer is zero
    let p = o.get_default_price(2, 2 * WAD, WAD).expect("cached");
    assert_eq!(p, 0);
    assert!(matches!(o.get_default_price(2, WAD, WAD), Err(Error::Paused)));
}

#[test]
fn cached_exchange_rates_are_kept_per_market() {
    let mut d = DiscountRateModel::new();
    assert_eq!(d.cached_exchange_rate(1), None);
    // captured at registration, refreshed when an updated reading comes in
    d.set_discount_data(1, 11, 2_000).expect("entry");
    d.cache_exchange_rate(1, WAD);
    d.cache_exchange_rate(2, 2 * WAD);
    assert_eq!(d.cached_exchange_rate(1), Some(WAD));
    assert_eq!(d.cached_exchange_rate(2), Some(2 * WAD));
    d.cache_exchange_rate(1, 3 * WAD / 2);
    assert_eq!(d.cached_exchange_rate(1), Some(3 * WAD / 2));
    assert_eq!(d.cached_exchange_rate(2), Some(2 * WAD));
}
