//! The price oracle: per-token pricing methods and the anchored default
//! algorithm.
//!
//! The default method compares the reported price against an on-exchange
//! anchor. Within the first tolerance band the reporter is trusted and
//! cached; within the wider band only a previously reliable token may
//! fall back to its cached price; outside it the token's pricing is
//! paused until an administrator intervenes. Raw feeds — the anchor, the
//! reporter, liquid-staking rates — are read outside and handed in.

use crate::errors::Error;
use crate::math::{mul_div_floor, WAD};
use crate::store::Table;
use vstd::prelude::*;

verus! {

/// Smallest accepted first-anchor tolerance, 0.25%.
pub const MIN_FIRST_ANCHOR_TOLERANCE: u128 = 2_500_000_000_000_000;

/// Largest accepted first-anchor tolerance, 50%.
pub const MAX_FIRST_ANCHOR_TOLERANCE: u128 = 500_000_000_000_000_000;

/// Smallest accepted last-anchor tolerance, 1%.
pub const MIN_LAST_ANCHOR_TOLERANCE: u128 = 10_000_000_000_000_000;

/// Largest accepted last-anchor tolerance, 100%.
pub const MAX_LAST_ANCHOR_TOLERANCE: u128 = 1_000_000_000_000_000_000;

/// How a token is priced.
#[derive(Clone, Copy, Debug, PartialEq, Eq, Structural)]
pub enum PricingMethod {
    Unset,
    Default,
    Instantaneous,
    Safe,
    PriceAggregator,
}

/// Which exchange price sources are enabled.
#[derive(Clone, Copy, Debug, PartialEq, Eq, Structural)]
pub enum ExchangePricingMethod {
    Unset,
    SafePriceOnly,
    InstantaneousPriceOnly,
    All,
}

/// The state of an exchange pair.
#[derive(Clone, Copy, Debug, PartialEq, Eq, Structural)]
pub enum PairState {
    Inactive,
    Active,
    PartialActive,
}

/// Whether a token is chain-native or a synthetic issue.
#[derive(Clone, Copy, Debug, PartialEq, Eq, Structural)]
pub enum TokenType {
    Unset,
    Native,
    Synthetic,
}

/// An exchange pair a token is priced through.
#[derive(Clone, Copy, Debug, PartialEq, Eq, Structural)]
pub struct ExchangePair {
    pub address: u64,
    pub token0: u64,
    pub token1: u64,
}

/// The tolerance bands of the default algorithm, as ratio bounds in WAD:
/// a band `[lower, upper]` with `upper = WAD + tolerance` and
/// `lower = WAD * WAD / upper`.
#[derive(Clone, Copy, Debug, PartialEq, Eq, Structural)]
pub struct ToleranceData {
    pub first_upper_bound_ratio: u128,
    pub first_lower_bound_ratio: u128,
    pub last_upper_bound_ratio: u128,
    pub last_lower_bound_ratio: u128,
}

/// Everything the oracle keeps per supported token.
#[derive(Clone, Copy, Debug, PartialEq, Eq, Structural)]
pub struct TokenData {
    pub token_type: TokenType,
    pub identifier: u64,
    pub decimals: u64,
    pub pricing_method: PricingMethod,
    pub xexchange_pair: Option<ExchangePair>,
    pub tolerances: Option<ToleranceData>,
}

/// The oracle state: supported tokens with their pause, reliability and
/// cached-price bookkeeping.
pub struct Oracle {
    /// Supported tokens, keyed by identifier.
    pub tokens: Table<TokenData>,
    /// Whether a token's pricing is paused.
    pub paused: Table<bool>,
    /// Whether a token's last default reading was outside the first band.
    pub unreliable: Table<bool>,
    /// The last price used, per token.
    pub last_price: Table<u128>,
    /// The wrapped-native token, always worth one WAD while its wrapper
    /// is live.
    pub wegld_id: u64,
}

/// Whether the reported price is within a band: the ratio
/// `anchor * WAD / reporter` must lie within `[lower, upper]`.
pub open spec fn spec_within_anchor(reporter: int, anchor: int, upper: int, lower: int) -> bool {
    lower <= anchor * WAD / reporter <= upper
}

/// The price of a liquid-staking share in EGLD: the staking provider's
/// share rate composed with its underlying token's price, floored WAD
/// arithmetic.
pub fn get_liquid_staking_price(fx: u128, underlying_price: u128) -> (r: Result<u128, Error>)
    ensures
        match r {
            Ok(p) => p == fx * underlying_price / (WAD as int),
            Err(e) => e == Error::Arithmetic && fx * underlying_price / (WAD as int) > u128::MAX,
        },
{
    match mul_div_floor(fx, underlying_price, WAD) {
        None => Err(Error::Arithmetic),
        Some(v) => Ok(v),
    }
}

impl Oracle {
    /// Unique keys everywhere.
    pub open spec fn wf(self) -> bool {
        &&& self.tokens.wf()
        &&& self.paused.wf()
        &&& self.unreliable.wf()
        &&& self.last_price.wf()
    }

    /// Creates an oracle that knows only the wrapped-native token.
    pub fn new(wegld_id: u64) -> (r: Oracle)
        ensures
            r.wf(),
            r.wegld_id == wegld_id,
    {
        Oracle {
            tokens: Table::new(),
            paused: Table::new(),
            unreliable: Table::new(),
            last_price: Table::new(),
            wegld_id,
        }
    }

    /// Registers a supported token.
    pub fn support_token(&mut self, data: TokenData) -> (r: Result<(), Error>)
        requires
            old(self).wf(),
        ensures
            final(self).wf(),
            match r {
                Ok(()) => final(self).tokens.lookup(data.identifier, 0, 0) == Some(data),
                Err(e) => e == Error::InvalidConfiguration && *final(self) == *old(self),
            },
    {
        if self.tokens.get(data.identifier, 0, 0).is_some() {
            return Err(Error::InvalidConfiguration);
        }
        self.tokens.set(data.identifier, 0, 0, data);
        Ok(())
    }

    /// The ratio bounds for one tolerance: `upper = WAD + tolerance` and
    /// `lower = WAD * WAD / upper`.
    pub fn get_bounds(&self, tolerance: u128) -> (r: Result<(u128, u128), Error>)
        ensures
            match r {
                Ok(b) => b.0 == WAD + tolerance && b.1 == WAD * WAD / (WAD + tolerance),
                Err(e) => e == Error::Arithmetic,
            },
    {
        let upper = match WAD.checked_add(tolerance) {
            None => { return Err(Error::Arithmetic) },
            Some(v) => v,
        };
        let lower = match mul_div_floor(WAD, WAD, upper) {
            None => { return Err(Error::Arithmetic) },
            Some(v) => v,
        };
        Ok((upper, lower))
    }

    /// Builds the tolerance bands from the two tolerances, which must lie
    /// in their accepted ranges with the last at least the first.
    pub fn get_anchor_tolerances(&self, first: u128, last: u128) -> (r: Result<
        ToleranceData,
        Error,
    >)
        ensures
            match r {
                Ok(t) => {
                    &&& MIN_FIRST_ANCHOR_TOLERANCE <= first <= MAX_FIRST_ANCHOR_TOLERANCE
                    &&& MIN_LAST_ANCHOR_TOLERANCE <= last <= MAX_LAST_ANCHOR_TOLERANCE
                    &&& last >= first
                    &&& t.first_upper_bound_ratio == WAD + first
                    &&& t.first_lower_bound_ratio == WAD * WAD / (WAD + first)
                    &&& t.last_upper_bound_ratio == WAD + last
                    &&& t.last_lower_bound_ratio == WAD * WAD / (WAD + last)
                },
                Err(e) => e == Error::InvalidConfiguration || e == Error::Arithmetic,
            },
    {
        if first < MIN_FIRST_ANCHOR_TOLERANCE || first > MAX_FIRST_ANCHOR_TOLERANCE {
            return Err(Error::InvalidConfiguration);
        }
        if last < MIN_LAST_ANCHOR_TOLERANCE || last > MAX_LAST_ANCHOR_TOLERANCE {
            return Err(Error::InvalidConfiguration);
        }
        if last < first {
            return Err(Error::InvalidConfiguration);
        }
        let first_bounds = self.get_bounds(first)?;
        let last_bounds = self.get_bounds(last)?;
        Ok(
            ToleranceData {
                first_upper_bound_ratio: first_bounds.0,
                first_lower_bound_ratio: first_bounds.1,
                last_upper_bound_ratio: last_bounds.0,
                last_lower_bound_ratio: last_bounds.1,
            },
        )
    }

    /// Whether the reporter price lies within the given band around the
    /// anchor.
    pub fn is_within_anchor_internal(
        &self,
        reporter_price: u128,
        anchor_price: u128,
        upper: u128,
        lower: u128,
    ) -> (r: Result<bool, Error>)
        ensures
            match r {
                Ok(ok) => reporter_price > 0 && ok == spec_within_anchor(
                    reporter_price as int,
                    anchor_price as int,
                    upper as int,
                    lower as int,
                ),
                Err(e) => e == Error::Arithmetic,
            },
    {
        let ratio = match mul_div_floor(anchor_price, WAD, reporter_price) {
            None => { return Err(Error::Arithmetic) },
            Some(v) => v,
        };
        Ok(lower <= ratio && ratio <= upper)
    }

    /// The default pricing step for one token, fed with the on-exchange
    /// anchor and the aggregator's report. Within the first band the
    /// reporter is cached and returned; within the last band a reliable
    /// token turns unreliable and answers with its cached price; outside
    /// both the token's pricing is paused and the cached price returned.
    pub fn get_default_price(&mut self, token: u64, anchor_price: u128, reporter_price: u128) -> (r:
        Result<u128, Error>)
        requires
            old(self).wf(),
        ensures
            final(self).wf(),
            match r {
                Ok(p) => {
                    let t = old(self).tokens.lookup(token, 0, 0).unwrap();
                    let tol = t.tolerances.unwrap();
                    {
                        &&& old(self).tokens.lookup(token, 0, 0) is Some
                        &&& (t.tolerances is Some)
                        &&& old(self).paused.lookup(token, 0, 0) != Some(true)
                        &&& (spec_within_anchor(
                            reporter_price as int,
                            anchor_price as int,
                            tol.first_upper_bound_ratio as int,
                            tol.first_lower_bound_ratio as int,
                        ) ==> p == reporter_price && final(self).unreliable.lookup(token, 0, 0)
                            == Some(false) && final(self).last_price.lookup(token, 0, 0) == Some(
                            reporter_price,
                        ) && final(self).paused == old(self).paused)
                        &&& (!spec_within_anchor(
                            reporter_price as int,
                            anchor_price as int,
                            tol.first_upper_bound_ratio as int,
                            tol.first_lower_bound_ratio as int,
                        ) && spec_within_anchor(
                            reporter_price as int,
                            anchor_price as int,
                            tol.last_upper_bound_ratio as int,
                            tol.last_lower_bound_ratio as int,
                        ) ==> old(self).unreliable.lookup(token, 0, 0) != Some(true) && final(self).unreliable.lookup(token, 0, 0) == Some(true) && final(self).last_price == old(self).last_price && final(self).paused == old(self).paused && p == (
                        match old(self).last_price.lookup(token, 0, 0) {
                            Some(v) => v,
                            None => 0,
                        }))
                        &&& (!spec_within_anchor(
                            reporter_price as int,
                            anchor_price as int,
                            tol.first_upper_bound_ratio as int,
                            tol.first_lower_bound_ratio as int,
                        ) && !spec_within_anchor(
                            reporter_price as int,
                            anchor_price as int,
                            tol.last_upper_bound_ratio as int,
                            tol.last_lower_bound_ratio as int,
                        ) ==> final(self).paused.lookup(token, 0, 0) == Some(true) && final(self).last_price == old(self).last_price && final(self).unreliable == old(self).unreliable && p == (
                        match old(self).last_price.lookup(token, 0, 0) {
                            Some(v) => v,
                            None => 0,
                        }))
                    }
                },
                Err(e) => {
                    &&& *final(self) == *old(self)
                    &&& (e == Error::InvalidConfiguration <==> old(self).tokens.lookup(token, 0, 0)
                        is None || old(self).tokens.lookup(token, 0, 0).unwrap().tolerances
                        is None)
                    &&& (e == Error::Paused <==> old(self).tokens.lookup(token, 0, 0) is Some
                        && (old(self).tokens.lookup(token, 0, 0).unwrap().tolerances is Some)
                        && old(self).paused.lookup(token, 0, 0) == Some(true))
                    &&& (e == Error::OracleUnavailable ==> old(self).unreliable.lookup(
                        token,
                        0,
                        0,
                    ) == Some(true))
                },
            },
    {
        let data = match self.tokens.get(token, 0, 0) {
            None => { return Err(Error::InvalidConfiguration) },
            Some(d) => d,
        };
        let tol = match data.tolerances {
            None => { return Err(Error::InvalidConfiguration) },
            Some(t) => t,
        };
        match self.paused.get(token, 0, 0) {
            Some(true) => { return Err(Error::Paused) },
            _ => {},
        }
        let in_first = match self.is_within_anchor_internal(
            reporter_price,
            anchor_price,
            tol.first_upper_bound_ratio,
            tol.first_lower_bound_ratio,
        ) {
            Err(e) => { return Err(e) },
            Ok(v) => v,
        };
        if in_first {
            self.unreliable.set(token, 0, 0, false);
            self.last_price.set(token, 0, 0, reporter_price);
            return Ok(reporter_price);
        }
        let in_last = match self.is_within_anchor_internal(
            reporter_price,
            anchor_price,
            tol.last_upper_bound_ratio,
            tol.last_lower_bound_ratio,
        ) {
            Err(e) => { return Err(e) },
            Ok(v) => v,
        };
        if in_last {
            match self.unreliable.get(token, 0, 0) {
                Some(true) => { return Err(Error::OracleUnavailable) },
                _ => {},
            }
            self.unreliable.set(token, 0, 0, true);
            let cached = match self.last_price.get(token, 0, 0) {
                None => 0,
                Some(v) => v,
            };
            return Ok(cached);
        }
        // outside both bands the token's pricing pauses itself
        self.paused.set(token, 0, 0, true);
        let cached = match self.last_price.get(token, 0, 0) {
            None => 0,
            Some(v) => v,
        };
        Ok(cached)
    }

    /// Pauses a token's pricing.
    pub fn pause_token(&mut self, token: u64) -> (r: Result<(), Error>)
        requires
            old(self).wf(),
        ensures
            final(self).wf(),
            r is Ok ==> final(self).paused.lookup(token, 0, 0) == Some(true),
    {
        if self.tokens.get(token, 0, 0).is_none() {
            return Err(Error::InvalidConfiguration);
        }
        self.paused.set(token, 0, 0, true);
        Ok(())
    }

    /// Unpauses a token once its default price is reliable again,
    /// optionally with fresh tolerances; `first_in_band` reports whether
    /// the probe reading lay within the first band.
    pub fn unpause_token(
        &mut self,
        token: u64,
        new_tolerances: Option<ToleranceData>,
        first_in_band: bool,
    ) -> (r: Result<(), Error>)
        requires
            old(self).wf(),
        ensures
            final(self).wf(),
            r is Ok ==> first_in_band && final(self).paused.lookup(token, 0, 0) == Some(false),
    {
        let data = match self.tokens.get(token, 0, 0) {
            None => { return Err(Error::InvalidConfiguration) },
            Some(d) => d,
        };
        match self.paused.get(token, 0, 0) {
            Some(true) => {},
            _ => { return Err(Error::InvalidConfiguration) },
        }
        if !first_in_band {
            return Err(Error::OracleUnavailable);
        }
        match new_tolerances {
            Some(t) => {
                self.tokens.set(token, 0, 0, TokenData { tolerances: Some(t), ..data });
            },
            None => {},
        }
        self.paused.set(token, 0, 0, false);
        Ok(())
    }

    /// Routes one price request, fed with the wrapper's pause flag and
    /// the live readings, absent where a source is unreachable.
    /// The wrapped-native token is worth one
    /// WAD while its wrapper is live; any other token answers through
    /// its configured method, with the default algorithm fed by the
    /// anchor and reporter readings.
    pub fn get_price_in_egld(
        &mut self,
        token: u64,
        egld_wrapper_paused: bool,
        anchor_price: Option<u128>,
        reporter_price: Option<u128>,
        instantaneous_price: Option<u128>,
        safe_price: Option<u128>,
        aggregator_price: Option<u128>,
    ) -> (r: Result<u128, Error>)
        requires
            old(self).wf(),
        ensures
            final(self).wf(),
            token == old(self).wegld_id && !egld_wrapper_paused ==> r == Ok::<u128, Error>(
                WAD,
            ) && *final(self) == *old(self),
            token == old(self).wegld_id && egld_wrapper_paused ==> r == Err::<u128, Error>(
                Error::Paused,
            ),
            match r {
                Ok(p) => token != old(self).wegld_id ==> {
                    let t = old(self).tokens.lookup(token, 0, 0).unwrap();
                    let tol = t.tolerances.unwrap();
                    {
                        &&& old(self).tokens.lookup(token, 0, 0) is Some
                        &&& t.pricing_method != PricingMethod::Unset
                        &&& (t.pricing_method == PricingMethod::Instantaneous
                            ==> instantaneous_price == Some(p) && final(self).last_price.lookup(
                            token,
                            0,
                            0,
                        ) == Some(p))
                        &&& (t.pricing_method == PricingMethod::Safe ==> safe_price == Some(p)
                            && final(self).last_price.lookup(token, 0, 0) == Some(p))
                        &&& (t.pricing_method == PricingMethod::PriceAggregator
                            ==> aggregator_price == Some(p) && final(self).last_price.lookup(
                            token,
                            0,
                            0,
                        ) == Some(p))
                        &&& (t.pricing_method == PricingMethod::Default ==> {
                            &&& old(self).paused.lookup(token, 0, 0) != Some(true)
                            &&& (anchor_price is Some)
                            &&& (reporter_price is Some)
                            &&& (t.tolerances is Some)
                            &&& (spec_within_anchor(
                                reporter_price.unwrap() as int,
                                anchor_price.unwrap() as int,
                                tol.first_upper_bound_ratio as int,
                                tol.first_lower_bound_ratio as int,
                            ) ==> p == reporter_price.unwrap() && final(self).last_price.lookup(
                                token,
                                0,
                                0,
                            ) == Some(p))
                            &&& (!spec_within_anchor(
                                reporter_price.unwrap() as int,
                                anchor_price.unwrap() as int,
                                tol.first_upper_bound_ratio as int,
                                tol.first_lower_bound_ratio as int,
                            ) ==> final(self).last_price == old(self).last_price && p == (
                            match old(self).last_price.lookup(token, 0, 0) {
                                Some(v) => v,
                                None => 0,
                            }))
                        })
                    }
                },
                Err(e) => token != old(self).wegld_id ==> {
                    let t = old(self).tokens.lookup(token, 0, 0).unwrap();
                    {
                        &&& (old(self).tokens.lookup(token, 0, 0) is None ==> e
                            == Error::OracleUnavailable)
                        &&& (old(self).tokens.lookup(token, 0, 0) is Some ==> {
                            &&& (t.pricing_method == PricingMethod::Unset ==> e
                                == Error::OracleUnavailable)
                            &&& (t.pricing_method == PricingMethod::Instantaneous ==> e
                                == Error::OracleUnavailable && instantaneous_price is None)
                            &&& (t.pricing_method == PricingMethod::Safe ==> e
                                == Error::OracleUnavailable && safe_price is None)
                            &&& (t.pricing_method == PricingMethod::PriceAggregator ==> e
                                == Error::OracleUnavailable && aggregator_price is None)
                            &&& (t.pricing_method == PricingMethod::Default && old(self).paused.lookup(token, 0, 0) == Some(true) ==> e == Error::Paused)
                            &&& (t.pricing_method == PricingMethod::Default && old(self).paused.lookup(token, 0, 0) != Some(true) && anchor_price is None
                                ==> e == Error::OracleUnavailable)
                            &&& (t.pricing_method == PricingMethod::Default && old(self).paused.lookup(token, 0, 0) != Some(true) && anchor_price is Some
                                && reporter_price is None ==> e == Error::OracleUnavailable)
                        })
                    }
                },
            },
    {
        if token == self.wegld_id {
            if egld_wrapper_paused {
                return Err(Error::Paused);
            }
            return Ok(WAD);
        }
        let data = match self.tokens.get(token, 0, 0) {
            None => { return Err(Error::OracleUnavailable) },
            Some(d) => d,
        };
        match data.pricing_method {
            PricingMethod::Unset => Err(Error::OracleUnavailable),
            PricingMethod::Default => {
                match self.paused.get(token, 0, 0) {
                    Some(true) => { return Err(Error::Paused) },
                    _ => {},
                }
                let anchor = match anchor_price {
                    None => { return Err(Error::OracleUnavailable) },
                    Some(v) => v,
                };
                let reporter = match reporter_price {
                    None => { return Err(Error::OracleUnavailable) },
                    Some(v) => v,
                };
                self.get_default_price(token, anchor, reporter)
            },
            PricingMethod::Instantaneous => {
                let p = match instantaneous_price {
                    None => { return Err(Error::OracleUnavailable) },
                    Some(v) => v,
                };
                self.last_price.set(token, 0, 0, p);
                Ok(p)
            },
            PricingMethod::Safe => {
                let p = match safe_price {
                    None => { return Err(Error::OracleUnavailable) },
                    Some(v) => v,
                };
                self.last_price.set(token, 0, 0, p);
                Ok(p)
            },
            PricingMethod::PriceAggregator => {
                let p = match aggregator_price {
                    None => { return Err(Error::OracleUnavailable) },
                    Some(v) => v,
                };
                self.last_price.set(token, 0, 0, p);
                Ok(p)
            },
        }
    }

    /// Switches a token's pricing method after validating it against the
    /// probed conditions: the default method needs a reliable reading,
    /// an unreliable-side method needs its exchange source enabled, and
    /// the aggregator is a last resort for when the exchange or the
    /// wrapper is down.
    pub fn set_pricing_method(
        &mut self,
        token: u64,
        method: PricingMethod,
        exchange_method: ExchangePricingMethod,
        default_reliable: bool,
        wrapper_or_exchange_paused: bool,
    ) -> (r: Result<(), Error>)
        requires
            old(self).wf(),
        ensures
            final(self).wf(),
            match r {
                Ok(()) => {
                    &&& method != PricingMethod::Unset
                    &&& (method == PricingMethod::Default ==> default_reliable)
                    &&& (method == PricingMethod::Instantaneous ==> exchange_method
                        != ExchangePricingMethod::SafePriceOnly)
                    &&& (method == PricingMethod::PriceAggregator
                        ==> wrapper_or_exchange_paused)
                    &&& final(self).tokens.lookup(token, 0, 0) == Some(
                        TokenData {
                            pricing_method: method,
                            ..old(self).tokens.lookup(token, 0, 0).unwrap()
                        },
                    )
                },
                Err(e) => true,
            },
    {
        let data = match self.tokens.get(token, 0, 0) {
            None => { return Err(Error::InvalidConfiguration) },
            Some(d) => d,
        };
        match method {
            PricingMethod::Unset => { return Err(Error::InvalidConfiguration) },
            PricingMethod::Default => {
                if !default_reliable {
                    return Err(Error::OracleUnavailable);
                }
            },
            PricingMethod::Instantaneous => {
                if matches!(exchange_method, ExchangePricingMethod::SafePriceOnly) {
                    return Err(Error::InvalidConfiguration);
                }
            },
            PricingMethod::Safe => {},
            PricingMethod::PriceAggregator => {
                if !wrapper_or_exchange_paused {
                    return Err(Error::InvalidConfiguration);
                }
            },
        }
        self.tokens.set(token, 0, 0, TokenData { pricing_method: method, ..data });
        Ok(())
    }
}

} // verus!
