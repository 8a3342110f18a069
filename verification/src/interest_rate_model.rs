//! Two-slope interest-rate model.
//!
//! The borrow rate is a piecewise linear function of the pool utilization
//! `u = borrows * WAD / liquidity`: a first slope up to the optimal
//! utilization, a steeper second slope above it, clamped at a maximum rate.
//! All rates are per-second WAD fractions.

use crate::errors::Error;
use crate::math::{mul_div_floor, WAD};
use vstd::prelude::*;

verus! {

/// Seconds in a year, used to translate per-year parameters to per-second
/// rates.
pub const SECONDS_PER_YEAR: u128 = 31_556_926;

/// Parameters of the two-slope model, all per-second WAD values except the
/// optimal utilization, which is a WAD fraction.
#[derive(Clone, Copy, Debug, PartialEq, Eq, Structural)]
pub struct RateModel {
    /// Base borrow rate at zero utilization.
    pub base_rate: u128,
    /// Slope of the borrow rate up to the optimal utilization.
    pub first_slope: u128,
    /// Slope of the borrow rate above the optimal utilization.
    pub last_slope: u128,
    /// Utilization at which the second slope starts.
    pub optimal_utilization: u128,
    /// Clamp on the borrow rate.
    pub max_borrow_rate: u128,
}

impl RateModel {
    /// Construction-time constraints: the optimal utilization is a proper
    /// fraction, the last slope is positive and at least the first, and the
    /// maximum rate is above the base rate and at least the rate at full
    /// utilization.
    pub open spec fn wf(self) -> bool {
        &&& self.optimal_utilization < WAD
        &&& self.last_slope > 0
        &&& self.last_slope >= self.first_slope
        &&& self.max_borrow_rate > self.base_rate
        &&& self.max_borrow_rate >= self.first_slope * self.optimal_utilization / (WAD as int)
            + self.base_rate + self.last_slope * (WAD - self.optimal_utilization) / (WAD as int)
    }
}

/// The utilization `borrows * WAD / liquidity`; zero without borrows, and
/// the utilization that yields the maximum borrow rate when there is no
/// liquidity (plus two, covering the truncation of the two divisions).
pub open spec fn spec_utilization(m: RateModel, borrows: int, liquidity: int) -> int {
    if borrows == 0 {
        0
    } else if liquidity == 0 {
        (m.last_slope - m.first_slope) * m.optimal_utilization / (m.last_slope as int) + (
        m.max_borrow_rate - m.base_rate) * WAD / (m.last_slope as int) + 2
    } else {
        borrows * WAD / liquidity
    }
}

/// The borrow rate per second for the given pool balances.
pub open spec fn spec_borrow_rate(m: RateModel, borrows: int, liquidity: int) -> int {
    if borrows == 0 {
        m.base_rate as int
    } else if liquidity == 0 {
        m.max_borrow_rate as int
    } else {
        let u = borrows * WAD / liquidity;
        if u <= m.optimal_utilization {
            m.first_slope * u / (WAD as int) + m.base_rate
        } else {
            let r = m.first_slope * m.optimal_utilization / (WAD as int) + m.base_rate
                + m.last_slope * (u - m.optimal_utilization) / (WAD as int);
            if r >= m.max_borrow_rate {
                m.max_borrow_rate as int
            } else {
                r
            }
        }
    }
}

/// The supply rate `u * borrow_rate / WAD * (WAD - reserve_factor) / WAD`.
pub open spec fn spec_supply_rate(
    m: RateModel,
    borrows: int,
    liquidity: int,
    reserve_factor: int,
) -> int {
    spec_utilization(m, borrows, liquidity) * spec_borrow_rate(m, borrows, liquidity) / (
    WAD as int) * (WAD - reserve_factor) / (WAD as int)
}

/// Whether the borrow-rate computation stays within 128 bits: the
/// utilization must fit, and so must the unclamped rate of the first
/// segment; the second segment is clamped at the maximum rate.
pub open spec fn borrow_rate_fits(m: RateModel, borrows: int, liquidity: int) -> bool {
    borrows != 0 && liquidity != 0 ==> {
        let u = borrows * WAD / liquidity;
        u <= u128::MAX && (u <= m.optimal_utilization ==> m.first_slope * u / (WAD as int)
            + m.base_rate <= u128::MAX)
    }
}

/// Whether the utilization itself stays within 128 bits.
pub open spec fn utilization_fits(m: RateModel, borrows: int, liquidity: int) -> bool {
    spec_utilization(m, borrows, liquidity) <= u128::MAX
}

/// The queries of the interest-rate model, exactly the rate interface the
/// money markets consume.
pub trait InterestRateModel {
    /// The model parameters this instance answers with.
    spec fn model(&self) -> RateModel;

    /// Marks the implementor as an interest-rate model.
    fn is_interest_rate_model(&self) -> (r: bool)
        ensures
            r,
    ;

    /// The model parameters `(r0, m1, m2, u_opt, r_max)`.
    fn get_model_parameters(&self) -> (r: (u128, u128, u128, u128, u128))
        ensures
            r.0 == self.model().base_rate,
            r.1 == self.model().first_slope,
            r.2 == self.model().last_slope,
            r.3 == self.model().optimal_utilization,
            r.4 == self.model().max_borrow_rate,
    ;

    /// The pool utilization for the given balances.
    fn get_utilization(&self, borrows: u128, liquidity: u128) -> (r: Result<u128, Error>)
        requires
            self.model().wf(),
        ensures
            match r {
                Ok(u) => u == spec_utilization(self.model(), borrows as int, liquidity as int)
                    && utilization_fits(self.model(), borrows as int, liquidity as int),
                Err(e) => e == Error::Arithmetic && !utilization_fits(
                    self.model(),
                    borrows as int,
                    liquidity as int,
                ),
            },
    ;

    /// The borrow rate per second for the given balances.
    fn get_borrow_rate(&self, borrows: u128, liquidity: u128) -> (r: Result<u128, Error>)
        requires
            self.model().wf(),
        ensures
            match r {
                Ok(rate) => rate == spec_borrow_rate(
                    self.model(),
                    borrows as int,
                    liquidity as int,
                ) && borrow_rate_fits(self.model(), borrows as int, liquidity as int),
                Err(e) => e == Error::Arithmetic && !borrow_rate_fits(
                    self.model(),
                    borrows as int,
                    liquidity as int,
                ),
            },
    ;

    /// The supply rate per second for the given balances and reserve factor.
    fn get_supply_rate(&self, borrows: u128, liquidity: u128, reserve_factor: u128) -> (r: Result<
        u128,
        Error,
    >)
        requires
            self.model().wf(),
            reserve_factor <= WAD,
        ensures
            match r {
                Ok(rate) => rate == spec_supply_rate(
                    self.model(),
                    borrows as int,
                    liquidity as int,
                    reserve_factor as int,
                ),
                Err(e) => e == Error::Arithmetic,
            },
    ;

    /// Both rates in one call.
    fn get_rates(&self, borrows: u128, liquidity: u128, reserve_factor: u128) -> (r: Result<
        (u128, u128),
        Error,
    >)
        requires
            self.model().wf(),
            reserve_factor <= WAD,
        ensures
            match r {
                Ok(rates) => rates.0 == spec_borrow_rate(
                    self.model(),
                    borrows as int,
                    liquidity as int,
                ) && rates.1 == spec_supply_rate(
                    self.model(),
                    borrows as int,
                    liquidity as int,
                    reserve_factor as int,
                ),
                Err(e) => e == Error::Arithmetic,
            },
    ;
}

impl RateModel {
    /// Builds the model from per-year parameters, as provided at deployment:
    /// `r0_y`, `m1_y` and `m2_y` are per-year WAD rates, `uo` the optimal
    /// utilization and `r_max` the per-second clamp.
    pub fn new(r0_y: u128, m1_y: u128, m2_y: u128, uo: u128, r_max: u128) -> (r: Result<
        RateModel,
        Error,
    >)
        ensures
            match r {
                Ok(m) => {
                    &&& m.wf()
                    &&& uo < WAD
                    &&& m.base_rate == r0_y as int / (SECONDS_PER_YEAR as int)
                    &&& m.first_slope == m1_y * WAD / (SECONDS_PER_YEAR as int) / (uo as int)
                    &&& m.last_slope == m2_y * WAD / (SECONDS_PER_YEAR as int) / (WAD - uo)
                    &&& m.optimal_utilization == uo
                    &&& m.max_borrow_rate == r_max
                },
                Err(e) => e == Error::InvalidConfiguration || e == Error::Arithmetic,
            },
    {
        if uo >= WAD {
            return Err(Error::InvalidConfiguration);
        }
        if uo == 0 {
            // the first slope is divided by the optimal utilization
            return Err(Error::Arithmetic);
        }
        let r0: u128 = r0_y / SECONDS_PER_YEAR;
        let m1_wad = match mul_div_floor(m1_y, WAD, SECONDS_PER_YEAR) {
            None => { return Err(Error::Arithmetic) },
            Some(v) => v,
        };
        let m1: u128 = m1_wad / uo;
        let m2_wad = match mul_div_floor(m2_y, WAD, SECONDS_PER_YEAR) {
            None => { return Err(Error::Arithmetic) },
            Some(v) => v,
        };
        let m2: u128 = m2_wad / (WAD - uo);
        if m2 == 0 {
            return Err(Error::InvalidConfiguration);
        }
        if m2 < m1 {
            return Err(Error::InvalidConfiguration);
        }
        // the clamp must exceed the base rate and cover the rate at u = 1
        let first_part = match mul_div_floor(m1, uo, WAD) {
            None => { return Err(Error::Arithmetic) },
            Some(v) => v,
        };
        let r1 = match first_part.checked_add(r0) {
            None => { return Err(Error::Arithmetic) },
            Some(v) => v,
        };
        let second_part = match mul_div_floor(m2, WAD - uo, WAD) {
            None => { return Err(Error::Arithmetic) },
            Some(v) => v,
        };
        let r_at_one = match r1.checked_add(second_part) {
            None => { return Err(Error::Arithmetic) },
            Some(v) => v,
        };
        if !(r_max > r0 && r_max >= r_at_one) {
            return Err(Error::InvalidConfiguration);
        }
        Ok(
            RateModel {
                base_rate: r0,
                first_slope: m1,
                last_slope: m2,
                optimal_utilization: uo,
                max_borrow_rate: r_max,
            },
        )
    }
}

impl InterestRateModel for RateModel {
    open spec fn model(&self) -> RateModel {
        *self
    }

    fn is_interest_rate_model(&self) -> (r: bool) {
        true
    }

    fn get_model_parameters(&self) -> (r: (u128, u128, u128, u128, u128)) {
        (
            self.base_rate,
            self.first_slope,
            self.last_slope,
            self.optimal_utilization,
            self.max_borrow_rate,
        )
    }

    fn get_utilization(&self, borrows: u128, liquidity: u128) -> (r: Result<u128, Error>) {
        if borrows == 0 {
            return Ok(0);
        }
        if liquidity == 0 {
            // the utilization that saturates the borrow rate, padded for the
            // truncation of the two divisions
            let first = match mul_div_floor(
                self.last_slope - self.first_slope,
                self.optimal_utilization,
                self.last_slope,
            ) {
                None => { return Err(Error::Arithmetic) },
                Some(v) => v,
            };
            let second = match mul_div_floor(
                self.max_borrow_rate - self.base_rate,
                WAD,
                self.last_slope,
            ) {
                None => { return Err(Error::Arithmetic) },
                Some(v) => v,
            };
            let sum = match first.checked_add(second) {
                None => { return Err(Error::Arithmetic) },
                Some(v) => v,
            };
            return match sum.checked_add(2) {
                None => Err(Error::Arithmetic),
                Some(v) => Ok(v),
            };
        }
        match mul_div_floor(borrows, WAD, liquidity) {
            None => Err(Error::Arithmetic),
            Some(u) => Ok(u),
        }
    }

    fn get_borrow_rate(&self, borrows: u128, liquidity: u128) -> (r: Result<u128, Error>) {
        if borrows == 0 {
            return Ok(self.base_rate);
        }
        if liquidity == 0 {
            return Ok(self.max_borrow_rate);
        }
        let u = match mul_div_floor(borrows, WAD, liquidity) {
            None => { return Err(Error::Arithmetic) },
            Some(v) => v,
        };
        if u <= self.optimal_utilization {
            let scaled = match mul_div_floor(self.first_slope, u, WAD) {
                None => { return Err(Error::Arithmetic) },
                Some(v) => v,
            };
            proof {
                lemma_first_segment_fits(*self, u as int, scaled as int);
            }
            return match scaled.checked_add(self.base_rate) {
                None => Err(Error::Arithmetic),
                Some(v) => Ok(v),
            };
        }
        // above the optimal utilization the rate is clamped at the maximum,
        // so any overflow past it resolves to the clamp
        let first_part = match mul_div_floor(self.first_slope, self.optimal_utilization, WAD) {
            None => { return Ok(self.max_borrow_rate) },
            Some(v) => v,
        };
        let second_part = match mul_div_floor(self.last_slope, u - self.optimal_utilization, WAD) {
            None => { return Ok(self.max_borrow_rate) },
            Some(v) => v,
        };
        let r1 = match first_part.checked_add(self.base_rate) {
            None => { return Ok(self.max_borrow_rate) },
            Some(v) => v,
        };
        let rate = match r1.checked_add(second_part) {
            None => { return Ok(self.max_borrow_rate) },
            Some(v) => v,
        };
        if rate >= self.max_borrow_rate {
            Ok(self.max_borrow_rate)
        } else {
            Ok(rate)
        }
    }

    fn get_supply_rate(&self, borrows: u128, liquidity: u128, reserve_factor: u128) -> (r: Result<
        u128,
        Error,
    >) {
        let u = self.get_utilization(borrows, liquidity)?;
        let rate = self.get_borrow_rate(borrows, liquidity)?;
        let scaled = match mul_div_floor(u, rate, WAD) {
            None => { return Err(Error::Arithmetic) },
            Some(v) => v,
        };
        match mul_div_floor(scaled, WAD - reserve_factor, WAD) {
            None => Err(Error::Arithmetic),
            Some(v) => Ok(v),
        }
    }

    fn get_rates(&self, borrows: u128, liquidity: u128, reserve_factor: u128) -> (r: Result<
        (u128, u128),
        Error,
    >) {
        let borrow_rate = self.get_borrow_rate(borrows, liquidity)?;
        let supply_rate = self.get_supply_rate(borrows, liquidity, reserve_factor)?;
        Ok((borrow_rate, supply_rate))
    }
}

/// In the first segment the scaled slope never exceeds the slope itself,
/// because the utilization is at most the optimal one, itself below WAD.
proof fn lemma_first_segment_fits(m: RateModel, u: int, scaled: int)
    requires
        0 <= u <= m.optimal_utilization,
        m.optimal_utilization < WAD,
        scaled == m.first_slope * u / (WAD as int),
    ensures
        scaled <= m.first_slope,
{
    assert(m.first_slope * u <= m.first_slope * (WAD as int)) by (nonlinear_arith)
        requires
            0 <= u <= WAD,
            m.first_slope >= 0,
    ;
    vstd::arithmetic::div_mod::lemma_div_is_ordered(
        m.first_slope * u,
        m.first_slope * (WAD as int),
        WAD as int,
    );
    vstd::arithmetic::div_mod::lemma_div_multiples_vanish(m.first_slope as int, WAD as int);
}

} // verus!
