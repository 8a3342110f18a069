//! The discount-rate model: an ordered list of markets whose collateral
//! earns a stablecoin borrower a rate discount.
//!
//! Entries are kept sorted by discount, largest first. A borrower's
//! effective discount walks the list: each entry's collateral, valued at
//! the stablecoin price, covers part of the borrow at that entry's
//! discount until the borrow is exhausted.

use crate::errors::Error;
use crate::store::Table;
use crate::math::{mul_div_floor, BPS, WAD};
use vstd::prelude::*;

verus! {

/// The most discount entries the model holds.
pub const MAX_DISCOUNTS: usize = 8;

/// One discounting market: its identifier, its underlying and the
/// discount its collateral earns, in basis points.
#[derive(Clone, Copy, Debug, PartialEq, Eq, Structural)]
pub struct DiscountData {
    pub money_market: u64,
    pub underlying_id: u64,
    pub discount: u128,
}

/// Which exchange rate a discount computation uses: the stored one, or a
/// freshly fetched one.
#[derive(Clone, Copy, Debug, PartialEq, Eq, Structural)]
pub enum ExchangeRateType {
    Cached,
    Updated,
}

/// What the discount walk reads per entry for one borrower: its
/// collateral tokens there, the market's exchange rate under the chosen
/// strategy, the underlying's price, and the market's stablecoin-borrower
/// collateral factor.
#[derive(Clone, Copy, Debug, PartialEq, Eq, Structural)]
pub struct DiscountInput {
    pub tokens: u128,
    pub fx: u128,
    pub price: u128,
    pub ltv: u128,
}

/// The discount model: the ordered entry list, and the exchange rate
/// cached per market for reads under the cached strategy.
pub struct DiscountRateModel {
    /// Entries, sorted by discount, largest first.
    pub entries: Vec<DiscountData>,
    /// The last exchange rate captured per market.
    pub cached_rates: Table<u128>,
}

impl DiscountRateModel {
    /// Entries are sorted by descending discount, their discounts are in
    /// `(0, BPS]`, and no market appears twice.
    pub open spec fn wf(self) -> bool {
        &&& forall|i: int, j: int|
            0 <= i < j < self.entries.len() ==> (#[trigger] self.entries[i]).discount >= (
            #[trigger] self.entries[j]).discount
        &&& forall|i: int|
            0 <= i < self.entries.len() ==> 0 < (#[trigger] self.entries[i]).discount <= BPS
        &&& forall|i: int, j: int|
            0 <= i < j < self.entries.len() ==> (#[trigger] self.entries[i]).money_market != (
            #[trigger] self.entries[j]).money_market
        &&& self.entries.len() <= MAX_DISCOUNTS
        &&& self.cached_rates.wf()
    }

    /// Creates an empty model.
    pub fn new() -> (r: DiscountRateModel)
        ensures
            r.wf(),
            r.entries@.len() == 0,
            forall|m: u64| #[trigger] r.cached_rates.lookup(m, 0, 0) is None,
    {
        DiscountRateModel { entries: Vec::new(), cached_rates: Table::new() }
    }

    /// Captures a market's exchange rate, as read on registration or on
    /// a refresh under the updated strategy.
    pub fn cache_exchange_rate(&mut self, m: u64, fx: u128)
        requires
            old(self).wf(),
        ensures
            final(self).wf(),
            final(self).cached_rates.lookup(m, 0, 0) == Some(fx),
            forall|x: u64|
                x != m ==> #[trigger] final(self).cached_rates.lookup(x, 0, 0) == old(self).cached_rates.lookup(x, 0, 0),
            final(self).entries == old(self).entries,
    {
        self.cached_rates.set(m, 0, 0, fx);
    }

    /// The exchange rate last captured for a market, if any.
    pub fn cached_exchange_rate(&self, m: u64) -> (r: Option<u128>)
        requires
            self.wf(),
        ensures
            r == self.cached_rates.lookup(m, 0, 0),
    {
        self.cached_rates.get(m, 0, 0)
    }

    /// Whether a market has a discount entry.
    pub fn has_discount_data(&self, m: u64) -> (r: bool)
        ensures
            r == exists|i: int|
                0 <= i < self.entries@.len() && (#[trigger] self.entries@[i]).money_market == m,
    {
        let mut i: usize = 0;
        while i < self.entries.len()
            invariant
                i <= self.entries@.len(),
                forall|j: int|
                    0 <= j < i ==> (#[trigger] self.entries@[j]).money_market != m,
            decreases self.entries@.len() - i,
        {
            if self.entries[i].money_market == m {
                return true;
            }
            i = i + 1;
        }
        false
    }

    /// Adds a discount entry, keeping the list sorted by descending
    /// discount.
    pub fn set_discount_data(&mut self, m: u64, underlying_id: u64, discount: u128) -> (r: Result<
        (),
        Error,
    >)
        requires
            old(self).wf(),
        ensures
            final(self).wf(),
            match r {
                Ok(()) => {
                    &&& 0 < discount <= BPS
                    &&& final(self).entries@.len() == old(self).entries@.len() + 1
                    &&& exists|i: int|
                        0 <= i < final(self).entries@.len() && #[trigger] final(self).entries@[i]
                            == (DiscountData { money_market: m, underlying_id, discount })
                },
                Err(e) => *final(self) == *old(self) && (e == Error::InvalidConfiguration || e
                    == Error::CapExceeded),
            },
    {
        if self.entries.len() >= MAX_DISCOUNTS {
            return Err(Error::CapExceeded);
        }
        if self.has_discount_data(m) {
            return Err(Error::InvalidConfiguration);
        }
        if discount == 0 || discount > BPS {
            return Err(Error::InvalidConfiguration);
        }
        let data = DiscountData { money_market: m, underlying_id, discount };
        // find the first entry with a smaller discount and insert before it
        let ghost s0 = self.entries@;
        let mut i: usize = 0;
        while i < self.entries.len() && self.entries[i].discount >= discount
            invariant
                self.wf(),
                self.entries@ == s0,
                i <= self.entries@.len(),
                forall|j: int| 0 <= j < i ==> (#[trigger] self.entries@[j]).discount >= discount,
                forall|j: int| 0 <= j < s0.len() ==> (#[trigger] s0[j]).money_market != m,
            decreases self.entries@.len() - i,
        {
            i = i + 1;
        }
        self.entries.insert(i, data);
        proof {
            let s1 = self.entries@;
            assert(forall|p: int|
                0 <= p < s1.len() ==> #[trigger] s1[p] == (if p < i as int {
                    s0[p]
                } else if p == i as int {
                    data
                } else {
                    s0[p - 1]
                }));
            assert(s1[i as int] == data);
            assert forall|p: int, q: int| 0 <= p < q < s1.len() implies (
            #[trigger] s1[p]).discount >= (#[trigger] s1[q]).discount && s1[p].money_market
                != s1[q].money_market by {
                let p0: int = if p < i as int {
                    p
                } else {
                    p - 1
                };
                let q0: int = if q < i as int {
                    q
                } else {
                    q - 1
                };
                if p != i as int && q != i as int {
                    assert(s0[p0].discount >= s0[q0].discount);
                    assert(s0[p0].money_market != s0[q0].money_market);
                } else if p == i as int {
                    assert(s0[q0].discount <= s0[i as int].discount);
                }
            }
        }
        Ok(())
    }

    /// Removes a market's discount entry.
    pub fn remove_discount_data(&mut self, m: u64) -> (r: Result<(), Error>)
        requires
            old(self).wf(),
        ensures
            final(self).wf(),
            match r {
                Ok(()) => forall|i: int|
                    0 <= i < final(self).entries@.len() ==> (
                    #[trigger] final(self).entries@[i]).money_market != m,
                Err(e) => e == Error::InvalidConfiguration && *final(self) == *old(self),
            },
    {
        let ghost s0 = self.entries@;
        let mut i: usize = 0;
        while i < self.entries.len()
            invariant
                self.wf(),
                *self == *old(self),
                self.entries@ == s0,
                i <= self.entries@.len(),
                forall|j: int| 0 <= j < i ==> (#[trigger] self.entries@[j]).money_market != m,
            decreases self.entries@.len() - i,
        {
            if self.entries[i].money_market == m {
                self.entries.remove(i);
                proof {
                    let s1 = self.entries@;
                    assert(forall|p: int|
                        0 <= p < s1.len() ==> #[trigger] s1[p] == (if p < i as int {
                            s0[p]
                        } else {
                            s0[p + 1]
                        }));
                    assert forall|p: int|
                        0 <= p < s1.len() implies (#[trigger] s1[p]).money_market != m by {
                        if p >= i as int {
                            assert(s0[i as int].money_market != s0[p + 1].money_market);
                        }
                    }
                    assert forall|p: int, q: int| 0 <= p < q < s1.len() implies (
                    #[trigger] s1[p]).discount >= (#[trigger] s1[q]).discount
                        && s1[p].money_market != s1[q].money_market by {
                        let p0: int = if p < i as int {
                            p
                        } else {
                            p + 1
                        };
                        let q0: int = if q < i as int {
                            q
                        } else {
                            q + 1
                        };
                        assert(s0[p0].discount >= s0[q0].discount);
                        assert(s0[p0].money_market != s0[q0].money_market);
                    }
                }
                return Ok(());
            }
            i = i + 1;
        }
        Err(Error::InvalidConfiguration)
    }

    /// Replaces a market's discount.
    pub fn update_discount_data(&mut self, m: u64, underlying_id: u64, discount: u128) -> (r:
        Result<(), Error>)
        requires
            old(self).wf(),
        ensures
            final(self).wf(),
    {
        self.remove_discount_data(m)?;
        self.set_discount_data(m, underlying_id, discount)
    }
}

/// One tail-recursive pass of the discount walk: per entry, the
/// collateral's stablecoin value `tokens * ltv / WAD * fx / WAD * price /
/// ush_price` (each product floored) covers up to the remaining borrow at
/// the entry's discount. Returns `(accumulated, remaining)`, or the step
/// at which a value leaves 128 bits.
pub open spec fn spec_discount_go(
    entries: Seq<DiscountData>,
    inputs: Seq<DiscountInput>,
    ush_price: u128,
    i: int,
    acc: int,
    remaining: int,
) -> Result<(int, int), Error>
    decreases entries.len() - i,
{
    if i < 0 || i >= entries.len() || remaining <= 0 {
        Ok((acc, remaining))
    } else {
        let inp = inputs[i];
        if inp.tokens == 0 {
            spec_discount_go(entries, inputs, ush_price, i + 1, acc, remaining)
        } else {
            let d1 = inp.tokens * inp.ltv / (WAD as int);
            let d2 = d1 * inp.fx / (WAD as int);
            let d3 = d2 * inp.price / (ush_price as int);
            let eligible = if d3 < remaining {
                d3
            } else {
                remaining
            };
            let gain = eligible * entries[i].discount / (BPS as int);
            if ush_price == 0 || d1 > u128::MAX || d2 > u128::MAX || d3 > u128::MAX || acc + gain
                > u128::MAX {
                Err(Error::Arithmetic)
            } else {
                spec_discount_go(entries, inputs, ush_price, i + 1, acc + gain, remaining
                    - eligible)
            }
        }
    }
}

impl DiscountRateModel {
    /// The borrower's effective discount in WAD for a borrow of `borrow`
    /// stablecoins, walking the entries against the given per-entry
    /// inputs and the stablecoin price.
    pub fn get_account_discount(
        &self,
        borrow: u128,
        inputs: &Vec<DiscountInput>,
        ush_price: u128,
    ) -> (r: Result<u128, Error>)
        requires
            self.wf(),
            inputs@.len() == self.entries@.len(),
        ensures
            match r {
                Ok(v) => {
                    ||| (borrow == 0 || self.entries@.len() == 0) && v == 0
                    ||| spec_discount_go(self.entries@, inputs@, ush_price, 0, 0, borrow as int)
                        matches Ok(t) && v == t.0 * WAD / (borrow as int)
                },
                Err(e) => e == Error::Arithmetic && borrow > 0 && self.entries@.len() > 0 && (
                spec_discount_go(self.entries@, inputs@, ush_price, 0, 0, borrow as int) is Err
                    || (spec_discount_go(self.entries@, inputs@, ush_price, 0, 0, borrow as int)
                    matches Ok(t) && t.0 * WAD / (borrow as int) > u128::MAX)),
            },
    {
        if borrow == 0 || self.entries.len() == 0 {
            return Ok(0);
        }
        let mut acc: u128 = 0;
        let mut remaining: u128 = borrow;
        let mut i: usize = 0;
        while i < self.entries.len() && remaining > 0
            invariant
                self.wf(),
                inputs@.len() == self.entries@.len(),
                i <= self.entries@.len(),
                spec_discount_go(self.entries@, inputs@, ush_price, 0, 0, borrow as int)
                    == spec_discount_go(
                    self.entries@,
                    inputs@,
                    ush_price,
                    i as int,
                    acc as int,
                    remaining as int,
                ),
            decreases self.entries@.len() - i,
        {
            let inp = inputs[i];
            if inp.tokens > 0 {
                let d1 = match mul_div_floor(inp.tokens, inp.ltv, WAD) {
                    None => { return Err(Error::Arithmetic) },
                    Some(v) => v,
                };
                let d2 = match mul_div_floor(d1, inp.fx, WAD) {
                    None => { return Err(Error::Arithmetic) },
                    Some(v) => v,
                };
                let d3 = match mul_div_floor(d2, inp.price, ush_price) {
                    None => { return Err(Error::Arithmetic) },
                    Some(v) => v,
                };
                let eligible = if d3 < remaining {
                    d3
                } else {
                    remaining
                };
                proof {
                    crate::math::lemma_mul_div_le(
                        eligible as int,
                        self.entries@[i as int].discount as int,
                        BPS as int,
                    );
                }
                let gain = match mul_div_floor(eligible, self.entries[i].discount, BPS) {
                    None => {
                        // unreachable: discounts are basis-point fractions
                        proof {
                            assert(false);
                        }
                        return Err(Error::Arithmetic);
                    },
                    Some(v) => v,
                };
                acc = match acc.checked_add(gain) {
                    None => { return Err(Error::Arithmetic) },
                    Some(v) => v,
                };
                remaining = remaining - eligible;
            }
            i = i + 1;
        }
        proof {
            assert(i == self.entries@.len() || remaining == 0);
            assert(spec_discount_go(
                self.entries@,
                inputs@,
                ush_price,
                i as int,
                acc as int,
                remaining as int,
            ) == Ok::<(int, int), Error>((acc as int, remaining as int)));
        }
        match mul_div_floor(acc, WAD, borrow) {
            None => Err(Error::Arithmetic),
            Some(v) => Ok(v),
        }
    }
}

} // verus!
