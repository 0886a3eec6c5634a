//! Fixed-point money values and their arithmetic.
//!
//! Sums are exact and are asked to fit: amounts are expected to stay far
//! below the largest `u64`, and whoever adds two of them says so, or uses
//! `checked_add`. Differences are either checked or floored at zero.

use vstd::prelude::*;
use vstd::std_specs::ops::{AddSpecImpl, DivSpecImpl, RemSpecImpl};

verus! {

/// A non-negative amount of money, counted in ten-thousandths of a unit.
///
/// The count is exact: no operation on an `Amount` rounds, and none goes
/// through binary floating point.
#[derive(Clone, Copy, Debug, PartialEq, Eq, Structural, Ord)]
pub struct Amount(pub u64);

impl Amount {
    /// The exact sum of two amounts, where it fits.
    pub open spec fn plus(self, rhs: Amount) -> Amount
        recommends
            self.0 + rhs.0 <= u64::MAX,
    {
        Amount((self.0 + rhs.0) as u64)
    }

    /// The difference of two amounts, floored at zero.
    pub open spec fn minus(self, rhs: Amount) -> Amount {
        if rhs.0 <= self.0 {
            Amount((self.0 - rhs.0) as u64)
        } else {
            Amount(0)
        }
    }

    /// The smaller of two amounts.
    pub open spec fn least(self, rhs: Amount) -> Amount {
        if self.0 <= rhs.0 {
            self
        } else {
            rhs
        }
    }

    /// The difference `self - rhs`, or `None` when `rhs` exceeds `self`.
    pub fn checked_sub(self, rhs: Amount) -> (result: Option<Amount>)
        ensures
            rhs.0 <= self.0 ==> result == Some(self.minus(rhs)),
            rhs.0 > self.0 ==> result is None,
    {
        if rhs.0 <= self.0 {
            Some(Amount(self.0 - rhs.0))
        } else {
            None
        }
    }

    /// The difference `self - rhs`, or zero when `rhs` exceeds `self`.
    pub fn saturating_sub(self, rhs: Amount) -> (result: Amount)
        ensures
            result == self.minus(rhs),
    {
        if rhs.0 <= self.0 {
            Amount(self.0 - rhs.0)
        } else {
            Amount(0)
        }
    }

    /// The sum `self + rhs`, or `None` when it does not fit.
    pub fn checked_add(self, rhs: Amount) -> (result: Option<Amount>)
        ensures
            self.0 + rhs.0 <= u64::MAX ==> result == Some(self.plus(rhs)),
            self.0 + rhs.0 > u64::MAX ==> result is None,
    {
        if rhs.0 <= u64::MAX - self.0 {
            Some(Amount(self.0 + rhs.0))
        } else {
            None
        }
    }
}

impl Default for Amount {
    /// No money.
    fn default() -> (result: Amount)
        ensures
            result == Amount(0),
    {
        Amount(0)
    }
}

impl core::ops::Add for Amount {
    type Output = Amount;

    /// The exact sum of two amounts that fits in an amount.
    fn add(self, rhs: Amount) -> (result: Amount) {
        Amount(self.0 + rhs.0)
    }
}

impl AddSpecImpl for Amount {
    open spec fn obeys_add_spec() -> bool {
        true
    }

    open spec fn add_req(self, rhs: Amount) -> bool {
        self.0 + rhs.0 <= u64::MAX
    }

    open spec fn add_spec(self, rhs: Amount) -> Amount {
        self.plus(rhs)
    }
}

impl core::ops::Div<u64> for Amount {
    type Output = Amount;

    /// The amount divided by a number other than zero, rounded down.
    fn div(self, rhs: u64) -> (result: Amount) {
        Amount(self.0 / rhs)
    }
}

impl DivSpecImpl<u64> for Amount {
    open spec fn obeys_div_spec() -> bool {
        true
    }

    open spec fn div_req(self, rhs: u64) -> bool {
        rhs != 0
    }

    open spec fn div_spec(self, rhs: u64) -> Amount {
        Amount(self.0 / rhs)
    }
}

impl core::ops::Rem<u64> for Amount {
    type Output = Amount;

    /// What is left of the amount after division by a number other than
    /// zero.
    fn rem(self, modulus: u64) -> (result: Amount) {
        Amount(self.0 % modulus)
    }
}

impl RemSpecImpl<u64> for Amount {
    open spec fn obeys_rem_spec() -> bool {
        true
    }

    open spec fn rem_req(self, modulus: u64) -> bool {
        modulus != 0
    }

    open spec fn rem_spec(self, modulus: u64) -> Amount {
        Amount(self.0 % modulus)
    }
}

impl core::ops::AddAssign for Amount {
    /// Adds an amount in place; the sum has to fit.
    fn add_assign(&mut self, other: Amount)
        requires
            old(self).0 + other.0 <= u64::MAX,
        ensures
            final(self).0 == old(self).0 + other.0,
    {
        *self = Amount(self.0 + other.0);
    }
}

impl core::ops::SubAssign for Amount {
    /// Takes an amount away in place; it must not exceed what is there.
    fn sub_assign(&mut self, rhs: Amount)
        requires
            rhs.0 <= old(self).0,
        ensures
            final(self).0 == old(self).0 - rhs.0,
    {
        *self = Amount(self.0 - rhs.0);
    }
}

} // verus!
