//! Equality and order. Both go by the difference of the two values, so that
//! two encodings of one number are equal.

use vstd::prelude::*;
use vstd::std_specs::cmp::{PartialEqSpecImpl, PartialOrdSpecImpl};
use core::cmp::Ordering;
use core::ops::Sub;
use crate::Dec64;

verus! {

impl Dec64 {
    /// Equality of values: the same word, or two zeros, or a difference that
    /// is zero. A NaN equals only the NaN with the same coefficient.
    pub open spec fn same(self, other: Dec64) -> bool {
        self == other || (self.is_zero_spec() && other.is_zero_spec()) || self.difference(
            other,
        ).is_zero_spec()
    }

    /// The order of two values: equal when they are the same word or both
    /// NaN or their difference is zero, greater when the difference has a
    /// positive coefficient, less otherwise.
    pub open spec fn order(self, other: Dec64) -> Ordering {
        if self == other || (self.is_nan_spec() && other.is_nan_spec()) {
            Ordering::Equal
        } else if self.difference(other).is_zero_spec() {
            Ordering::Equal
        } else if self.difference(other).coefficient_spec() > 0 {
            Ordering::Greater
        } else {
            Ordering::Less
        }
    }

    /// Whether `self` comes before `other` or is equal to it in the order.
    pub open spec fn at_most(self, other: Dec64) -> bool {
        self.order(other) != Ordering::Greater
    }
}

impl PartialEq for Dec64 {
    /// Whether the two values are equal: zeros of any exponent are, NaNs
    /// with different coefficients are not.
    fn eq(&self, other: &Dec64) -> (r: bool) {
        if self.bits == other.bits {
            return true;
        }
        if self.is_zero() && other.is_zero() {
            return true;
        }
        self.sub(*other).is_zero()
    }
}

impl PartialEqSpecImpl for Dec64 {
    open spec fn obeys_eq_spec() -> bool {
        true
    }

    open spec fn eq_spec(&self, other: &Dec64) -> bool {
        self.same(*other)
    }
}

impl Eq for Dec64 {

}

impl PartialOrd for Dec64 {
    /// The order of the two values, which is always defined.
    fn partial_cmp(&self, other: &Dec64) -> (r: Option<Ordering>) {
        if self.bits == other.bits || (self.is_nan() && other.is_nan()) {
            Some(Ordering::Equal)
        } else {
            let diff = self.sub(*other);
            if diff.is_zero() {
                Some(Ordering::Equal)
            } else if diff.coefficient() > 0 {
                Some(Ordering::Greater)
            } else {
                Some(Ordering::Less)
            }
        }
    }
}

impl PartialOrdSpecImpl for Dec64 {
    open spec fn obeys_partial_cmp_spec() -> bool {
        true
    }

    open spec fn partial_cmp_spec(&self, other: &Dec64) -> Option<Ordering> {
        Some(self.order(*other))
    }
}

} // verus!
