//! Range checks on ordered values.

use vstd::prelude::*;
use core::cmp::Ordering;
use vstd::std_specs::cmp::PartialOrdSpec;

verus! {

/// `low` is ordered before `high`, or equal to it.
pub open spec fn at_most<T: PartialOrd>(low: T, high: T) -> bool {
    low.partial_cmp_spec(&high) matches Some(Ordering::Less | Ordering::Equal)
}

/// `value` lies in the closed range from `min` to `max`.
pub open spec fn within<T: PartialOrd>(value: T, min: T, max: T) -> bool {
    at_most(min, value) && at_most(value, max)
}

/// Whether `value` lies in the closed range from `min` to `max`. The range
/// must be a proper one: `min` strictly below `max`.
pub fn int_is_bounded<T: PartialOrd>(value: T, min: T, max: T) -> (bounded: bool)
    requires
        T::obeys_partial_cmp_spec(),
        min.partial_cmp_spec(&max) == Some(Ordering::Less),
    ensures
        bounded == within(value, min, max),
{
    min <= value && value <= max
}

} // verus!
