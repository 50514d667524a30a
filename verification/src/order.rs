//! The order of integer values: by the integers, whatever the widths.

use crate::types::IntegerValue;
use std::cmp::Ordering;
use vstd::prelude::*;

verus! {

/// The order of two integers.
pub open spec fn int_order(a: int, b: int) -> Ordering {
    if a < b {
        Ordering::Less
    } else if a > b {
        Ordering::Greater
    } else {
        Ordering::Equal
    }
}

impl PartialOrd for IntegerValue {
    fn partial_cmp(&self, other: &IntegerValue) -> (r: Option<Ordering>) {
        if self.lt(other) {
            Some(Ordering::Less)
        } else if other.lt(self) {
            Some(Ordering::Greater)
        } else {
            Some(Ordering::Equal)
        }
    }
}

impl vstd::std_specs::cmp::PartialOrdSpecImpl for IntegerValue {
    open spec fn obeys_partial_cmp_spec() -> bool {
        true
    }

    open spec fn partial_cmp_spec(&self, other: &IntegerValue) -> Option<Ordering> {
        Some(int_order(self@.value, other@.value))
    }
}

} // verus!
