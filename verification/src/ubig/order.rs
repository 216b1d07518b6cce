//! The order of two numbers.

use vstd::prelude::*;
use core::cmp::Ordering;
use crate::ubig::Ubig;

verus! {

impl Ubig {
    /// How the number stands to another. Two numbers can always be told
    /// apart or are equal, so the answer is never `None`.
    pub fn partial_cmp(&self, other: &Self) -> (r: Option<Ordering>)
        ensures
            r is Some,
            r == Some(Ordering::Less) <==> self.value() < other.value(),
            r == Some(Ordering::Equal) <==> self.value() == other.value(),
            r == Some(Ordering::Greater) <==> self.value() > other.value(),
    {
        let c = self.compare(other);
        if c < 0 {
            Some(Ordering::Less)
        } else if c > 0 {
            Some(Ordering::Greater)
        } else {
            Some(Ordering::Equal)
        }
    }
}

} // verus!
