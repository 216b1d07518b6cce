//! What is made of random bytes once they are read: a number in a range and
//! a coin flip.

use vstd::prelude::*;

verus! {

/// A number halved until it is at most `top`.
pub open spec fn halve_until(rn: u32, top: u32) -> u32
    decreases rn,
{
    if rn > top && rn > 0 {
        halve_until((rn / 2) as u32, top)
    } else {
        rn
    }
}

/// The largest multiple of `span` among the 32-bit numbers.
pub open spec fn unbiased_top(span: u32) -> int {
    (u32::MAX / span) * span
}

/// The number that a random word gives in the range between two bounds,
/// the lower one included and the higher one not; the bound itself where
/// the two are equal.
pub open spec fn range_spec(min: u32, max: u32, random: u32) -> int {
    let lo = if min > max {
        max
    } else {
        min
    };
    let hi = if min > max {
        min
    } else {
        max
    };
    if lo == hi {
        lo as int
    } else {
        lo + halve_until(random, unbiased_top((hi - lo) as u32) as u32) % ((hi - lo) as u32)
    }
}

proof fn lemma_shift_halves(x: u32)
    by (bit_vector)
    ensures
        x >> 1 == x / 2,
{
}

/// A number in the range between two bounds, given in either order, made
/// from a random word. A word above the largest multiple of the width of the
/// range is halved until it is not.
pub fn range(min: u32, max: u32, random: u32) -> (r: u32)
    ensures
        r == range_spec(min, max, random),
        min < max ==> min <= r < max,
        max < min ==> max <= r < min,
        min == max ==> r == min,
{
    let (min, max) = if min > max {
        (max, min)
    } else {
        (min, max)
    };
    if min == max {
        return min;
    }
    let mut rn: u32 = random;
    let span: u32 = max - min;
    assert((u32::MAX / span) * span <= u32::MAX) by (nonlinear_arith)
        requires
            span > 0,
    ;
    let unbiased_top: u32 = (u32::MAX / span) * span;
    while rn > unbiased_top
        invariant
            halve_until(rn, unbiased_top) == halve_until(random, unbiased_top),
        decreases rn,
    {
        proof {
            lemma_shift_halves(rn);
        }
        rn = rn >> 1;
    }
    min + rn % span
}

/// The coin that a random byte shows: heads where its lowest bit is set.
pub fn coin_flip(random: u8) -> (r: bool)
    ensures
        r == ((random & 1u8) != 0),
{
    (random & 1u8) != 0
}

} // verus!
