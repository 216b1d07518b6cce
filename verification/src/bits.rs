//! Words and their bytes: the conversions that the ciphers, the digests and
//! the generators share.

use vstd::prelude::*;

verus! {

/// Byte `k` of a word, counted from the most significant one.
pub open spec fn be_byte(w: u32, k: int) -> u8 {
    if k == 0 {
        (w >> 24) as u8
    } else if k == 1 {
        (w >> 16) as u8
    } else if k == 2 {
        (w >> 8) as u8
    } else {
        w as u8
    }
}

/// The word with `b0` as its most significant byte.
pub open spec fn be_word(b0: u8, b1: u8, b2: u8, b3: u8) -> u32 {
    ((b0 as u32) << 24) | ((b1 as u32) << 16) | ((b2 as u32) << 8) | (b3 as u32)
}

/// Byte `k` of a word, counted from the least significant one.
pub open spec fn le_byte32(w: u32, k: int) -> u8 {
    be_byte(w, 3 - k)
}

/// The word with `b0` as its least significant byte.
pub open spec fn le_word(b0: u8, b1: u8, b2: u8, b3: u8) -> u32 {
    be_word(b3, b2, b1, b0)
}

/// The word rotated left by `n` bits, for `n` from 1 to 31.
pub open spec fn rotl_spec(w: u32, n: u32) -> u32 {
    (w << n) | (w >> ((32 - n) as u32))
}

/// The word rotated right by `n` bits, for `n` from 1 to 31.
pub open spec fn rotr_spec(w: u32, n: u32) -> u32 {
    (w >> n) | (w << ((32 - n) as u32))
}

/// Byte `k` of a word, counted from the most significant one.
pub fn word_byte(w: u32, k: usize) -> (r: u8)
    requires
        k < 4,
    ensures
        r == be_byte(w, k as int),
{
    if k == 0 {
        #[verifier::truncate]
        ((w >> 24) as u8)
    } else if k == 1 {
        #[verifier::truncate]
        ((w >> 16) as u8)
    } else if k == 2 {
        #[verifier::truncate]
        ((w >> 8) as u8)
    } else {
        #[verifier::truncate]
        (w as u8)
    }
}

/// Builds a word from four bytes, the most significant first.
pub fn word_from_be(b0: u8, b1: u8, b2: u8, b3: u8) -> (w: u32)
    ensures
        w == be_word(b0, b1, b2, b3),
{
    ((b0 as u32) << 24) | ((b1 as u32) << 16) | ((b2 as u32) << 8) | (b3 as u32)
}

/// Rotates a word left.
pub fn rotl(w: u32, n: u32) -> (r: u32)
    requires
        1 <= n <= 31,
    ensures
        r == rotl_spec(w, n),
{
    (w << n) | (w >> (32 - n))
}

/// Rotates a word right.
pub fn rotr(w: u32, n: u32) -> (r: u32)
    requires
        1 <= n <= 31,
    ensures
        r == rotr_spec(w, n),
{
    (w >> n) | (w << (32 - n))
}

} // verus!
