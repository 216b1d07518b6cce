//! Arithmetic in GF(2^8) modulo the polynomial x^8 + x^4 + x^3 + x + 1.

use vstd::prelude::*;

verus! {

/// Multiplication by x: a left shift, reduced by 0x1b when the top bit falls out.
pub open spec fn xtimes_spec(a: u8) -> u8 {
    if a & 0x80 != 0 {
        (a << 1) ^ 0x1b
    } else {
        a << 1
    }
}

/// `a` where bit `i` of `b` is set, zero elsewhere.
pub open spec fn bit_select(b: u8, i: u8, a: u8) -> u8 {
    if (b >> i) & 1 == 1 {
        a
    } else {
        0
    }
}

/// The product of `a` and `b` in GF(2^8): for each set bit `i` of `b`, the
/// value `a * x^i`, all of them summed (xor).
#[verifier::opaque]
pub open spec fn gf_mul(a: u8, b: u8) -> u8 {
    let a1 = xtimes_spec(a);
    let a2 = xtimes_spec(a1);
    let a3 = xtimes_spec(a2);
    let a4 = xtimes_spec(a3);
    let a5 = xtimes_spec(a4);
    let a6 = xtimes_spec(a5);
    let a7 = xtimes_spec(a6);
    bit_select(b, 0, a) ^ bit_select(b, 1, a1) ^ bit_select(b, 2, a2) ^ bit_select(b, 3, a3)
        ^ bit_select(b, 4, a4) ^ bit_select(b, 5, a5) ^ bit_select(b, 6, a6) ^ bit_select(
        b,
        7,
        a7,
    )
}

/// Doubling in the field.
pub fn xtimes(byte: u8) -> (r: u8)
    ensures
        r == xtimes_spec(byte),
        r == gf_mul(byte, 2),
{
    let red: u8 = if byte >> 7 == 1 { 0x1b } else { 0 };
    let r = (byte << 1) ^ red;
    proof {
        assert(r == xtimes_spec(byte)) by (bit_vector)
            requires
                red == if byte >> 7 == 1 { 0x1bu8 } else { 0u8 },
                r == (byte << 1) ^ red,
        ;
        assert(xtimes_spec(byte) == gf_mul(byte, 2)) by (bit_vector);
    }
    r
}

/// Multiplication by a factor below 16, from three doublings and the bits of `b`.
/// Bits 4 to 7 of `b` are not read.
pub fn xmul(a: u8, b: u8) -> (r: u8)
    ensures
        r == gf_mul(a, b & 0x0f),
        b < 16 ==> r == gf_mul(a, b),
{
    let a1 = xtimes(a);
    let a2 = xtimes(a1);
    let a3 = xtimes(a2);
    let t0: u8 = if b & 1 != 0 { a } else { 0 };
    let t1: u8 = if (b >> 1) & 1 != 0 { a1 } else { 0 };
    let t2: u8 = if (b >> 2) & 1 != 0 { a2 } else { 0 };
    let t3: u8 = if (b >> 3) & 1 != 0 { a3 } else { 0 };
    let r = t0 ^ t1 ^ t2 ^ t3;
    proof {
        assert(r == gf_mul(a, b & 0x0f)) by (bit_vector)
            requires
                a1 == xtimes_spec(a),
                a2 == xtimes_spec(a1),
                a3 == xtimes_spec(a2),
                t0 == if b & 1 != 0 { a } else { 0u8 },
                t1 == if (b >> 1) & 1 != 0 { a1 } else { 0u8 },
                t2 == if (b >> 2) & 1 != 0 { a2 } else { 0u8 },
                t3 == if (b >> 3) & 1 != 0 { a3 } else { 0u8 },
                r == t0 ^ t1 ^ t2 ^ t3,
        ;
        assert(b < 16 ==> b & 0x0f == b) by (bit_vector);
    }
    r
}

/// The forward column mix written with doublings only: `03 * a` is `02 * a`
/// plus `a`, and `01 * a` is `a`.
pub proof fn lemma_mix_byte(a0: u8, a1: u8, a2: u8, a3: u8)
    by (bit_vector)
    ensures
        xtimes_spec(a0) ^ a3 ^ a2 ^ xtimes_spec(a1) ^ a1 == gf_mul(a0, 0x02) ^ gf_mul(a1, 0x03)
            ^ gf_mul(a2, 0x01) ^ gf_mul(a3, 0x01),
{
}

/// Doubling is linear.
pub proof fn lemma_xtimes_linear(x: u8, y: u8)
    by (bit_vector)
    ensures
        xtimes_spec(x ^ y) == xtimes_spec(x) ^ xtimes_spec(y),
{
}

/// Selecting by a bit of the factor is linear.
pub proof fn lemma_bit_select_linear(c: u8, i: u8, x: u8, y: u8)
    by (bit_vector)
    ensures
        bit_select(c, i, x ^ y) == bit_select(c, i, x) ^ bit_select(c, i, y),
{
}

/// Multiplication distributes over addition in its first argument.
pub proof fn lemma_gf_mul_distributes(x: u8, y: u8, c: u8)
    ensures
        gf_mul(x ^ y, c) == gf_mul(x, c) ^ gf_mul(y, c),
{
    reveal(gf_mul);
    let x1 = xtimes_spec(x);
    let x2 = xtimes_spec(x1);
    let x3 = xtimes_spec(x2);
    let x4 = xtimes_spec(x3);
    let x5 = xtimes_spec(x4);
    let x6 = xtimes_spec(x5);
    let x7 = xtimes_spec(x6);
    let y1 = xtimes_spec(y);
    let y2 = xtimes_spec(y1);
    let y3 = xtimes_spec(y2);
    let y4 = xtimes_spec(y3);
    let y5 = xtimes_spec(y4);
    let y6 = xtimes_spec(y5);
    let y7 = xtimes_spec(y6);
    lemma_xtimes_linear(x, y);
    lemma_xtimes_linear(x1, y1);
    lemma_xtimes_linear(x2, y2);
    lemma_xtimes_linear(x3, y3);
    lemma_xtimes_linear(x4, y4);
    lemma_xtimes_linear(x5, y5);
    lemma_xtimes_linear(x6, y6);
    lemma_bit_select_linear(c, 0, x, y);
    lemma_bit_select_linear(c, 1, x1, y1);
    lemma_bit_select_linear(c, 2, x2, y2);
    lemma_bit_select_linear(c, 3, x3, y3);
    lemma_bit_select_linear(c, 4, x4, y4);
    lemma_bit_select_linear(c, 5, x5, y5);
    lemma_bit_select_linear(c, 6, x6, y6);
    lemma_bit_select_linear(c, 7, x7, y7);
    let u0 = bit_select(c, 0, x);
    let u1 = bit_select(c, 1, x1);
    let u2 = bit_select(c, 2, x2);
    let u3 = bit_select(c, 3, x3);
    let u4 = bit_select(c, 4, x4);
    let u5 = bit_select(c, 5, x5);
    let u6 = bit_select(c, 6, x6);
    let u7 = bit_select(c, 7, x7);
    let v0 = bit_select(c, 0, y);
    let v1 = bit_select(c, 1, y1);
    let v2 = bit_select(c, 2, y2);
    let v3 = bit_select(c, 3, y3);
    let v4 = bit_select(c, 4, y4);
    let v5 = bit_select(c, 5, y5);
    let v6 = bit_select(c, 6, y6);
    let v7 = bit_select(c, 7, y7);
    assert((u0 ^ v0) ^ (u1 ^ v1) ^ (u2 ^ v2) ^ (u3 ^ v3) ^ (u4 ^ v4) ^ (u5 ^ v5) ^ (u6 ^ v6) ^ (u7
        ^ v7) == (u0 ^ u1 ^ u2 ^ u3 ^ u4 ^ u5 ^ u6 ^ u7) ^ (v0 ^ v1 ^ v2 ^ v3 ^ v4 ^ v5 ^ v6
        ^ v7)) by (bit_vector);
}

/// A sum of four bytes, multiplied term by term.
pub proof fn lemma_gf_mul_sum4(t0: u8, t1: u8, t2: u8, t3: u8, c: u8)
    ensures
        gf_mul(t0 ^ t1 ^ t2 ^ t3, c) == gf_mul(t0, c) ^ gf_mul(t1, c) ^ gf_mul(t2, c) ^ gf_mul(
            t3,
            c,
        ),
{
    lemma_gf_mul_distributes(t0 ^ t1 ^ t2, t3, c);
    lemma_gf_mul_distributes(t0 ^ t1, t2, c);
    lemma_gf_mul_distributes(t0, t1, c);
}

/// The first row of the inverse matrix times the four columns of the forward
/// matrix: one for the first column, zero for the others.
pub proof fn lemma_inverse_matrix_row(a: u8)
    by (bit_vector)
    ensures
        gf_mul(gf_mul(a, 0x02), 0x0e) ^ gf_mul(gf_mul(a, 0x01), 0x0b) ^ gf_mul(
            gf_mul(a, 0x01),
            0x0d,
        ) ^ gf_mul(gf_mul(a, 0x03), 0x09) == a,
        gf_mul(gf_mul(a, 0x03), 0x0e) ^ gf_mul(gf_mul(a, 0x02), 0x0b) ^ gf_mul(
            gf_mul(a, 0x01),
            0x0d,
        ) ^ gf_mul(gf_mul(a, 0x01), 0x09) == 0,
        gf_mul(gf_mul(a, 0x01), 0x0e) ^ gf_mul(gf_mul(a, 0x03), 0x0b) ^ gf_mul(
            gf_mul(a, 0x02),
            0x0d,
        ) ^ gf_mul(gf_mul(a, 0x01), 0x09) == 0,
        gf_mul(gf_mul(a, 0x01), 0x0e) ^ gf_mul(gf_mul(a, 0x01), 0x0b) ^ gf_mul(
            gf_mul(a, 0x03),
            0x0d,
        ) ^ gf_mul(gf_mul(a, 0x02), 0x09) == 0,
{
}

/// The matrix of `0e 0b 0d 09` undoes the matrix of `02 03 01 01`: the first
/// byte of a column comes back. The other three follow by rotating the column.
pub proof fn lemma_mix_then_inv_mix(a0: u8, a1: u8, a2: u8, a3: u8)
    ensures
        ({
            let m0 = gf_mul(a0, 0x02) ^ gf_mul(a1, 0x03) ^ gf_mul(a2, 0x01) ^ gf_mul(a3, 0x01);
            let m1 = gf_mul(a1, 0x02) ^ gf_mul(a2, 0x03) ^ gf_mul(a3, 0x01) ^ gf_mul(a0, 0x01);
            let m2 = gf_mul(a2, 0x02) ^ gf_mul(a3, 0x03) ^ gf_mul(a0, 0x01) ^ gf_mul(a1, 0x01);
            let m3 = gf_mul(a3, 0x02) ^ gf_mul(a0, 0x03) ^ gf_mul(a1, 0x01) ^ gf_mul(a2, 0x01);
            gf_mul(m0, 0x0e) ^ gf_mul(m1, 0x0b) ^ gf_mul(m2, 0x0d) ^ gf_mul(m3, 0x09) == a0
        }),
{
    // u_ij: the term of a_j in row i of the forward product, times the
    // factor that the inverse row has for row i.
    let u00 = gf_mul(gf_mul(a0, 0x02), 0x0e);
    let u01 = gf_mul(gf_mul(a1, 0x03), 0x0e);
    let u02 = gf_mul(gf_mul(a2, 0x01), 0x0e);
    let u03 = gf_mul(gf_mul(a3, 0x01), 0x0e);
    let u11 = gf_mul(gf_mul(a1, 0x02), 0x0b);
    let u12 = gf_mul(gf_mul(a2, 0x03), 0x0b);
    let u13 = gf_mul(gf_mul(a3, 0x01), 0x0b);
    let u10 = gf_mul(gf_mul(a0, 0x01), 0x0b);
    let u22 = gf_mul(gf_mul(a2, 0x02), 0x0d);
    let u23 = gf_mul(gf_mul(a3, 0x03), 0x0d);
    let u20 = gf_mul(gf_mul(a0, 0x01), 0x0d);
    let u21 = gf_mul(gf_mul(a1, 0x01), 0x0d);
    let u33 = gf_mul(gf_mul(a3, 0x02), 0x09);
    let u30 = gf_mul(gf_mul(a0, 0x03), 0x09);
    let u31 = gf_mul(gf_mul(a1, 0x01), 0x09);
    let u32 = gf_mul(gf_mul(a2, 0x01), 0x09);
    lemma_gf_mul_sum4(gf_mul(a0, 0x02), gf_mul(a1, 0x03), gf_mul(a2, 0x01), gf_mul(a3, 0x01), 0x0e);
    lemma_gf_mul_sum4(gf_mul(a1, 0x02), gf_mul(a2, 0x03), gf_mul(a3, 0x01), gf_mul(a0, 0x01), 0x0b);
    lemma_gf_mul_sum4(gf_mul(a2, 0x02), gf_mul(a3, 0x03), gf_mul(a0, 0x01), gf_mul(a1, 0x01), 0x0d);
    lemma_gf_mul_sum4(gf_mul(a3, 0x02), gf_mul(a0, 0x03), gf_mul(a1, 0x01), gf_mul(a2, 0x01), 0x09);
    lemma_inverse_matrix_row(a0);
    lemma_inverse_matrix_row(a1);
    lemma_inverse_matrix_row(a2);
    lemma_inverse_matrix_row(a3);
    assert((u00 ^ u01 ^ u02 ^ u03) ^ (u11 ^ u12 ^ u13 ^ u10) ^ (u22 ^ u23 ^ u20 ^ u21) ^ (u33
        ^ u30 ^ u31 ^ u32) == a0) by (bit_vector)
        requires
            u00 ^ u10 ^ u20 ^ u30 == a0,
            u01 ^ u11 ^ u21 ^ u31 == 0,
            u02 ^ u12 ^ u22 ^ u32 == 0,
            u03 ^ u13 ^ u23 ^ u33 == 0,
    ;
}

/// Xoring the same byte twice changes nothing.
pub proof fn lemma_xor_twice(a: u8, b: u8)
    by (bit_vector)
    ensures
        (a ^ b) ^ b == a,
{
}

/// Pairs of bytes whose product is one, for the bytes from 0x01 up to
/// 0x3f.
pub proof fn lemma_inverse_pairs_0()
    by (bit_vector)
    ensures
        gf_mul(0x01u8, 0x01u8) == 1u8,
        gf_mul(0x02u8, 0x8du8) == 1u8,
        gf_mul(0x03u8, 0xf6u8) == 1u8,
        gf_mul(0x04u8, 0xcbu8) == 1u8,
        gf_mul(0x05u8, 0x52u8) == 1u8,
        gf_mul(0x06u8, 0x7bu8) == 1u8,
        gf_mul(0x07u8, 0xd1u8) == 1u8,
        gf_mul(0x08u8, 0xe8u8) == 1u8,
        gf_mul(0x09u8, 0x4fu8) == 1u8,
        gf_mul(0x0au8, 0x29u8) == 1u8,
        gf_mul(0x0bu8, 0xc0u8) == 1u8,
        gf_mul(0x0cu8, 0xb0u8) == 1u8,
        gf_mul(0x0du8, 0xe1u8) == 1u8,
        gf_mul(0x0eu8, 0xe5u8) == 1u8,
        gf_mul(0x0fu8, 0xc7u8) == 1u8,
        gf_mul(0x10u8, 0x74u8) == 1u8,
        gf_mul(0x11u8, 0xb4u8) == 1u8,
        gf_mul(0x12u8, 0xaau8) == 1u8,
        gf_mul(0x13u8, 0x4bu8) == 1u8,
        gf_mul(0x14u8, 0x99u8) == 1u8,
        gf_mul(0x15u8, 0x2bu8) == 1u8,
        gf_mul(0x16u8, 0x60u8) == 1u8,
        gf_mul(0x17u8, 0x5fu8) == 1u8,
        gf_mul(0x18u8, 0x58u8) == 1u8,
        gf_mul(0x19u8, 0x3fu8) == 1u8,
        gf_mul(0x1au8, 0xfdu8) == 1u8,
        gf_mul(0x1bu8, 0xccu8) == 1u8,
        gf_mul(0x1cu8, 0xffu8) == 1u8,
        gf_mul(0x1du8, 0x40u8) == 1u8,
        gf_mul(0x1eu8, 0xeeu8) == 1u8,
        gf_mul(0x1fu8, 0xb2u8) == 1u8,
        gf_mul(0x20u8, 0x3au8) == 1u8,
        gf_mul(0x21u8, 0x6eu8) == 1u8,
        gf_mul(0x22u8, 0x5au8) == 1u8,
        gf_mul(0x23u8, 0xf1u8) == 1u8,
        gf_mul(0x24u8, 0x55u8) == 1u8,
        gf_mul(0x25u8, 0x4du8) == 1u8,
        gf_mul(0x26u8, 0xa8u8) == 1u8,
        gf_mul(0x27u8, 0xc9u8) == 1u8,
        gf_mul(0x28u8, 0xc1u8) == 1u8,
        gf_mul(0x29u8, 0x0au8) == 1u8,
        gf_mul(0x2au8, 0x98u8) == 1u8,
        gf_mul(0x2bu8, 0x15u8) == 1u8,
        gf_mul(0x2cu8, 0x30u8) == 1u8,
        gf_mul(0x2du8, 0x44u8) == 1u8,
        gf_mul(0x2eu8, 0xa2u8) == 1u8,
        gf_mul(0x2fu8, 0xc2u8) == 1u8,
        gf_mul(0x30u8, 0x2cu8) == 1u8,
        gf_mul(0x31u8, 0x45u8) == 1u8,
        gf_mul(0x32u8, 0x92u8) == 1u8,
        gf_mul(0x33u8, 0x6cu8) == 1u8,
        gf_mul(0x34u8, 0xf3u8) == 1u8,
        gf_mul(0x35u8, 0x39u8) == 1u8,
        gf_mul(0x36u8, 0x66u8) == 1u8,
        gf_mul(0x37u8, 0x42u8) == 1u8,
        gf_mul(0x38u8, 0xf2u8) == 1u8,
        gf_mul(0x39u8, 0x35u8) == 1u8,
        gf_mul(0x3au8, 0x20u8) == 1u8,
        gf_mul(0x3bu8, 0x6fu8) == 1u8,
        gf_mul(0x3cu8, 0x77u8) == 1u8,
        gf_mul(0x3du8, 0xbbu8) == 1u8,
        gf_mul(0x3eu8, 0x59u8) == 1u8,
        gf_mul(0x3fu8, 0x19u8) == 1u8,
{
}

/// Pairs of bytes whose product is one, for the bytes from 0x40 up to
/// 0x7f.
pub proof fn lemma_inverse_pairs_1()
    by (bit_vector)
    ensures
        gf_mul(0x40u8, 0x1du8) == 1u8,
        gf_mul(0x41u8, 0xfeu8) == 1u8,
        gf_mul(0x42u8, 0x37u8) == 1u8,
        gf_mul(0x43u8, 0x67u8) == 1u8,
        gf_mul(0x44u8, 0x2du8) == 1u8,
        gf_mul(0x45u8, 0x31u8) == 1u8,
        gf_mul(0x46u8, 0xf5u8) == 1u8,
        gf_mul(0x47u8, 0x69u8) == 1u8,
        gf_mul(0x48u8, 0xa7u8) == 1u8,
        gf_mul(0x49u8, 0x64u8) == 1u8,
        gf_mul(0x4au8, 0xabu8) == 1u8,
        gf_mul(0x4bu8, 0x13u8) == 1u8,
        gf_mul(0x4cu8, 0x54u8) == 1u8,
        gf_mul(0x4du8, 0x25u8) == 1u8,
        gf_mul(0x4eu8, 0xe9u8) == 1u8,
        gf_mul(0x4fu8, 0x09u8) == 1u8,
        gf_mul(0x50u8, 0xedu8) == 1u8,
        gf_mul(0x51u8, 0x5cu8) == 1u8,
        gf_mul(0x52u8, 0x05u8) == 1u8,
        gf_mul(0x53u8, 0xcau8) == 1u8,
        gf_mul(0x54u8, 0x4cu8) == 1u8,
        gf_mul(0x55u8, 0x24u8) == 1u8,
        gf_mul(0x56u8, 0x87u8) == 1u8,
        gf_mul(0x57u8, 0xbfu8) == 1u8,
        gf_mul(0x58u8, 0x18u8) == 1u8,
        gf_mul(0x59u8, 0x3eu8) == 1u8,
        gf_mul(0x5au8, 0x22u8) == 1u8,
        gf_mul(0x5bu8, 0xf0u8) == 1u8,
        gf_mul(0x5cu8, 0x51u8) == 1u8,
        gf_mul(0x5du8, 0xecu8) == 1u8,
        gf_mul(0x5eu8, 0x61u8) == 1u8,
        gf_mul(0x5fu8, 0x17u8) == 1u8,
        gf_mul(0x60u8, 0x16u8) == 1u8,
        gf_mul(0x61u8, 0x5eu8) == 1u8,
        gf_mul(0x62u8, 0xafu8) == 1u8,
        gf_mul(0x63u8, 0xd3u8) == 1u8,
        gf_mul(0x64u8, 0x49u8) == 1u8,
        gf_mul(0x65u8, 0xa6u8) == 1u8,
        gf_mul(0x66u8, 0x36u8) == 1u8,
        gf_mul(0x67u8, 0x43u8) == 1u8,
        gf_mul(0x68u8, 0xf4u8) == 1u8,
        gf_mul(0x69u8, 0x47u8) == 1u8,
        gf_mul(0x6au8, 0x91u8) == 1u8,
        gf_mul(0x6bu8, 0xdfu8) == 1u8,
        gf_mul(0x6cu8, 0x33u8) == 1u8,
        gf_mul(0x6du8, 0x93u8) == 1u8,
        gf_mul(0x6eu8, 0x21u8) == 1u8,
        gf_mul(0x6fu8, 0x3bu8) == 1u8,
        gf_mul(0x70u8, 0x79u8) == 1u8,
        gf_mul(0x71u8, 0xb7u8) == 1u8,
        gf_mul(0x72u8, 0x97u8) == 1u8,
        gf_mul(0x73u8, 0x85u8) == 1u8,
        gf_mul(0x74u8, 0x10u8) == 1u8,
        gf_mul(0x75u8, 0xb5u8) == 1u8,
        gf_mul(0x76u8, 0xbau8) == 1u8,
        gf_mul(0x77u8, 0x3cu8) == 1u8,
        gf_mul(0x78u8, 0xb6u8) == 1u8,
        gf_mul(0x79u8, 0x70u8) == 1u8,
        gf_mul(0x7au8, 0xd0u8) == 1u8,
        gf_mul(0x7bu8, 0x06u8) == 1u8,
        gf_mul(0x7cu8, 0xa1u8) == 1u8,
        gf_mul(0x7du8, 0xfau8) == 1u8,
        gf_mul(0x7eu8, 0x81u8) == 1u8,
        gf_mul(0x7fu8, 0x82u8) == 1u8,
{
}

/// Pairs of bytes whose product is one, for the bytes from 0x80 up to
/// 0xbf.
pub proof fn lemma_inverse_pairs_2()
    by (bit_vector)
    ensures
        gf_mul(0x80u8, 0x83u8) == 1u8,
        gf_mul(0x81u8, 0x7eu8) == 1u8,
        gf_mul(0x82u8, 0x7fu8) == 1u8,
        gf_mul(0x83u8, 0x80u8) == 1u8,
        gf_mul(0x84u8, 0x96u8) == 1u8,
        gf_mul(0x85u8, 0x73u8) == 1u8,
        gf_mul(0x86u8, 0xbeu8) == 1u8,
        gf_mul(0x87u8, 0x56u8) == 1u8,
        gf_mul(0x88u8, 0x9bu8) == 1u8,
        gf_mul(0x89u8, 0x9eu8) == 1u8,
        gf_mul(0x8au8, 0x95u8) == 1u8,
        gf_mul(0x8bu8, 0xd9u8) == 1u8,
        gf_mul(0x8cu8, 0xf7u8) == 1u8,
        gf_mul(0x8du8, 0x02u8) == 1u8,
        gf_mul(0x8eu8, 0xb9u8) == 1u8,
        gf_mul(0x8fu8, 0xa4u8) == 1u8,
        gf_mul(0x90u8, 0xdeu8) == 1u8,
        gf_mul(0x91u8, 0x6au8) == 1u8,
        gf_mul(0x92u8, 0x32u8) == 1u8,
        gf_mul(0x93u8, 0x6du8) == 1u8,
        gf_mul(0x94u8, 0xd8u8) == 1u8,
        gf_mul(0x95u8, 0x8au8) == 1u8,
        gf_mul(0x96u8, 0x84u8) == 1u8,
        gf_mul(0x97u8, 0x72u8) == 1u8,
        gf_mul(0x98u8, 0x2au8) == 1u8,
        gf_mul(0x99u8, 0x14u8) == 1u8,
        gf_mul(0x9au8, 0x9fu8) == 1u8,
        gf_mul(0x9bu8, 0x88u8) == 1u8,
        gf_mul(0x9cu8, 0xf9u8) == 1u8,
        gf_mul(0x9du8, 0xdcu8) == 1u8,
        gf_mul(0x9eu8, 0x89u8) == 1u8,
        gf_mul(0x9fu8, 0x9au8) == 1u8,
        gf_mul(0xa0u8, 0xfbu8) == 1u8,
        gf_mul(0xa1u8, 0x7cu8) == 1u8,
        gf_mul(0xa2u8, 0x2eu8) == 1u8,
        gf_mul(0xa3u8, 0xc3u8) == 1u8,
        gf_mul(0xa4u8, 0x8fu8) == 1u8,
        gf_mul(0xa5u8, 0xb8u8) == 1u8,
        gf_mul(0xa6u8, 0x65u8) == 1u8,
        gf_mul(0xa7u8, 0x48u8) == 1u8,
        gf_mul(0xa8u8, 0x26u8) == 1u8,
        gf_mul(0xa9u8, 0xc8u8) == 1u8,
        gf_mul(0xaau8, 0x12u8) == 1u8,
        gf_mul(0xabu8, 0x4au8) == 1u8,
        gf_mul(0xacu8, 0xceu8) == 1u8,
        gf_mul(0xadu8, 0xe7u8) == 1u8,
        gf_mul(0xaeu8, 0xd2u8) == 1u8,
        gf_mul(0xafu8, 0x62u8) == 1u8,
        gf_mul(0xb0u8, 0x0cu8) == 1u8,
        gf_mul(0xb1u8, 0xe0u8) == 1u8,
        gf_mul(0xb2u8, 0x1fu8) == 1u8,
        gf_mul(0xb3u8, 0xefu8) == 1u8,
        gf_mul(0xb4u8, 0x11u8) == 1u8,
        gf_mul(0xb5u8, 0x75u8) == 1u8,
        gf_mul(0xb6u8, 0x78u8) == 1u8,
        gf_mul(0xb7u8, 0x71u8) == 1u8,
        gf_mul(0xb8u8, 0xa5u8) == 1u8,
        gf_mul(0xb9u8, 0x8eu8) == 1u8,
        gf_mul(0xbau8, 0x76u8) == 1u8,
        gf_mul(0xbbu8, 0x3du8) == 1u8,
        gf_mul(0xbcu8, 0xbdu8) == 1u8,
        gf_mul(0xbdu8, 0xbcu8) == 1u8,
        gf_mul(0xbeu8, 0x86u8) == 1u8,
        gf_mul(0xbfu8, 0x57u8) == 1u8,
{
}

/// Pairs of bytes whose product is one, for the bytes from 0xc0 up to
/// 0xff.
pub proof fn lemma_inverse_pairs_3()
    by (bit_vector)
    ensures
        gf_mul(0xc0u8, 0x0bu8) == 1u8,
        gf_mul(0xc1u8, 0x28u8) == 1u8,
        gf_mul(0xc2u8, 0x2fu8) == 1u8,
        gf_mul(0xc3u8, 0xa3u8) == 1u8,
        gf_mul(0xc4u8, 0xdau8) == 1u8,
        gf_mul(0xc5u8, 0xd4u8) == 1u8,
        gf_mul(0xc6u8, 0xe4u8) == 1u8,
        gf_mul(0xc7u8, 0x0fu8) == 1u8,
        gf_mul(0xc8u8, 0xa9u8) == 1u8,
        gf_mul(0xc9u8, 0x27u8) == 1u8,
        gf_mul(0xcau8, 0x53u8) == 1u8,
        gf_mul(0xcbu8, 0x04u8) == 1u8,
        gf_mul(0xccu8, 0x1bu8) == 1u8,
        gf_mul(0xcdu8, 0xfcu8) == 1u8,
        gf_mul(0xceu8, 0xacu8) == 1u8,
        gf_mul(0xcfu8, 0xe6u8) == 1u8,
        gf_mul(0xd0u8, 0x7au8) == 1u8,
        gf_mul(0xd1u8, 0x07u8) == 1u8,
        gf_mul(0xd2u8, 0xaeu8) == 1u8,
        gf_mul(0xd3u8, 0x63u8) == 1u8,
        gf_mul(0xd4u8, 0xc5u8) == 1u8,
        gf_mul(0xd5u8, 0xdbu8) == 1u8,
        gf_mul(0xd6u8, 0xe2u8) == 1u8,
        gf_mul(0xd7u8, 0xeau8) == 1u8,
        gf_mul(0xd8u8, 0x94u8) == 1u8,
        gf_mul(0xd9u8, 0x8bu8) == 1u8,
        gf_mul(0xdau8, 0xc4u8) == 1u8,
        gf_mul(0xdbu8, 0xd5u8) == 1u8,
        gf_mul(0xdcu8, 0x9du8) == 1u8,
        gf_mul(0xddu8, 0xf8u8) == 1u8,
        gf_mul(0xdeu8, 0x90u8) == 1u8,
        gf_mul(0xdfu8, 0x6bu8) == 1u8,
        gf_mul(0xe0u8, 0xb1u8) == 1u8,
        gf_mul(0xe1u8, 0x0du8) == 1u8,
        gf_mul(0xe2u8, 0xd6u8) == 1u8,
        gf_mul(0xe3u8, 0xebu8) == 1u8,
        gf_mul(0xe4u8, 0xc6u8) == 1u8,
        gf_mul(0xe5u8, 0x0eu8) == 1u8,
        gf_mul(0xe6u8, 0xcfu8) == 1u8,
        gf_mul(0xe7u8, 0xadu8) == 1u8,
        gf_mul(0xe8u8, 0x08u8) == 1u8,
        gf_mul(0xe9u8, 0x4eu8) == 1u8,
        gf_mul(0xeau8, 0xd7u8) == 1u8,
        gf_mul(0xebu8, 0xe3u8) == 1u8,
        gf_mul(0xecu8, 0x5du8) == 1u8,
        gf_mul(0xedu8, 0x50u8) == 1u8,
        gf_mul(0xeeu8, 0x1eu8) == 1u8,
        gf_mul(0xefu8, 0xb3u8) == 1u8,
        gf_mul(0xf0u8, 0x5bu8) == 1u8,
        gf_mul(0xf1u8, 0x23u8) == 1u8,
        gf_mul(0xf2u8, 0x38u8) == 1u8,
        gf_mul(0xf3u8, 0x34u8) == 1u8,
        gf_mul(0xf4u8, 0x68u8) == 1u8,
        gf_mul(0xf5u8, 0x46u8) == 1u8,
        gf_mul(0xf6u8, 0x03u8) == 1u8,
        gf_mul(0xf7u8, 0x8cu8) == 1u8,
        gf_mul(0xf8u8, 0xddu8) == 1u8,
        gf_mul(0xf9u8, 0x9cu8) == 1u8,
        gf_mul(0xfau8, 0x7du8) == 1u8,
        gf_mul(0xfbu8, 0xa0u8) == 1u8,
        gf_mul(0xfcu8, 0xcdu8) == 1u8,
        gf_mul(0xfdu8, 0x1au8) == 1u8,
        gf_mul(0xfeu8, 0x41u8) == 1u8,
        gf_mul(0xffu8, 0x1cu8) == 1u8,
{
}

} // verus!
