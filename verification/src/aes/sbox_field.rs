//! The substitution table as the field defines it: the substitute of a byte
//! is the affine image of its multiplicative inverse.

use vstd::prelude::*;
use crate::aes::gf256::{
    gf_mul, lemma_inverse_pairs_0, lemma_inverse_pairs_1, lemma_inverse_pairs_2,
    lemma_inverse_pairs_3,
};
use crate::aes::sbox::sbox_spec;

verus! {

/// A byte rotated left by `n` bits, for `n` from 1 to 7.
pub open spec fn rotl8(x: u8, n: u8) -> u8 {
    (x << n) | (x >> ((8 - n) as u8))
}

/// The affine map that ends the substitution: the byte xored with its four
/// rotations and with 0x63.
pub open spec fn affine_spec(x: u8) -> u8 {
    x ^ rotl8(x, 1) ^ rotl8(x, 2) ^ rotl8(x, 3) ^ rotl8(x, 4) ^ 0x63
}

/// The map that undoes the affine map.
pub open spec fn inv_affine_spec(y: u8) -> u8 {
    rotl8(y, 1) ^ rotl8(y, 3) ^ rotl8(y, 6) ^ 0x05
}

/// The two affine maps undo each other.
pub proof fn lemma_affine_inverse(x: u8)
    by (bit_vector)
    ensures
        affine_spec(inv_affine_spec(x)) == x,
        inv_affine_spec(affine_spec(x)) == x,
{
}

proof fn lemma_table_part_0()
    by (bit_vector)
    ensures
        inv_affine_spec(0x63u8) == 0x00u8,
        inv_affine_spec(0x7cu8) == 0x01u8,
        inv_affine_spec(0x77u8) == 0x8du8,
        inv_affine_spec(0x7bu8) == 0xf6u8,
        inv_affine_spec(0xf2u8) == 0xcbu8,
        inv_affine_spec(0x6bu8) == 0x52u8,
        inv_affine_spec(0x6fu8) == 0x7bu8,
        inv_affine_spec(0xc5u8) == 0xd1u8,
        inv_affine_spec(0x30u8) == 0xe8u8,
        inv_affine_spec(0x01u8) == 0x4fu8,
        inv_affine_spec(0x67u8) == 0x29u8,
        inv_affine_spec(0x2bu8) == 0xc0u8,
        inv_affine_spec(0xfeu8) == 0xb0u8,
        inv_affine_spec(0xd7u8) == 0xe1u8,
        inv_affine_spec(0xabu8) == 0xe5u8,
        inv_affine_spec(0x76u8) == 0xc7u8,
        inv_affine_spec(0xcau8) == 0x74u8,
        inv_affine_spec(0x82u8) == 0xb4u8,
        inv_affine_spec(0xc9u8) == 0xaau8,
        inv_affine_spec(0x7du8) == 0x4bu8,
        inv_affine_spec(0xfau8) == 0x99u8,
        inv_affine_spec(0x59u8) == 0x2bu8,
        inv_affine_spec(0x47u8) == 0x60u8,
        inv_affine_spec(0xf0u8) == 0x5fu8,
        inv_affine_spec(0xadu8) == 0x58u8,
        inv_affine_spec(0xd4u8) == 0x3fu8,
        inv_affine_spec(0xa2u8) == 0xfdu8,
        inv_affine_spec(0xafu8) == 0xccu8,
        inv_affine_spec(0x9cu8) == 0xffu8,
        inv_affine_spec(0xa4u8) == 0x40u8,
        inv_affine_spec(0x72u8) == 0xeeu8,
        inv_affine_spec(0xc0u8) == 0xb2u8,
        inv_affine_spec(0xb7u8) == 0x3au8,
        inv_affine_spec(0xfdu8) == 0x6eu8,
        inv_affine_spec(0x93u8) == 0x5au8,
        inv_affine_spec(0x26u8) == 0xf1u8,
        inv_affine_spec(0x36u8) == 0x55u8,
        inv_affine_spec(0x3fu8) == 0x4du8,
        inv_affine_spec(0xf7u8) == 0xa8u8,
        inv_affine_spec(0xccu8) == 0xc9u8,
        inv_affine_spec(0x34u8) == 0xc1u8,
        inv_affine_spec(0xa5u8) == 0x0au8,
        inv_affine_spec(0xe5u8) == 0x98u8,
        inv_affine_spec(0xf1u8) == 0x15u8,
        inv_affine_spec(0x71u8) == 0x30u8,
        inv_affine_spec(0xd8u8) == 0x44u8,
        inv_affine_spec(0x31u8) == 0xa2u8,
        inv_affine_spec(0x15u8) == 0xc2u8,
        inv_affine_spec(0x04u8) == 0x2cu8,
        inv_affine_spec(0xc7u8) == 0x45u8,
        inv_affine_spec(0x23u8) == 0x92u8,
        inv_affine_spec(0xc3u8) == 0x6cu8,
        inv_affine_spec(0x18u8) == 0xf3u8,
        inv_affine_spec(0x96u8) == 0x39u8,
        inv_affine_spec(0x05u8) == 0x66u8,
        inv_affine_spec(0x9au8) == 0x42u8,
        inv_affine_spec(0x07u8) == 0xf2u8,
        inv_affine_spec(0x12u8) == 0x35u8,
        inv_affine_spec(0x80u8) == 0x20u8,
        inv_affine_spec(0xe2u8) == 0x6fu8,
        inv_affine_spec(0xebu8) == 0x77u8,
        inv_affine_spec(0x27u8) == 0xbbu8,
        inv_affine_spec(0xb2u8) == 0x59u8,
        inv_affine_spec(0x75u8) == 0x19u8,
{
}

proof fn lemma_table_part_1()
    by (bit_vector)
    ensures
        inv_affine_spec(0x09u8) == 0x1du8,
        inv_affine_spec(0x83u8) == 0xfeu8,
        inv_affine_spec(0x2cu8) == 0x37u8,
        inv_affine_spec(0x1au8) == 0x67u8,
        inv_affine_spec(0x1bu8) == 0x2du8,
        inv_affine_spec(0x6eu8) == 0x31u8,
        inv_affine_spec(0x5au8) == 0xf5u8,
        inv_affine_spec(0xa0u8) == 0x69u8,
        inv_affine_spec(0x52u8) == 0xa7u8,
        inv_affine_spec(0x3bu8) == 0x64u8,
        inv_affine_spec(0xd6u8) == 0xabu8,
        inv_affine_spec(0xb3u8) == 0x13u8,
        inv_affine_spec(0x29u8) == 0x54u8,
        inv_affine_spec(0xe3u8) == 0x25u8,
        inv_affine_spec(0x2fu8) == 0xe9u8,
        inv_affine_spec(0x84u8) == 0x09u8,
        inv_affine_spec(0x53u8) == 0xedu8,
        inv_affine_spec(0xd1u8) == 0x5cu8,
        inv_affine_spec(0x00u8) == 0x05u8,
        inv_affine_spec(0xedu8) == 0xcau8,
        inv_affine_spec(0x20u8) == 0x4cu8,
        inv_affine_spec(0xfcu8) == 0x24u8,
        inv_affine_spec(0xb1u8) == 0x87u8,
        inv_affine_spec(0x5bu8) == 0xbfu8,
        inv_affine_spec(0x6au8) == 0x18u8,
        inv_affine_spec(0xcbu8) == 0x3eu8,
        inv_affine_spec(0xbeu8) == 0x22u8,
        inv_affine_spec(0x39u8) == 0xf0u8,
        inv_affine_spec(0x4au8) == 0x51u8,
        inv_affine_spec(0x4cu8) == 0xecu8,
        inv_affine_spec(0x58u8) == 0x61u8,
        inv_affine_spec(0xcfu8) == 0x17u8,
        inv_affine_spec(0xd0u8) == 0x16u8,
        inv_affine_spec(0xefu8) == 0x5eu8,
        inv_affine_spec(0xaau8) == 0xafu8,
        inv_affine_spec(0xfbu8) == 0xd3u8,
        inv_affine_spec(0x43u8) == 0x49u8,
        inv_affine_spec(0x4du8) == 0xa6u8,
        inv_affine_spec(0x33u8) == 0x36u8,
        inv_affine_spec(0x85u8) == 0x43u8,
        inv_affine_spec(0x45u8) == 0xf4u8,
        inv_affine_spec(0xf9u8) == 0x47u8,
        inv_affine_spec(0x02u8) == 0x91u8,
        inv_affine_spec(0x7fu8) == 0xdfu8,
        inv_affine_spec(0x50u8) == 0x33u8,
        inv_affine_spec(0x3cu8) == 0x93u8,
        inv_affine_spec(0x9fu8) == 0x21u8,
        inv_affine_spec(0xa8u8) == 0x3bu8,
        inv_affine_spec(0x51u8) == 0x79u8,
        inv_affine_spec(0xa3u8) == 0xb7u8,
        inv_affine_spec(0x40u8) == 0x97u8,
        inv_affine_spec(0x8fu8) == 0x85u8,
        inv_affine_spec(0x92u8) == 0x10u8,
        inv_affine_spec(0x9du8) == 0xb5u8,
        inv_affine_spec(0x38u8) == 0xbau8,
        inv_affine_spec(0xf5u8) == 0x3cu8,
        inv_affine_spec(0xbcu8) == 0xb6u8,
        inv_affine_spec(0xb6u8) == 0x70u8,
        inv_affine_spec(0xdau8) == 0xd0u8,
        inv_affine_spec(0x21u8) == 0x06u8,
        inv_affine_spec(0x10u8) == 0xa1u8,
        inv_affine_spec(0xffu8) == 0xfau8,
        inv_affine_spec(0xf3u8) == 0x81u8,
        inv_affine_spec(0xd2u8) == 0x82u8,
{
}

proof fn lemma_table_part_2()
    by (bit_vector)
    ensures
        inv_affine_spec(0xcdu8) == 0x83u8,
        inv_affine_spec(0x0cu8) == 0x7eu8,
        inv_affine_spec(0x13u8) == 0x7fu8,
        inv_affine_spec(0xecu8) == 0x80u8,
        inv_affine_spec(0x5fu8) == 0x96u8,
        inv_affine_spec(0x97u8) == 0x73u8,
        inv_affine_spec(0x44u8) == 0xbeu8,
        inv_affine_spec(0x17u8) == 0x56u8,
        inv_affine_spec(0xc4u8) == 0x9bu8,
        inv_affine_spec(0xa7u8) == 0x9eu8,
        inv_affine_spec(0x7eu8) == 0x95u8,
        inv_affine_spec(0x3du8) == 0xd9u8,
        inv_affine_spec(0x64u8) == 0xf7u8,
        inv_affine_spec(0x5du8) == 0x02u8,
        inv_affine_spec(0x19u8) == 0xb9u8,
        inv_affine_spec(0x73u8) == 0xa4u8,
        inv_affine_spec(0x60u8) == 0xdeu8,
        inv_affine_spec(0x81u8) == 0x6au8,
        inv_affine_spec(0x4fu8) == 0x32u8,
        inv_affine_spec(0xdcu8) == 0x6du8,
        inv_affine_spec(0x22u8) == 0xd8u8,
        inv_affine_spec(0x2au8) == 0x8au8,
        inv_affine_spec(0x90u8) == 0x84u8,
        inv_affine_spec(0x88u8) == 0x72u8,
        inv_affine_spec(0x46u8) == 0x2au8,
        inv_affine_spec(0xeeu8) == 0x14u8,
        inv_affine_spec(0xb8u8) == 0x9fu8,
        inv_affine_spec(0x14u8) == 0x88u8,
        inv_affine_spec(0xdeu8) == 0xf9u8,
        inv_affine_spec(0x5eu8) == 0xdcu8,
        inv_affine_spec(0x0bu8) == 0x89u8,
        inv_affine_spec(0xdbu8) == 0x9au8,
        inv_affine_spec(0xe0u8) == 0xfbu8,
        inv_affine_spec(0x32u8) == 0x7cu8,
        inv_affine_spec(0x3au8) == 0x2eu8,
        inv_affine_spec(0x0au8) == 0xc3u8,
        inv_affine_spec(0x49u8) == 0x8fu8,
        inv_affine_spec(0x06u8) == 0xb8u8,
        inv_affine_spec(0x24u8) == 0x65u8,
        inv_affine_spec(0x5cu8) == 0x48u8,
        inv_affine_spec(0xc2u8) == 0x26u8,
        inv_affine_spec(0xd3u8) == 0xc8u8,
        inv_affine_spec(0xacu8) == 0x12u8,
        inv_affine_spec(0x62u8) == 0x4au8,
        inv_affine_spec(0x91u8) == 0xceu8,
        inv_affine_spec(0x95u8) == 0xe7u8,
        inv_affine_spec(0xe4u8) == 0xd2u8,
        inv_affine_spec(0x79u8) == 0x62u8,
        inv_affine_spec(0xe7u8) == 0x0cu8,
        inv_affine_spec(0xc8u8) == 0xe0u8,
        inv_affine_spec(0x37u8) == 0x1fu8,
        inv_affine_spec(0x6du8) == 0xefu8,
        inv_affine_spec(0x8du8) == 0x11u8,
        inv_affine_spec(0xd5u8) == 0x75u8,
        inv_affine_spec(0x4eu8) == 0x78u8,
        inv_affine_spec(0xa9u8) == 0x71u8,
        inv_affine_spec(0x6cu8) == 0xa5u8,
        inv_affine_spec(0x56u8) == 0x8eu8,
        inv_affine_spec(0xf4u8) == 0x76u8,
        inv_affine_spec(0xeau8) == 0x3du8,
        inv_affine_spec(0x65u8) == 0xbdu8,
        inv_affine_spec(0x7au8) == 0xbcu8,
        inv_affine_spec(0xaeu8) == 0x86u8,
        inv_affine_spec(0x08u8) == 0x57u8,
{
}

proof fn lemma_table_part_3()
    by (bit_vector)
    ensures
        inv_affine_spec(0xbau8) == 0x0bu8,
        inv_affine_spec(0x78u8) == 0x28u8,
        inv_affine_spec(0x25u8) == 0x2fu8,
        inv_affine_spec(0x2eu8) == 0xa3u8,
        inv_affine_spec(0x1cu8) == 0xdau8,
        inv_affine_spec(0xa6u8) == 0xd4u8,
        inv_affine_spec(0xb4u8) == 0xe4u8,
        inv_affine_spec(0xc6u8) == 0x0fu8,
        inv_affine_spec(0xe8u8) == 0xa9u8,
        inv_affine_spec(0xddu8) == 0x27u8,
        inv_affine_spec(0x74u8) == 0x53u8,
        inv_affine_spec(0x1fu8) == 0x04u8,
        inv_affine_spec(0x4bu8) == 0x1bu8,
        inv_affine_spec(0xbdu8) == 0xfcu8,
        inv_affine_spec(0x8bu8) == 0xacu8,
        inv_affine_spec(0x8au8) == 0xe6u8,
        inv_affine_spec(0x70u8) == 0x7au8,
        inv_affine_spec(0x3eu8) == 0x07u8,
        inv_affine_spec(0xb5u8) == 0xaeu8,
        inv_affine_spec(0x66u8) == 0x63u8,
        inv_affine_spec(0x48u8) == 0xc5u8,
        inv_affine_spec(0x03u8) == 0xdbu8,
        inv_affine_spec(0xf6u8) == 0xe2u8,
        inv_affine_spec(0x0eu8) == 0xeau8,
        inv_affine_spec(0x61u8) == 0x94u8,
        inv_affine_spec(0x35u8) == 0x8bu8,
        inv_affine_spec(0x57u8) == 0xc4u8,
        inv_affine_spec(0xb9u8) == 0xd5u8,
        inv_affine_spec(0x86u8) == 0x9du8,
        inv_affine_spec(0xc1u8) == 0xf8u8,
        inv_affine_spec(0x1du8) == 0x90u8,
        inv_affine_spec(0x9eu8) == 0x6bu8,
        inv_affine_spec(0xe1u8) == 0xb1u8,
        inv_affine_spec(0xf8u8) == 0x0du8,
        inv_affine_spec(0x98u8) == 0xd6u8,
        inv_affine_spec(0x11u8) == 0xebu8,
        inv_affine_spec(0x69u8) == 0xc6u8,
        inv_affine_spec(0xd9u8) == 0x0eu8,
        inv_affine_spec(0x8eu8) == 0xcfu8,
        inv_affine_spec(0x94u8) == 0xadu8,
        inv_affine_spec(0x9bu8) == 0x08u8,
        inv_affine_spec(0x1eu8) == 0x4eu8,
        inv_affine_spec(0x87u8) == 0xd7u8,
        inv_affine_spec(0xe9u8) == 0xe3u8,
        inv_affine_spec(0xceu8) == 0x5du8,
        inv_affine_spec(0x55u8) == 0x50u8,
        inv_affine_spec(0x28u8) == 0x1eu8,
        inv_affine_spec(0xdfu8) == 0xb3u8,
        inv_affine_spec(0x8cu8) == 0x5bu8,
        inv_affine_spec(0xa1u8) == 0x23u8,
        inv_affine_spec(0x89u8) == 0x38u8,
        inv_affine_spec(0x0du8) == 0x34u8,
        inv_affine_spec(0xbfu8) == 0x68u8,
        inv_affine_spec(0xe6u8) == 0x46u8,
        inv_affine_spec(0x42u8) == 0x03u8,
        inv_affine_spec(0x68u8) == 0x8cu8,
        inv_affine_spec(0x41u8) == 0xddu8,
        inv_affine_spec(0x99u8) == 0x9cu8,
        inv_affine_spec(0x2du8) == 0x7du8,
        inv_affine_spec(0x0fu8) == 0xa0u8,
        inv_affine_spec(0xb0u8) == 0xcdu8,
        inv_affine_spec(0x54u8) == 0x1au8,
        inv_affine_spec(0xbbu8) == 0x41u8,
        inv_affine_spec(0x16u8) == 0x1cu8,
{
}

/// The table holds the substitution of the field: what the affine map is
/// undone on is zero for the byte zero, and the multiplicative inverse of
/// every other byte.
pub proof fn lemma_sbox_is_affine_of_inverse(byte: u8)
    ensures
        sbox_spec(byte) == affine_spec(inv_affine_spec(sbox_spec(byte))),
        byte == 0 ==> inv_affine_spec(sbox_spec(byte)) == 0,
        byte != 0 ==> gf_mul(byte, inv_affine_spec(sbox_spec(byte))) == 1,
{
    lemma_affine_inverse(sbox_spec(byte));
    if byte < 64 {
        lemma_table_part_0();
        lemma_inverse_pairs_0();
    } else if byte < 128 {
        lemma_table_part_1();
        lemma_inverse_pairs_1();
    } else if byte < 192 {
        lemma_table_part_2();
        lemma_inverse_pairs_2();
    } else {
        lemma_table_part_3();
        lemma_inverse_pairs_3();
    }
}

} // verus!
