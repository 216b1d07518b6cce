//! Key material and the expansion of a key into its schedule of round-key
//! words.

use vstd::prelude::*;
use crate::bits::{be_byte, be_word, word_byte, word_from_be};
use crate::aes::gf256::xtimes_spec;
use crate::aes::sbox::{sbox, sbox_spec};

verus! {

/// What the cipher and its modes reject.
#[derive(Debug, Clone, Copy, PartialEq, Eq, Structural)]
pub enum AesError {
    /// The key material is neither 16, 24 nor 32 bytes long.
    NonstandardKeyLength,
    /// The input of a block-mode decryption is not a whole number of blocks.
    IrregularDecryptLength,
    /// The initialization vector is not exactly one block long.
    WrongSizeIv,
    /// The decrypted data does not end in valid padding.
    PaddingError,
}

/// Key material of one of the three standard lengths.
pub enum AesKey {
    Aes128([u8; 16]),
    Aes192([u8; 24]),
    Aes256([u8; 32]),
}

impl View for AesKey {
    type V = Seq<u8>;

    /// The key bytes.
    open spec fn view(&self) -> Seq<u8> {
        match self {
            AesKey::Aes128(bytes) => bytes@,
            AesKey::Aes192(bytes) => bytes@,
            AesKey::Aes256(bytes) => bytes@,
        }
    }
}

/// The lengths of key material that the cipher accepts.
pub open spec fn valid_key_len(len: nat) -> bool {
    len == 16 || len == 24 || len == 32
}

/// The number of rounds for a key of `len` bytes: 10, 12 or 14.
pub open spec fn rounds_spec(len: nat) -> nat {
    len / 4 + 6
}

/// Every byte of the word replaced by its substitute.
pub open spec fn sub_word_spec(w: u32) -> u32 {
    be_word(
        sbox_spec(be_byte(w, 0)),
        sbox_spec(be_byte(w, 1)),
        sbox_spec(be_byte(w, 2)),
        sbox_spec(be_byte(w, 3)),
    )
}

/// The word rotated left by one byte.
pub open spec fn rot_word_spec(w: u32) -> u32 {
    (w << 8) | (w >> 24)
}

/// The field element `x^(j-1)`: one, doubled `j - 1` times.
pub open spec fn rcon_byte(j: int) -> u8
    decreases j,
{
    if j <= 1 {
        0x01
    } else {
        xtimes_spec(rcon_byte(j - 1))
    }
}

/// Round constant `j`: `x^(j-1)` in the most significant byte of a word.
pub open spec fn rcon_spec(j: int) -> u32 {
    (rcon_byte(j) as u32) << 24
}

/// The round constants as a table; entry 0 is never used.
pub const RCON: [u32; 11] = [
    0x0000_0000,
    0x0100_0000,
    0x0200_0000,
    0x0400_0000,
    0x0800_0000,
    0x1000_0000,
    0x2000_0000,
    0x4000_0000,
    0x8000_0000,
    0x1b00_0000,
    0x3600_0000,
];

/// Word `i` of the schedule of `key`. The first words are the key itself;
/// each later word is the word one key length back, xored with the previous
/// word, which is first rotated, substituted and marked with a round constant
/// at every multiple of the key length, and substituted halfway between two
/// multiples for the longest key.
pub open spec fn schedule_word(key: Seq<u8>, i: int) -> u32
    decreases i,
{
    let nk = (key.len() / 4) as int;
    if nk < 1 || i < nk {
        be_word(key[4 * i], key[4 * i + 1], key[4 * i + 2], key[4 * i + 3])
    } else {
        let prev = schedule_word(key, i - 1);
        let t = if i % nk == 0 {
            sub_word_spec(rot_word_spec(prev)) ^ rcon_spec(i / nk)
        } else if nk > 6 && i % nk == 4 {
            sub_word_spec(prev)
        } else {
            prev
        };
        schedule_word(key, i - nk) ^ t
    }
}

/// The whole schedule: four words for each round and four more.
#[verifier::opaque]
pub open spec fn key_schedule_spec(key: Seq<u8>) -> Seq<u32> {
    Seq::new(4 * (rounds_spec(key.len()) + 1), |i: int| schedule_word(key, i))
}

proof fn lemma_rcon_steps()
    by (bit_vector)
    ensures
        xtimes_spec(0x01) == 0x02,
        xtimes_spec(0x02) == 0x04,
        xtimes_spec(0x04) == 0x08,
        xtimes_spec(0x08) == 0x10,
        xtimes_spec(0x10) == 0x20,
        xtimes_spec(0x20) == 0x40,
        xtimes_spec(0x40) == 0x80,
        xtimes_spec(0x80) == 0x1b,
        xtimes_spec(0x1b) == 0x36,
        (0x01u8 as u32) << 24 == 0x0100_0000u32,
        (0x02u8 as u32) << 24 == 0x0200_0000u32,
        (0x04u8 as u32) << 24 == 0x0400_0000u32,
        (0x08u8 as u32) << 24 == 0x0800_0000u32,
        (0x10u8 as u32) << 24 == 0x1000_0000u32,
        (0x20u8 as u32) << 24 == 0x2000_0000u32,
        (0x40u8 as u32) << 24 == 0x4000_0000u32,
        (0x80u8 as u32) << 24 == 0x8000_0000u32,
        (0x1bu8 as u32) << 24 == 0x1b00_0000u32,
        (0x36u8 as u32) << 24 == 0x3600_0000u32,
{
}

/// The table holds the round constants.
pub proof fn lemma_rcon_table(j: int)
    requires
        1 <= j <= 10,
    ensures
        RCON@[j] == rcon_spec(j),
{
    lemma_rcon_steps();
    reveal_with_fuel(rcon_byte, 11);
}

/// Substitutes every byte of a word.
pub fn subword(word: u32) -> (w: u32)
    ensures
        w == sub_word_spec(word),
{
    word_from_be(
        sbox(word_byte(word, 0)),
        sbox(word_byte(word, 1)),
        sbox(word_byte(word, 2)),
        sbox(word_byte(word, 3)),
    )
}

/// Expands key material into its schedule.
pub fn key_expansion(key: &[u8]) -> (words: Vec<u32>)
    requires
        valid_key_len(key@.len()),
    ensures
        words@ == key_schedule_spec(key@),
{
    let nk: usize = key.len() / 4;
    let rounds: usize = if nk == 4 {
        10
    } else if nk == 6 {
        12
    } else {
        14
    };
    let total: usize = 4 * rounds + 4;
    let mut words: Vec<u32> = Vec::new();
    let mut i: usize = 0;
    while i < nk
        invariant
            valid_key_len(key@.len()),
            nk == key@.len() / 4,
            i <= nk,
            words@.len() == i,
            forall|j: int| 0 <= j < i ==> words@[j] == schedule_word(key@, j),
        decreases nk - i,
    {
        words.push(word_from_be(key[4 * i], key[4 * i + 1], key[4 * i + 2], key[4 * i + 3]));
        i += 1;
    }
    while i < total
        invariant
            valid_key_len(key@.len()),
            nk == key@.len() / 4,
            total == 4 * (rounds_spec(key@.len()) + 1),
            nk <= i <= total,
            words@.len() == i,
            forall|j: int| 0 <= j < i ==> words@[j] == schedule_word(key@, j),
        decreases total - i,
    {
        let mut word = words[i - 1];
        if i % nk == 0 {
            proof {
                lemma_rcon_table((i / nk) as int);
            }
            word = subword((word << 8) | (word >> 24)) ^ RCON[i / nk];
        } else if nk > 6 && i % nk == 4 {
            word = subword(word);
        }
        words.push(words[i - nk] ^ word);
        i += 1;
    }
    proof {
        reveal(key_schedule_spec);
    }
    assert(words@ =~= key_schedule_spec(key@));
    words
}

/// Copies a slice of exactly `N` bytes into an array.
pub fn to_array<const N: usize>(bytes: &[u8]) -> (a: [u8; N])
    requires
        bytes@.len() == N,
    ensures
        a@ == bytes@,
{
    let mut a: [u8; N] = [0u8; N];
    let mut i: usize = 0;
    while i < N
        invariant
            bytes@.len() == N,
            i <= N,
            forall|j: int| 0 <= j < i ==> a@[j] == bytes@[j],
        decreases N - i,
    {
        a[i] = bytes[i];
        i += 1;
    }
    assert(a@ =~= bytes@);
    a
}

impl AesKey {
    /// Takes key material of 16, 24 or 32 bytes; any other length is refused.
    pub fn from(bytes: &[u8]) -> (r: Result<Self, AesError>)
        ensures
            valid_key_len(bytes@.len()) ==> r is Ok && r->Ok_0@ == bytes@,
            !valid_key_len(bytes@.len()) ==> r == Err::<Self, AesError>(
                AesError::NonstandardKeyLength,
            ),
            bytes@.len() == 16 ==> r->Ok_0 is Aes128,
            bytes@.len() == 24 ==> r->Ok_0 is Aes192,
            bytes@.len() == 32 ==> r->Ok_0 is Aes256,
    {
        let n = bytes.len();
        if n == 16 {
            Ok(AesKey::Aes128(to_array::<16>(bytes)))
        } else if n == 24 {
            Ok(AesKey::Aes192(to_array::<24>(bytes)))
        } else if n == 32 {
            Ok(AesKey::Aes256(to_array::<32>(bytes)))
        } else {
            Err(AesError::NonstandardKeyLength)
        }
    }

    /// The schedule of this key.
    pub fn schedule(&self) -> (words: Vec<u32>)
        ensures
            words@ == key_schedule_spec(self@),
            words@.len() == 4 * (rounds_spec(self@.len()) + 1),
    {
        proof {
            reveal(key_schedule_spec);
        }
        match self {
            AesKey::Aes128(bytes) => key_expansion(bytes.as_slice()),
            AesKey::Aes192(bytes) => key_expansion(bytes.as_slice()),
            AesKey::Aes256(bytes) => key_expansion(bytes.as_slice()),
        }
    }

    /// The key bytes.
    pub fn as_ref(&self) -> (bytes: &[u8])
        ensures
            bytes@ == self@,
    {
        match self {
            AesKey::Aes128(bytes) => bytes.as_slice(),
            AesKey::Aes192(bytes) => bytes.as_slice(),
            AesKey::Aes256(bytes) => bytes.as_slice(),
        }
    }

    /// Every key holds 16, 24 or 32 bytes.
    pub proof fn lemma_valid_len(&self)
        ensures
            valid_key_len(self@.len()),
    {
    }
}

} // verus!
