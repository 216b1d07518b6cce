//! The 16-byte cipher state and the transforms of one round.
//!
//! Byte `i` of a block sits in row `i % 4` and column `i / 4` of the state
//! matrix, so each run of four bytes is one column.

use vstd::prelude::*;
use crate::bits::{be_byte, word_byte};
use crate::aes::gf256::{
    gf_mul, lemma_mix_byte, lemma_mix_then_inv_mix, lemma_xor_twice, xmul, xtimes,
};
use crate::aes::sbox::{inv_sbox, inv_sbox_spec, lemma_inv_sbox_of_sbox, sbox, sbox_spec};

verus! {

/// The state xored with four key words, each word covering one column with its
/// most significant byte in row 0.
pub open spec fn add_round_key_spec(s: Seq<u8>, round_key: Seq<u32>) -> Seq<u8> {
    Seq::new(16, |i: int| s[i] ^ be_byte(round_key[i / 4], i % 4))
}

/// Every byte replaced by its substitute.
pub open spec fn sub_bytes_spec(s: Seq<u8>) -> Seq<u8> {
    Seq::new(16, |i: int| sbox_spec(s[i]))
}

/// Every byte replaced by the byte it substitutes.
pub open spec fn inv_sub_bytes_spec(s: Seq<u8>) -> Seq<u8> {
    Seq::new(16, |i: int| inv_sbox_spec(s[i]))
}

/// Row `r` rotated left by `r` columns.
pub open spec fn shift_rows_spec(s: Seq<u8>) -> Seq<u8> {
    Seq::new(16, |i: int| s[(i + 4 * (i % 4)) % 16])
}

/// Row `r` rotated right by `r` columns.
pub open spec fn inv_shift_rows_spec(s: Seq<u8>) -> Seq<u8> {
    Seq::new(16, |i: int| s[(i + 16 - 4 * (i % 4)) % 16])
}

/// Byte `r` of column `c` after the column was multiplied by the matrix whose
/// first row is `m0 m1 m2 m3` and whose other rows rotate it to the right.
pub open spec fn column_product(s: Seq<u8>, c: int, r: int, m0: u8, m1: u8, m2: u8, m3: u8) -> u8 {
    gf_mul(s[4 * c + r], m0) ^ gf_mul(s[4 * c + (r + 1) % 4], m1) ^ gf_mul(
        s[4 * c + (r + 2) % 4],
        m2,
    ) ^ gf_mul(s[4 * c + (r + 3) % 4], m3)
}

/// Each column multiplied by the circulant matrix of `02 03 01 01`.
pub open spec fn mix_columns_spec(s: Seq<u8>) -> Seq<u8> {
    Seq::new(16, |i: int| column_product(s, i / 4, i % 4, 0x02, 0x03, 0x01, 0x01))
}

/// Each column multiplied by the circulant matrix of `0e 0b 0d 09`.
pub open spec fn inv_mix_columns_spec(s: Seq<u8>) -> Seq<u8> {
    Seq::new(16, |i: int| column_product(s, i / 4, i % 4, 0x0e, 0x0b, 0x0d, 0x09))
}

/// Byte-wise xor of two blocks.
pub open spec fn xor_spec(a: Seq<u8>, b: Seq<u8>) -> Seq<u8> {
    Seq::new(16, |i: int| a[i] ^ b[i])
}

/// One cipher state of sixteen bytes.
#[derive(Clone, Copy)]
pub struct Block(pub [u8; 16]);

impl View for Block {
    type V = Seq<u8>;

    open spec fn view(&self) -> Seq<u8> {
        self.0@
    }
}

impl Block {
    /// The byte at place `col` of the run of four bytes with number `row`.
    /// The state is stored column by column, so each run is one column of
    /// the state matrix.
    pub fn at(&mut self, row: usize, col: usize) -> (r: &mut u8)
        requires
            row < 4,
            col < 4,
        ensures
            *r == old(self)@[4 * row + col],
            final(self)@ == old(self)@.update(4 * row + col, *final(r)),
    {
        &mut self.0[4 * row + col]
    }

    /// Xors the four words of a round key into the state.
    pub fn add_round_key(&mut self, round_key: &[u32])
        requires
            round_key@.len() == 4,
        ensures
            final(self)@ == add_round_key_spec(old(self)@, round_key@),
    {
        let mut row: usize = 0;
        while row < 4
            invariant
                row <= 4,
                round_key@.len() == 4,
                self@.len() == 16,
                forall|j: int|
                    0 <= j < 4 * row ==> self@[j] == add_round_key_spec(old(self)@, round_key@)[j],
                forall|j: int| 4 * row <= j < 16 ==> self@[j] == old(self)@[j],
            decreases 4 - row,
        {
            let mut col: usize = 0;
            while col < 4
                invariant
                    row < 4,
                    col <= 4,
                    round_key@.len() == 4,
                    self@.len() == 16,
                    forall|j: int|
                        0 <= j < 4 * row + col ==> self@[j] == add_round_key_spec(
                            old(self)@,
                            round_key@,
                        )[j],
                    forall|j: int| 4 * row + col <= j < 16 ==> self@[j] == old(self)@[j],
                decreases 4 - col,
            {
                let key_byte = word_byte(round_key[row], col);
                let slot = self.at(row, col);
                *slot = *slot ^ key_byte;
                col += 1;
            }
            row += 1;
        }
        assert(self@ =~= add_round_key_spec(old(self)@, round_key@));
    }

    /// Substitutes every byte.
    pub fn sub_bytes(&mut self)
        ensures
            final(self)@ == sub_bytes_spec(old(self)@),
    {
        let mut i: usize = 0;
        while i < 16
            invariant
                i <= 16,
                self@.len() == 16,
                forall|j: int| 0 <= j < i ==> self@[j] == sbox_spec(old(self)@[j]),
                forall|j: int| i <= j < 16 ==> self@[j] == old(self)@[j],
            decreases 16 - i,
        {
            self.0[i] = sbox(self.0[i]);
            i += 1;
        }
        assert(self@ =~= sub_bytes_spec(old(self)@));
    }

    /// Undoes the substitution of every byte.
    pub fn inv_sub_bytes(&mut self)
        ensures
            final(self)@ == inv_sub_bytes_spec(old(self)@),
    {
        let mut i: usize = 0;
        while i < 16
            invariant
                i <= 16,
                self@.len() == 16,
                forall|j: int| 0 <= j < i ==> self@[j] == inv_sbox_spec(old(self)@[j]),
                forall|j: int| i <= j < 16 ==> self@[j] == old(self)@[j],
            decreases 16 - i,
        {
            self.0[i] = inv_sbox(self.0[i]);
            i += 1;
        }
        assert(self@ =~= inv_sub_bytes_spec(old(self)@));
    }

    /// Rotates row `r` of the state left by `r` columns.
    pub fn shift_rows(&mut self)
        ensures
            final(self)@ == shift_rows_spec(old(self)@),
    {
        let copy: [u8; 16] = self.0;
        self.0[1] = copy[5];
        self.0[2] = copy[10];
        self.0[3] = copy[15];
        self.0[5] = copy[9];
        self.0[6] = copy[14];
        self.0[7] = copy[3];
        self.0[9] = copy[13];
        self.0[10] = copy[2];
        self.0[11] = copy[7];
        self.0[13] = copy[1];
        self.0[14] = copy[6];
        self.0[15] = copy[11];
        assert(self@ =~= shift_rows_spec(old(self)@));
    }

    /// Rotates row `r` of the state right by `r` columns.
    pub fn inv_shift_rows(&mut self)
        ensures
            final(self)@ == inv_shift_rows_spec(old(self)@),
    {
        let copy: [u8; 16] = self.0;
        self.0[1] = copy[13];
        self.0[2] = copy[10];
        self.0[3] = copy[7];
        self.0[5] = copy[1];
        self.0[6] = copy[14];
        self.0[7] = copy[11];
        self.0[9] = copy[5];
        self.0[10] = copy[2];
        self.0[11] = copy[15];
        self.0[13] = copy[9];
        self.0[14] = copy[6];
        self.0[15] = copy[3];
        assert(self@ =~= inv_shift_rows_spec(old(self)@));
    }

    /// Multiplies each column by the circulant matrix of `02 03 01 01`.
    pub fn mix_columns(&mut self)
        ensures
            final(self)@ == mix_columns_spec(old(self)@),
    {
        let src: [u8; 16] = self.0;
        let mut c: usize = 0;
        while c < 4
            invariant
                c <= 4,
                src@ == old(self)@,
                self@.len() == 16,
                forall|k: int, r: int|
                    0 <= k < c && 0 <= r < 4 ==> self@[4 * k + r] == #[trigger] column_product(
                        src@,
                        k,
                        r,
                        0x02,
                        0x03,
                        0x01,
                        0x01,
                    ),
            decreases 4 - c,
        {
            let a0 = src[4 * c];
            let a1 = src[4 * c + 1];
            let a2 = src[4 * c + 2];
            let a3 = src[4 * c + 3];
            let b0 = xtimes(a0);
            let b1 = xtimes(a1);
            let b2 = xtimes(a2);
            let b3 = xtimes(a3);
            let x0 = b0 ^ a3 ^ a2 ^ b1 ^ a1;
            let x1 = b1 ^ a0 ^ a3 ^ b2 ^ a2;
            let x2 = b2 ^ a1 ^ a0 ^ b3 ^ a3;
            let x3 = b3 ^ a2 ^ a1 ^ b0 ^ a0;
            proof {
                lemma_mix_byte(a0, a1, a2, a3);
                lemma_mix_byte(a1, a2, a3, a0);
                lemma_mix_byte(a2, a3, a0, a1);
                lemma_mix_byte(a3, a0, a1, a2);
            }
            proof {
                assert(x0 == column_product(src@, c as int, 0, 0x02, 0x03, 0x01, 0x01));
                assert(x1 == column_product(src@, c as int, 1, 0x02, 0x03, 0x01, 0x01));
                assert(x2 == column_product(src@, c as int, 2, 0x02, 0x03, 0x01, 0x01));
                assert(x3 == column_product(src@, c as int, 3, 0x02, 0x03, 0x01, 0x01));
            }
            let ghost before = self@;
            self.0[4 * c] = x0;
            self.0[4 * c + 1] = x1;
            self.0[4 * c + 2] = x2;
            self.0[4 * c + 3] = x3;
            proof {
                assert forall|k: int, r: int| 0 <= k < c + 1 && 0 <= r < 4 implies self@[4 * k
                    + r] == #[trigger] column_product(src@, k, r, 0x02, 0x03, 0x01, 0x01) by {
                    if k < c {
                        assert(self@[4 * k + r] == before[4 * k + r]);
                    }
                }
            }
            c += 1;
        }
        assert forall|i: int| 0 <= i < 16 implies self@[i] == mix_columns_spec(old(self)@)[i] by {
            let k = i / 4;
            let r = i % 4;
            assert(self@[4 * k + r] == column_product(src@, k, r, 0x02, 0x03, 0x01, 0x01));
        }
        assert(self@ =~= mix_columns_spec(old(self)@));
    }

    /// Multiplies each column by the circulant matrix of `0e 0b 0d 09`.
    pub fn inv_mix_columns(&mut self)
        ensures
            final(self)@ == inv_mix_columns_spec(old(self)@),
    {
        let src: [u8; 16] = self.0;
        let mut c: usize = 0;
        while c < 4
            invariant
                c <= 4,
                src@ == old(self)@,
                self@.len() == 16,
                forall|k: int, r: int|
                    0 <= k < c && 0 <= r < 4 ==> self@[4 * k + r] == #[trigger] column_product(
                        src@,
                        k,
                        r,
                        0x0e,
                        0x0b,
                        0x0d,
                        0x09,
                    ),
            decreases 4 - c,
        {
            let a0 = src[4 * c];
            let a1 = src[4 * c + 1];
            let a2 = src[4 * c + 2];
            let a3 = src[4 * c + 3];
            let x0 = xmul(a0, 0x0e) ^ xmul(a1, 0x0b) ^ xmul(a2, 0x0d) ^ xmul(a3, 0x09);
            let x1 = xmul(a1, 0x0e) ^ xmul(a2, 0x0b) ^ xmul(a3, 0x0d) ^ xmul(a0, 0x09);
            let x2 = xmul(a2, 0x0e) ^ xmul(a3, 0x0b) ^ xmul(a0, 0x0d) ^ xmul(a1, 0x09);
            let x3 = xmul(a3, 0x0e) ^ xmul(a0, 0x0b) ^ xmul(a1, 0x0d) ^ xmul(a2, 0x09);
            proof {
                assert(x0 == column_product(src@, c as int, 0, 0x0e, 0x0b, 0x0d, 0x09));
                assert(x1 == column_product(src@, c as int, 1, 0x0e, 0x0b, 0x0d, 0x09));
                assert(x2 == column_product(src@, c as int, 2, 0x0e, 0x0b, 0x0d, 0x09));
                assert(x3 == column_product(src@, c as int, 3, 0x0e, 0x0b, 0x0d, 0x09));
            }
            let ghost before = self@;
            self.0[4 * c] = x0;
            self.0[4 * c + 1] = x1;
            self.0[4 * c + 2] = x2;
            self.0[4 * c + 3] = x3;
            proof {
                assert forall|k: int, r: int| 0 <= k < c + 1 && 0 <= r < 4 implies self@[4 * k
                    + r] == #[trigger] column_product(src@, k, r, 0x0e, 0x0b, 0x0d, 0x09) by {
                    if k < c {
                        assert(self@[4 * k + r] == before[4 * k + r]);
                    }
                }
            }
            c += 1;
        }
        assert forall|i: int| 0 <= i < 16 implies self@[i] == inv_mix_columns_spec(old(self)@)[i] by {
            let k = i / 4;
            let r = i % 4;
            assert(self@[4 * k + r] == column_product(src@, k, r, 0x0e, 0x0b, 0x0d, 0x09));
        }
        assert(self@ =~= inv_mix_columns_spec(old(self)@));
    }

    /// The byte-wise xor of two blocks.
    pub fn xor(&self, rhs: &Self) -> (r: Self)
        ensures
            r@ == xor_spec(self@, rhs@),
    {
        let mut block = *self;
        block.xor_inplace(rhs);
        block
    }

    /// Xors another block into this one.
    pub fn xor_inplace(&mut self, rhs: &Self)
        ensures
            final(self)@ == xor_spec(old(self)@, rhs@),
    {
        let mut i: usize = 0;
        while i < 16
            invariant
                i <= 16,
                self@.len() == 16,
                rhs@.len() == 16,
                forall|j: int| 0 <= j < i ==> self@[j] == old(self)@[j] ^ rhs@[j],
                forall|j: int| i <= j < 16 ==> self@[j] == old(self)@[j],
            decreases 16 - i,
        {
            self.0[i] = self.0[i] ^ rhs.0[i];
            i += 1;
        }
        assert(self@ =~= xor_spec(old(self)@, rhs@));
    }
}

/// Adding the same round key twice gives the state back.
pub proof fn lemma_add_round_key_twice(s: Seq<u8>, round_key: Seq<u32>)
    requires
        s.len() == 16,
    ensures
        add_round_key_spec(add_round_key_spec(s, round_key), round_key) == s,
{
    assert forall|i: int| 0 <= i < 16 implies add_round_key_spec(
        add_round_key_spec(s, round_key),
        round_key,
    )[i] == s[i] by {
        lemma_xor_twice(s[i], be_byte(round_key[i / 4], i % 4));
    }
    assert(add_round_key_spec(add_round_key_spec(s, round_key), round_key) =~= s);
}

/// Xoring the same block twice gives the first block back.
pub proof fn lemma_xor_block_twice(a: Seq<u8>, b: Seq<u8>)
    requires
        a.len() == 16,
    ensures
        xor_spec(xor_spec(a, b), b) == a,
{
    assert forall|i: int| 0 <= i < 16 implies xor_spec(xor_spec(a, b), b)[i] == a[i] by {
        lemma_xor_twice(a[i], b[i]);
    }
    assert(xor_spec(xor_spec(a, b), b) =~= a);
}

/// The inverse substitution undoes the substitution.
pub proof fn lemma_inv_sub_bytes(s: Seq<u8>)
    requires
        s.len() == 16,
    ensures
        inv_sub_bytes_spec(sub_bytes_spec(s)) == s,
{
    assert forall|i: int| 0 <= i < 16 implies inv_sub_bytes_spec(sub_bytes_spec(s))[i]
        == s[i] by {
        lemma_inv_sbox_of_sbox(s[i]);
    }
    assert(inv_sub_bytes_spec(sub_bytes_spec(s)) =~= s);
}

/// Rotating the rows right undoes rotating them left.
pub proof fn lemma_inv_shift_rows(s: Seq<u8>)
    requires
        s.len() == 16,
    ensures
        inv_shift_rows_spec(shift_rows_spec(s)) == s,
{
    assert(inv_shift_rows_spec(shift_rows_spec(s)) =~= s);
}

/// The inverse column mix undoes the column mix.
pub proof fn lemma_inv_mix_columns(s: Seq<u8>)
    requires
        s.len() == 16,
    ensures
        inv_mix_columns_spec(mix_columns_spec(s)) == s,
{
    let m = mix_columns_spec(s);
    assert forall|i: int| 0 <= i < 16 implies inv_mix_columns_spec(m)[i] == s[i] by {
        let c = i / 4;
        let r = i % 4;
        let a0 = s[4 * c + r];
        let a1 = s[4 * c + (r + 1) % 4];
        let a2 = s[4 * c + (r + 2) % 4];
        let a3 = s[4 * c + (r + 3) % 4];
        lemma_mix_then_inv_mix(a0, a1, a2, a3);
        assert(m[4 * c + r] == column_product(s, c, r, 0x02, 0x03, 0x01, 0x01));
        assert(m[4 * c + (r + 1) % 4] == column_product(s, c, (r + 1) % 4, 0x02, 0x03, 0x01, 0x01));
        assert(m[4 * c + (r + 2) % 4] == column_product(s, c, (r + 2) % 4, 0x02, 0x03, 0x01, 0x01));
        assert(m[4 * c + (r + 3) % 4] == column_product(s, c, (r + 3) % 4, 0x02, 0x03, 0x01, 0x01));
        assert(inv_mix_columns_spec(m)[i] == column_product(m, c, r, 0x0e, 0x0b, 0x0d, 0x09));
    }
    assert(inv_mix_columns_spec(m) =~= s);
}

} // verus!
