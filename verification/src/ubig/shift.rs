//! Shifts of a number by bits.

use vstd::prelude::*;
use vstd::arithmetic::power::lemma_pow_multiplies;
use vstd::arithmetic::power2::{lemma2_to64, lemma_pow2, lemma_pow2_adds, lemma_pow2_pos, pow2};
use vstd::arithmetic::div_mod::{lemma_div_denominator, lemma_fundamental_div_mod_converse};
use crate::ubig::value::{
    lemma_pow256, lemma_val_bound, lemma_val_concat, lemma_val_lower_bound, lemma_val_push,
    lemma_val_split, lemma_val_zeros, pow256, val,
};
use crate::ubig::{lemma_significant_len, lemma_significant_len_of_prefix, significant_len, Ubig};

verus! {

proof fn lemma_small_shifts()
    by (bit_vector)
    ensures
        1u32 << 0u32 == 1,
        1u32 << 1u32 == 2,
        1u32 << 2u32 == 4,
        1u32 << 3u32 == 8,
        1u32 << 4u32 == 16,
        1u32 << 5u32 == 32,
        1u32 << 6u32 == 64,
        1u32 << 7u32 == 128,
{
}

/// One shifted left by less than eight bits is the power of two.
pub proof fn lemma_shift_is_pow2(s: u32)
    requires
        s < 8,
    ensures
        (1u32 << s) == pow2(s as nat),
{
    lemma_small_shifts();
    lemma2_to64();
}

/// 256 to the `k` is two to the `8 * k`.
pub proof fn lemma_pow256_is_pow2(k: nat)
    ensures
        pow256(k) == pow2(8 * k),
{
    lemma_pow2(8);
    lemma_pow2(8 * k);
    lemma2_to64();
    lemma_pow_multiplies(2, 8, k);
    lemma_pow256(k);
}

/// A byte shifted left with the bits that came out of the byte below it:
/// together with the bits that come out of it, it holds the byte times the
/// power of two and what came in.
proof fn lemma_shl_byte(b: u8, carry: u8, s: u32, t: u32)
    by (bit_vector)
    requires
        1 <= s <= 7,
        t == 8 - s,
        (carry as u32) < (1u32 << s),
    ensures
        (((b << s) | carry) as u32) + 256 * ((b >> t) as u32) == (b as u32) * (1u32 << s) + (
        carry as u32),
        ((b >> t) as u32) < (1u32 << s),
{
}

impl Ubig {
    /// Multiplies the number by two to the power of `rhs`.
    pub fn shl_assign(&mut self, rhs: u32)
        ensures
            final(self).value() == old(self).value() * pow2(rhs as nat),
            old(self)@.len() + rhs / 8 <= final(self)@.len() <= old(self)@.len() + rhs / 8 + 1,
            final(self)@.len() == old(self)@.len() + rhs / 8 + 1 <==> old(self).value() * pow2(
                (rhs % 8) as nat,
            ) >= pow256(old(self)@.len()),
    {
        let k: usize = rhs as usize / 8;
        let shift: u32 = rhs % 8;
        let mut shifted: Vec<u8> = Vec::new();
        let mut z: usize = 0;
        while z < k
            invariant
                z <= k,
                shifted@.len() == z,
                forall|j: int| 0 <= j < z ==> shifted@[j] == 0,
            decreases k - z,
        {
            shifted.push(0);
            z += 1;
        }
        let ghost zeros = shifted@;
        let ghost f = pow2(shift as nat);
        let n: usize = self.0.len();
        let mut carry: u8 = 0;
        let mut i: usize = 0;
        proof {
            lemma_shift_is_pow2(shift);
            lemma_pow2_pos(shift as nat);
            lemma2_to64();
            assert(self@.subrange(0, 0) =~= Seq::<u8>::empty());
            assert(shifted@.subrange(k as int, k as int) =~= Seq::<u8>::empty());
            assert(val(Seq::<u8>::empty()) * f == 0) by (nonlinear_arith)
                requires
                    val(Seq::<u8>::empty()) == 0,
            ;
            lemma_pow256(0);
        }
        while i < n
            invariant
                i <= n,
                n == self@.len(),
                self@ == old(self)@,
                shift < 8,
                f == pow2(shift as nat),
                f == (1u32 << shift),
                shifted@.len() == k + i,
                shifted@.subrange(0, k as int) == zeros,
                shift == 0 ==> carry == 0 && f == 1,
                (carry as u32) < (1u32 << shift),
                val(shifted@.subrange(k as int, k + i)) + carry * pow256(i as nat) == val(
                    self@.subrange(0, i as int),
                ) * f,
            decreases n - i,
        {
            let byte: u8 = self.0[i];
            let ghost out = shifted@.subrange(k as int, k + i);
            let ghost src = self@.subrange(0, i as int);
            let ghost old_carry = carry;
            let new_byte: u8;
            if shift != 0 {
                let back: u32 = 8 - shift;
                let new_carry: u8 = byte >> back;
                new_byte = (byte << shift) | carry;
                proof {
                    lemma_shl_byte(byte, carry, shift, back);
                }
                carry = new_carry;
            } else {
                new_byte = byte;
            }
            shifted.push(new_byte);
            proof {
                assert(shifted@.subrange(k as int, k + i + 1) =~= out.push(new_byte));
                assert(self@.subrange(0, i + 1) =~= src.push(byte));
                assert(shifted@.subrange(0, k as int) =~= zeros);
                lemma_val_push(out, new_byte);
                lemma_val_push(src, byte);
                lemma_pow256(i as nat);
                let p = pow256(i as nat);
                if shift == 0 {
                    assert(byte * f == byte) by (nonlinear_arith)
                        requires
                            f == 1,
                    ;
                }
                assert(new_byte + 256 * carry == byte * f + old_carry);
                assert(val(out) + p * new_byte + carry * (256 * p) == (val(src) + p * byte) * f)
                    by (nonlinear_arith)
                    requires
                        val(out) + old_carry * p == val(src) * f,
                        new_byte + 256 * carry == byte * f + old_carry,
                ;
            }
            i += 1;
        }
        let ghost out = shifted@.subrange(k as int, k + n);
        proof {
            lemma_val_bound(out);
            lemma_pow256(n as nat);
            assert(self@.subrange(0, n as int) =~= self@);
        }
        if carry != 0 {
            shifted.push(carry);
            proof {
                assert(shifted@.subrange(k as int, k + n + 1) =~= out.push(carry));
                lemma_val_push(out, carry);
                assert(pow256(n as nat) * carry == carry * pow256(n as nat)) by (nonlinear_arith);
                assert(carry * pow256(n as nat) >= pow256(n as nat)) by (nonlinear_arith)
                    requires
                        carry >= 1,
                        pow256(n as nat) >= 0,
                ;
            }
        } else {
            proof {
                assert(carry * pow256(n as nat) == 0) by (nonlinear_arith)
                    requires
                        carry == 0,
                ;
            }
        }
        proof {
            let body = shifted@.subrange(k as int, shifted@.len() as int);
            assert(self@.subrange(0, n as int) =~= self@);
            assert(val(body) == val(self@) * f);
            assert(shifted@ =~= zeros + body);
            lemma_val_concat(zeros, body);
            lemma_val_zeros(zeros);
            lemma_pow256_is_pow2(k as nat);
            lemma_pow2_adds(8 * k as nat, shift as nat);
            assert(rhs == 8 * k + shift);
            let v = val(self@);
            let pk = pow256(k as nat);
            assert(pk * (v * f) == v * (pk * f)) by (nonlinear_arith);
        }
        self.0 = shifted;
    }
}

/// The number of bytes that a number needs.
pub open spec fn byte_len(v: nat) -> nat
    decreases v,
{
    if v == 0 {
        0
    } else {
        1 + byte_len(v / 256)
    }
}

/// A number between two powers of 256 in a row needs as many bytes as the
/// higher power says.
pub proof fn lemma_byte_len_between(v: nat, n: nat)
    requires
        n >= 1,
        pow256((n - 1) as nat) <= v < pow256(n),
    ensures
        byte_len(v) == n,
    decreases n,
{
    lemma_pow256((n - 1) as nat);
    lemma_pow256(0);
    if n == 1 {
        assert(v / 256 == 0);
        assert(byte_len(0) == 0);
    } else {
        lemma_pow256((n - 2) as nat);
        lemma_byte_len_between(v / 256, (n - 1) as nat);
    }
}

/// A greater number does not need fewer bytes.
pub proof fn lemma_byte_len_monotonic(x: nat, y: nat)
    requires
        x <= y,
    ensures
        byte_len(x) <= byte_len(y),
    decreases y,
{
    if x > 0 {
        lemma_byte_len_monotonic(x / 256, y / 256);
    }
}

/// The bytes of a number up to its highest byte that is not zero are as
/// many as the number needs.
pub proof fn lemma_significant_len_is_byte_len(b: Seq<u8>)
    ensures
        significant_len(b) == byte_len(val(b)),
{
    lemma_significant_len(b);
    let n = significant_len(b);
    let s = b.subrange(0, n as int);
    if n == 0 {
        assert(val(s) == 0);
    } else {
        lemma_val_lower_bound(s);
        lemma_val_bound(s);
        lemma_byte_len_between(val(b), n);
    }
}

/// A byte shifted right with the bits that came out of the byte above it.
proof fn lemma_shr_byte(b: u8, x: u8, s: u32, t: u32)
    by (bit_vector)
    requires
        1 <= s <= 7,
        t == 8 - s,
    ensures
        ((((b >> s) | (x << t)) as u32) * (1u32 << s)) + (((b << t) >> t) as u32) == (b as u32) + 256
            * (((x << t) >> t) as u32),
        (((b << t) >> t) as u32) < (1u32 << s),
{
}

impl Ubig {
    /// Divides the number by two to the power of `rhs`, rounding down. The
    /// result has no zero bytes at its end. The whole bytes that the shift
    /// takes off must be there once the bits are taken off.
    pub fn shr_assign(&mut self, rhs: u32)
        requires
            rhs / 8 <= byte_len(old(self).value() / pow2((rhs % 8) as nat)),
        ensures
            final(self).value() == old(self).value() / pow2(rhs as nat),
            significant_len(final(self)@) == final(self)@.len(),
    {
        let drop: usize = (rhs / 8) as usize;
        let shift: u32 = rhs % 8;
        let n: usize = self.0.len();
        let ghost f = pow2(shift as nat);
        let ghost mut prev: u8 = 0;
        proof {
            lemma_shift_is_pow2(shift);
            lemma_pow2_pos(shift as nat);
            lemma2_to64();
        }
        if shift != 0 {
            let back: u32 = 8 - shift;
            let mut carry: u8 = 0;
            let mut idx: usize = n;
            proof {
                assert(self@.subrange(n as int, n as int) =~= Seq::<u8>::empty());
                assert(val(Seq::<u8>::empty()) * f == 0) by (nonlinear_arith)
                    requires
                        val(Seq::<u8>::empty()) == 0,
                ;
                assert(0u8 << back == 0u8 && 0u8 >> back == 0u8) by (bit_vector)
                    requires
                        back < 8,
                ;
                lemma_shr_byte(0, 0, shift, back);
            }
            while idx > 0
                invariant
                    idx <= n,
                    n == self@.len(),
                    n == old(self)@.len(),
                    1 <= shift <= 7,
                    back == 8 - shift,
                    f == pow2(shift as nat),
                    f == (1u32 << shift),
                    carry == prev << back,
                    ((carry >> back) as u32) < (1u32 << shift),
                    forall|j: int| 0 <= j < idx ==> self@[j] == old(self)@[j],
                    val(self@.subrange(idx as int, n as int)) * f + (carry >> back) == val(
                        old(self)@.subrange(idx as int, n as int),
                    ),
                decreases idx,
            {
                idx -= 1;
                let byte: u8 = self.0[idx];
                let new_carry: u8 = byte << back;
                let new_byte: u8 = (byte >> shift) | carry;
                let ghost top = self@.subrange(idx + 1, n as int);
                let ghost old_top = old(self)@.subrange(idx + 1, n as int);
                proof {
                    lemma_shr_byte(byte, prev, shift, back);
                }
                self.0[idx] = new_byte;
                proof {
                    let cur = self@.subrange(idx as int, n as int);
                    let cur_old = old(self)@.subrange(idx as int, n as int);
                    assert(cur.drop_first() =~= top);
                    assert(cur_old.drop_first() =~= old_top);
                    assert(cur[0] == new_byte);
                    assert(cur_old[0] == byte);
                    let lo_b = (new_carry >> back) as nat;
                    let lo_x = (carry >> back) as nat;
                    assert((new_byte + 256 * val(top)) * f + lo_b == byte + 256 * val(old_top))
                        by (nonlinear_arith)
                        requires
                            new_byte * f + lo_b == byte + 256 * lo_x,
                            val(top) * f + lo_x == val(old_top),
                    ;
                    prev = byte;
                }
                carry = new_carry;
            }
            proof {
                assert(self@.subrange(0, n as int) =~= self@);
                assert(old(self)@.subrange(0, n as int) =~= old(self)@);
                let lo = (carry >> back) as int;
                assert(val(old(self)@) == val(self@) * f + lo);
                assert(val(self@) * f == f * val(self@)) by (nonlinear_arith);
                lemma_fundamental_div_mod_converse(
                    val(old(self)@) as int,
                    f as int,
                    val(self@) as int,
                    lo,
                );
            }
        } else {
            proof {
                assert(val(self@) / 1 == val(self@));
            }
        }
        assert(val(self@) == old(self).value() / f);
        let keep: usize = self.significant_bytes();
        proof {
            lemma_significant_len_is_byte_len(self@);
            lemma_significant_len(self@);
        }
        let ghost shifted = self@;
        let mut out: Vec<u8> = Vec::new();
        let mut i: usize = drop;
        while i < keep
            invariant
                drop <= i <= keep,
                keep <= self@.len(),
                self@ == shifted,
                out@ == self@.subrange(drop as int, i as int),
            decreases keep - i,
        {
            out.push(self.0[i]);
            assert(self@.subrange(drop as int, i + 1) =~= self@.subrange(drop as int, i as int).push(
                self@[i as int],
            ));
            i += 1;
        }
        proof {
            let kept = shifted.subrange(0, keep as int);
            lemma_val_split(kept, drop as int);
            assert(kept.subrange(0, drop as int) =~= shifted.subrange(0, drop as int));
            assert(kept.subrange(drop as int, keep as int) =~= out@);
            let lo = val(shifted.subrange(0, drop as int));
            lemma_val_bound(shifted.subrange(0, drop as int));
            lemma_pow256(drop as nat);
            let pd = pow256(drop as nat);
            assert(pd * val(out@) == val(out@) * pd) by (nonlinear_arith);
            lemma_fundamental_div_mod_converse(
                val(shifted) as int,
                pd as int,
                val(out@) as int,
                lo as int,
            );
            lemma_pow256_is_pow2(drop as nat);
            lemma_pow2_adds(shift as nat, 8 * drop as nat);
            lemma_div_denominator(old(self).value() as int, f as int, pd as int);
            assert(rhs == shift + 8 * drop);
            if out@.len() > 0 {
                assert(out@.last() == shifted[keep - 1]);
            }
            lemma_significant_len_of_prefix(out@);
        }
        self.0 = out;
    }
}

} // verus!
