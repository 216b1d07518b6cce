//! The remainder of a division, by shifting and subtracting.

use vstd::prelude::*;
use vstd::arithmetic::div_mod::{lemma_fundamental_div_mod, lemma_fundamental_div_mod_converse};
use vstd::arithmetic::power2::{lemma2_to64, pow2};
use crate::ubig::value::{lemma_pow256, lemma_val_update, pow256, val};
use crate::ubig::shift::{lemma_byte_len_monotonic, lemma_significant_len_is_byte_len};
use crate::ubig::{lemma_significant_len, significant_len, Ubig};

verus! {

/// The remainder of `a` divided by `m`; `a` itself where `m` is zero.
pub open spec fn rem_or_self(a: nat, m: nat) -> nat {
    if m == 0 {
        a
    } else {
        a % m
    }
}

/// The bits of a byte from the top down: the bits above place `t`, doubled,
/// and the bit at place `t`, are the bits from place `t` up.
proof fn lemma_next_bit(byte: u8, t: u32, above: u32)
    by (bit_vector)
    requires
        t <= 7,
        above == t + 1,
    ensures
        ((byte as u16) >> t) == 2 * ((byte as u16) >> above) + (((byte >> t) & 1) as u16),
        ((byte >> t) & 1) <= 1,
        t == 7 ==> ((byte as u16) >> above) == 0,
        t == 0 ==> ((byte as u16) >> t) == byte,
{
}

/// An even byte with a bit set in its lowest place is the byte plus the bit.
proof fn lemma_set_low_bit(b: u8, bit: u8)
    by (bit_vector)
    requires
        b % 2 == 0,
        bit <= 1,
    ensures
        (b | bit) == b + bit,
{
}

/// One step of the division: the remainder so far is doubled, the next bit
/// is added, and the divisor is taken off where it fits.
pub proof fn lemma_rem_step(p: nat, m: nat, bit: nat, r: nat)
    requires
        bit <= 1,
        r == rem_or_self(p, m),
    ensures
        m > 0 ==> r < m,
        2 * r + bit >= m ==> rem_or_self(2 * p + bit, m) == 2 * r + bit - m,
        2 * r + bit < m ==> rem_or_self(2 * p + bit, m) == 2 * r + bit,
{
    if m > 0 {
        lemma_fundamental_div_mod(p as int, m as int);
        let q = p as int / m as int;
        assert(0 <= r < m);
        assert(p == m * q + r);
        if 2 * r + bit >= m {
            assert(2 * p + bit == (2 * q + 1) * m + (2 * r + bit - m)) by (nonlinear_arith)
                requires
                    p == m * q + r,
            ;
            lemma_fundamental_div_mod_converse(
                (2 * p + bit) as int,
                m as int,
                2 * q + 1,
                (2 * r + bit - m) as int,
            );
        } else {
            assert(2 * p + bit == (2 * q) * m + (2 * r + bit)) by (nonlinear_arith)
                requires
                    p == m * q + r,
            ;
            lemma_fundamental_div_mod_converse(
                (2 * p + bit) as int,
                m as int,
                2 * q,
                (2 * r + bit) as int,
            );
        }
    }
}

impl Ubig {
    /// The remainder of the number divided by `rhs`, without zero bytes at
    /// its end. A division by zero gives the number itself.
    pub fn rem(self, rhs: &Ubig) -> (r: Self)
        ensures
            r.value() == rem_or_self(self.value(), rhs.value()),
            significant_len(r@) == r@.len(),
            rhs.value() > 0 ==> r@.len() <= rhs@.len(),
    {
        let mut rem = Ubig(vec![0u8]);
        let n: usize = self.0.len();
        let ghost m = rhs.value();
        let ghost mut p: nat = 0;
        let mut idx: usize = n;
        proof {
            assert(rem@ =~= seq![0u8]);
            assert(rem@.drop_first() =~= Seq::<u8>::empty());
            assert(val(Seq::<u8>::empty()) == 0);
            assert(val(rem@) == 0);
            assert(self@.subrange(n as int, n as int) =~= Seq::<u8>::empty());
        }
        while idx > 0
            invariant
                idx <= n,
                n == self@.len(),
                m == rhs.value(),
                rem@.len() >= 1,
                p == val(self@.subrange(idx as int, n as int)),
                rem.value() == rem_or_self(p, m),
            decreases idx,
        {
            idx -= 1;
            let byte: u8 = self.0[idx];
            let ghost p0 = p;
            let ghost mut acc: nat = 0;
            let ghost mut scale: nat = 1;
            let mut i: u32 = 0;
            proof {
                lemma_next_bit(byte, 7, 8);
                assert(p == p0 * scale + acc) by (nonlinear_arith)
                    requires
                        p == p0,
                        scale == 1,
                        acc == 0,
                ;
                lemma2_to64();
            }
            while i < 8
                invariant
                    i <= 8,
                    m == rhs.value(),
                    rem@.len() >= 1,
                    scale == pow2(i as nat),
                    acc == ((byte as u16) >> ((8 - i) as u16)),
                    p == p0 * scale + acc,
                    rem.value() == rem_or_self(p, m),
                decreases 8 - i,
            {
                rem.shl_assign(1);
                let t: u32 = 7 - i;
                let bit: u8 = (byte >> t) & 1;
                let low: u8 = rem.0[0];
                proof {
                    lemma2_to64();
                    lemma_next_bit(byte, t, (t + 1) as u32);
                    assert(val(rem@) == low + 256 * val(rem@.drop_first()));
                    assert(low % 2 == 0) by (nonlinear_arith)
                        requires
                            val(rem@) == low + 256 * val(rem@.drop_first()),
                            val(rem@) == 2 * rem_or_self(p, m),
                    ;
                    lemma_set_low_bit(low, bit);
                    lemma_val_update(rem@, 0, low | bit);
                    lemma_pow256(0);
                    lemma_rem_step(p, m, bit as nat, rem_or_self(p, m));
                }
                let ghost doubled = rem@;
                rem.0[0] = low | bit;
                proof {
                    assert(rem@ == doubled.update(0, low | bit));
                    assert(val(rem@) == 2 * rem_or_self(p, m) + bit) by (nonlinear_arith)
                        requires
                            val(rem@) == val(doubled) - pow256(0) * low + pow256(0) * ((low
                                | bit) as nat),
                            pow256(0) == 1,
                            (low | bit) == low + bit,
                            val(doubled) == 2 * rem_or_self(p, m),
                    ;
                }
                if rem.compare(rhs) >= 0 {
                    rem.sub_assign(rhs);
                }
                proof {
                    let next_p: nat = 2 * p + bit as nat;
                    assert(next_p == p0 * (2 * scale) + (2 * acc + bit)) by (nonlinear_arith)
                        requires
                            next_p == 2 * p + bit,
                            p == p0 * scale + acc,
                    ;
                    vstd::arithmetic::power2::lemma_pow2_unfold((i + 1) as nat);
                    p = next_p;
                    acc = 2 * acc + bit as nat;
                    scale = 2 * scale;
                }
                i += 1;
            }
            proof {
                lemma2_to64();
                lemma_next_bit(byte, 0, 1);
                let top = self@.subrange(idx as int, n as int);
                assert(top.drop_first() =~= self@.subrange(idx + 1, n as int));
                assert(p == byte + 256 * p0) by (nonlinear_arith)
                    requires
                        p == p0 * scale + acc,
                        scale == 256,
                        acc == byte,
                ;
            }
        }
        proof {
            assert(self@.subrange(0, n as int) =~= self@);
            lemma_significant_len(rem@);
        }
        let keep: usize = rem.significant_bytes();
        rem.0.truncate(keep);
        proof {
            crate::ubig::lemma_significant_len_of_prefix(rem@);
            if m > 0 {
                lemma_rem_step(p, m, 0, rem_or_self(p, m));
                lemma_significant_len_is_byte_len(rem@);
                lemma_significant_len_is_byte_len(rhs@);
                lemma_byte_len_monotonic(val(rem@), m);
                lemma_significant_len(rhs@);
            }
        }
        rem
    }
}

} // verus!
