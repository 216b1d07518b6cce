//! The sum of two numbers, byte by byte.

use vstd::prelude::*;
use crate::ubig::compare::max_len;
use crate::ubig::value::{lemma_pow256, lemma_val_padded, lemma_val_push, padded, pow256, val};
use crate::ubig::Ubig;

verus! {

/// A sequence of bytes repeated until it is `n` bytes long.
pub open spec fn cycled(b: Seq<u8>, n: nat) -> Seq<u8> {
    Seq::new(n, |i: int| b[i % (b.len() as int)])
}

impl Ubig {
    /// The sum of the number and of `rhs`, where `rhs` has at least as many
    /// bytes. A shorter `rhs` is not written out with zeros but repeated
    /// up to the length of the number, and with an empty `rhs` the result is
    /// empty.
    pub fn add(self, rhs: Ubig) -> (r: Self)
        ensures
            rhs@.len() == 0 ==> r@.len() == 0,
            rhs@.len() > 0 ==> r.value() == self.value() + val(
                cycled(rhs@, max_len(self@, rhs@)),
            ),
            rhs@.len() >= self@.len() ==> r.value() == self.value() + rhs.value(),
            max_len(self@, rhs@) <= r@.len() + (if rhs@.len() == 0 {
                self@.len()
            } else {
                0
            }),
            r@.len() <= max_len(self@, rhs@) + 1,
            rhs@.len() > 0 ==> (r@.len() == max_len(self@, rhs@) + 1 <==> r.value() >= pow256(
                max_len(self@, rhs@),
            )),
    {
        let la: usize = self.0.len();
        let lb: usize = rhs.0.len();
        let length: usize = if la >= lb {
            la
        } else {
            lb
        };
        let mut result: Vec<u8> = Vec::new();
        if lb == 0 {
            proof {
                assert(val(self@) == 0 || la > 0);
            }
            return Ubig(result);
        }
        let ghost pa = padded(self@, length as nat);
        let ghost cb = cycled(rhs@, length as nat);
        let mut carry: u16 = 0;
        let mut i: usize = 0;
        proof {
            lemma_pow256(0);
            assert(pa.subrange(0, 0) =~= Seq::<u8>::empty());
            assert(cb.subrange(0, 0) =~= Seq::<u8>::empty());
            assert(val(Seq::<u8>::empty()) == 0);
        }
        while i < length
            invariant
                i <= length,
                la == self@.len(),
                lb == rhs@.len(),
                lb > 0,
                pa == padded(self@, length as nat),
                cb == cycled(rhs@, length as nat),
                carry <= 1,
                result@.len() == i,
                val(result@) + carry * pow256(i as nat) == val(pa.subrange(0, i as int)) + val(
                    cb.subrange(0, i as int),
                ),
            decreases length - i,
        {
            let a: u16 = self.byte_at(i) as u16;
            let b: u16 = rhs.0[i % lb] as u16;
            let c: u16 = a + b + carry;
            let low: u8 = (c % 256) as u8;
            let ghost before = result@;
            let ghost old_carry = carry;
            result.push(low);
            carry = c / 256;
            proof {
                assert(pa.subrange(0, i + 1) =~= pa.subrange(0, i as int).push(a as u8));
                assert(cb.subrange(0, i + 1) =~= cb.subrange(0, i as int).push(b as u8));
                lemma_val_push(before, low);
                lemma_val_push(pa.subrange(0, i as int), a as u8);
                lemma_val_push(cb.subrange(0, i as int), b as u8);
                lemma_pow256(i as nat);
                let p = pow256(i as nat);
                assert(p * low + carry * (256 * p) == p * a + p * b + old_carry * p)
                    by (nonlinear_arith)
                    requires
                        low + 256 * carry == a + b + old_carry,
                ;
            }
            i += 1;
        }
        let ghost body = result@;
        proof {
            crate::ubig::value::lemma_val_bound(body);
            lemma_pow256(length as nat);
        }
        if carry != 0 {
            result.push(carry as u8);
            proof {
                lemma_val_push(body, carry as u8);
                assert(pow256(length as nat) * carry == carry * pow256(length as nat))
                    by (nonlinear_arith);
            }
        } else {
            proof {
                assert(carry * pow256(length as nat) == 0) by (nonlinear_arith)
                    requires
                        carry == 0,
                ;
            }
        }
        proof {
            assert(pa.subrange(0, length as int) =~= pa);
            assert(cb.subrange(0, length as int) =~= cb);
            lemma_val_padded(self@, length as nat);
            if lb >= la {
                assert forall|j: int| 0 <= j < length implies cb[j] == rhs@[j] by {
                    vstd::arithmetic::div_mod::lemma_small_mod(j as nat, lb as nat);
                }
                assert(cb =~= rhs@);
            }
        }
        Ubig(result)
    }
}

} // verus!
