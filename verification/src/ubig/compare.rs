//! Comparison and subtraction of numbers.

use vstd::prelude::*;
use crate::ubig::value::{
    ext, lemma_pow256, lemma_val_decided_at, lemma_val_fits, lemma_val_injective, lemma_val_padded,
    lemma_val_push, padded, pow256, val,
};
use crate::ubig::Ubig;

verus! {

/// The longer of two lengths.
pub open spec fn max_len(a: Seq<u8>, b: Seq<u8>) -> nat {
    if a.len() >= b.len() {
        a.len()
    } else {
        b.len()
    }
}

/// Walks over the bytes of a number written out to a given length, from the
/// most significant byte down: first the zeros that the number lacks, then
/// its own bytes.
pub struct LeadingZeroRevIter<'a> {
    body: &'a [u8],
    left: usize,
    leading_zeros: usize,
}

impl<'a> LeadingZeroRevIter<'a> {
    /// The bytes of the number.
    pub closed spec fn source(&self) -> Seq<u8> {
        self.body@
    }

    /// The number of bytes that are still to come.
    pub closed spec fn remaining(&self) -> int {
        self.leading_zeros + self.left
    }

    /// The bytes of the number come after the zeros.
    pub closed spec fn wf(&self) -> bool {
        &&& self.left <= self.body@.len()
        &&& self.leading_zeros > 0 ==> self.left == self.body@.len()
    }

    /// A walk over `input` written out to `length` bytes.
    pub fn new(input: &'a [u8], length: usize) -> (it: Self)
        requires
            input@.len() <= length,
        ensures
            it.wf(),
            it.source() == input@,
            it.remaining() == length,
    {
        Self { body: input, left: input.len(), leading_zeros: length - input.len() }
    }

    /// The next byte down, if one is left.
    pub fn next(&mut self) -> (r: Option<u8>)
        requires
            old(self).wf(),
        ensures
            final(self).wf(),
            final(self).source() == old(self).source(),
            old(self).remaining() > 0 ==> r == Some(
                ext(old(self).source(), old(self).remaining() - 1),
            ) && final(self).remaining() == old(self).remaining() - 1,
            old(self).remaining() <= 0 ==> r is None && final(self).remaining() == 0,
    {
        if self.leading_zeros > 0 {
            self.leading_zeros -= 1;
            return Some(0);
        }
        if self.left > 0 {
            self.left -= 1;
            Some(self.body[self.left])
        } else {
            None
        }
    }
}

impl Ubig {
    /// Byte `i` of the number; zero past its last byte.
    pub fn byte_at(&self, i: usize) -> (b: u8)
        ensures
            b == ext(self@, i as int),
    {
        if i < self.0.len() {
            self.0[i]
        } else {
            0
        }
    }

    /// Whether two numbers are equal. Zero bytes at the end do not count.
    pub fn eq(&self, other: &Self) -> (r: bool)
        ensures
            r == (self.value() == other.value()),
    {
        let length: usize = if self.0.len() >= other.0.len() {
            self.0.len()
        } else {
            other.0.len()
        };
        let ghost pa = padded(self@, length as nat);
        let ghost pb = padded(other@, length as nat);
        proof {
            lemma_val_padded(self@, length as nat);
            lemma_val_padded(other@, length as nat);
        }
        let mut i: usize = 0;
        while i < length
            invariant
                i <= length,
                pa == padded(self@, length as nat),
                pb == padded(other@, length as nat),
                val(pa) == val(self@),
                val(pb) == val(other@),
                forall|j: int| 0 <= j < i ==> pa[j] == pb[j],
            decreases length - i,
        {
            if self.byte_at(i) != other.byte_at(i) {
                proof {
                    if val(pa) == val(pb) {
                        lemma_val_injective(pa, pb);
                        assert(pa[i as int] == pb[i as int]);
                    }
                }
                return false;
            }
            i += 1;
        }
        assert(pa =~= pb);
        true
    }

    /// How the number stands to another: -1 where it is less, 0 where the
    /// two are equal, 1 where it is greater.
    pub fn compare(&self, other: &Self) -> (r: i8)
        ensures
            r == -1 <==> self.value() < other.value(),
            r == 0 <==> self.value() == other.value(),
            r == 1 <==> self.value() > other.value(),
            r == -1 || r == 0 || r == 1,
    {
        let length: usize = if self.0.len() >= other.0.len() {
            self.0.len()
        } else {
            other.0.len()
        };
        let mut lhs = LeadingZeroRevIter::new(self.0.as_slice(), length);
        let mut rhs = LeadingZeroRevIter::new(other.0.as_slice(), length);
        let ghost pa = padded(self@, length as nat);
        let ghost pb = padded(other@, length as nat);
        proof {
            lemma_val_padded(self@, length as nat);
            lemma_val_padded(other@, length as nat);
        }
        loop
            invariant
                lhs.wf(),
                rhs.wf(),
                lhs.source() == self@,
                rhs.source() == other@,
                0 <= lhs.remaining() <= length,
                lhs.remaining() == rhs.remaining(),
                pa == padded(self@, length as nat),
                pb == padded(other@, length as nat),
                val(pa) == val(self@),
                val(pb) == val(other@),
                forall|j: int| lhs.remaining() <= j < length ==> pa[j] == pb[j],
            ensures
                pa == pb,
            decreases lhs.remaining(),
        {
            let ghost k = lhs.remaining() - 1;
            match (lhs.next(), rhs.next()) {
                (Some(a), Some(b)) => {
                    if a > b {
                        proof {
                            lemma_val_decided_at(pa, pb, k);
                        }
                        return 1;
                    } else if b > a {
                        proof {
                            lemma_val_decided_at(pb, pa, k);
                        }
                        return -1;
                    }
                },
                _ => {
                    assert(pa =~= pb);
                    break ;
                },
            }
        }
        0
    }

    /// Takes another number off this one, byte by byte over the bytes of
    /// this one. Where the other number is greater, the result wraps round
    /// at 256 to the number of bytes.
    pub fn sub_assign(&mut self, rhs: &Ubig)
        ensures
            final(self)@.len() == old(self)@.len(),
            old(self).value() >= val(padded(rhs@, old(self)@.len())) ==> final(self).value() == old(
                self,
            ).value() - val(padded(rhs@, old(self)@.len())),
            old(self).value() < val(padded(rhs@, old(self)@.len())) ==> final(self).value() == old(
                self,
            ).value() - val(padded(rhs@, old(self)@.len())) + pow256(old(self)@.len()),
            old(self).value() >= rhs.value() ==> final(self).value() == old(self).value()
                - rhs.value(),
    {
        let n: usize = self.0.len();
        let ghost r = padded(rhs@, n as nat);
        let mut loan: u8 = 0;
        let mut i: usize = 0;
        proof {
            lemma_pow256(0);
            assert(self@.subrange(0, 0) =~= Seq::<u8>::empty());
            assert(r.subrange(0, 0) =~= Seq::<u8>::empty());
        }
        while i < n
            invariant
                i <= n,
                n == self@.len(),
                n == old(self)@.len(),
                r == padded(rhs@, n as nat),
                loan <= 1,
                forall|j: int| i <= j < n ==> self@[j] == old(self)@[j],
                val(self@.subrange(0, i as int)) + val(r.subrange(0, i as int)) == val(
                    old(self)@.subrange(0, i as int),
                ) + loan * pow256(i as nat),
            decreases n - i,
        {
            let byte: u8 = self.0[i];
            let sub: u8 = rhs.byte_at(i);
            let mut res: i32 = byte as i32 - loan as i32 - sub as i32;
            let ghost old_loan = loan;
            let ghost done = self@.subrange(0, i as int);
            loan = 0;
            if res < 0 {
                res += 256;
                loan = 1;
            }
            let new_byte: u8 = res as u8;
            self.0[i] = new_byte;
            proof {
                assert(self@.subrange(0, i + 1) =~= done.push(new_byte));
                assert(r.subrange(0, i + 1) =~= r.subrange(0, i as int).push(sub));
                assert(old(self)@.subrange(0, i + 1) =~= old(self)@.subrange(0, i as int).push(
                    byte,
                ));
                lemma_val_push(done, new_byte);
                lemma_val_push(r.subrange(0, i as int), sub);
                lemma_val_push(old(self)@.subrange(0, i as int), byte);
                lemma_pow256(i as nat);
                let p = pow256(i as nat);
                assert(new_byte + sub + old_loan == byte + 256 * loan);
                assert(p * new_byte + p * sub + old_loan * p == p * byte + loan * (256 * p))
                    by (nonlinear_arith)
                    requires
                        new_byte + sub + old_loan == byte + 256 * loan,
                ;
            }
            i += 1;
        }
        proof {
            assert(self@.subrange(0, n as int) =~= self@);
            assert(r.subrange(0, n as int) =~= r);
            assert(old(self)@.subrange(0, n as int) =~= old(self)@);
            crate::ubig::value::lemma_val_bound(self@);
            crate::ubig::value::lemma_val_bound(r);
            crate::ubig::value::lemma_val_bound(old(self)@);
            let p = pow256(n as nat);
            assert(loan * p == if loan == 1 {
                p
            } else {
                0
            }) by (nonlinear_arith)
                requires
                    loan == 0 || loan == 1,
            ;
            if val(old(self)@) >= val(rhs@) {
                lemma_val_fits(rhs@, n as nat);
            }
        }
    }
}

} // verus!
