//! Unsigned integers of any size, held as bytes with the least significant
//! byte first.

pub mod add;
pub mod compare;
pub mod divide;
pub mod modexp;
pub mod multiply;
pub mod order;
pub mod shift;
pub mod value;

use vstd::prelude::*;
use vstd::string::StringSliceAdditionalSpecFns;
use crate::hexcodec::{hex_decode, hex_decode_spec, hex_encode, hex_encode_spec, is_hex};
use crate::ubig::value::{
    lemma_pow256, lemma_pow256_increases, lemma_val_lower_bound, lemma_val_strip,
    lemma_val_zero_iff, val,
};

verus! {

/// An unsigned integer. Its bytes stand least significant first; zero bytes
/// at the end are allowed and do not change the number.
pub struct Ubig(pub Vec<u8>);

impl View for Ubig {
    type V = Seq<u8>;

    /// The bytes, least significant first.
    open spec fn view(&self) -> Seq<u8> {
        self.0@
    }
}

impl Clone for Ubig {
    fn clone(&self) -> (r: Self)
        ensures
            r@ == self@,
    {
        let r = Ubig(self.0.clone());
        assert(r@ =~= self@);
        r
    }
}

/// The length of a sequence of bytes without the zero bytes at its end.
pub open spec fn significant_len(b: Seq<u8>) -> nat
    decreases b.len(),
{
    if b.len() == 0 || b.last() != 0 {
        b.len()
    } else {
        significant_len(b.drop_last())
    }
}

/// The significant bytes come first, and the others are zero.
pub proof fn lemma_significant_len(b: Seq<u8>)
    ensures
        significant_len(b) <= b.len(),
        forall|i: int| significant_len(b) <= i < b.len() ==> b[i] == 0,
        significant_len(b) > 0 ==> b[significant_len(b) - 1] != 0,
        val(b.subrange(0, significant_len(b) as int)) == val(b),
    decreases b.len(),
{
    if b.len() == 0 || b.last() != 0 {
        assert(b.subrange(0, b.len() as int) =~= b);
    } else {
        let t = b.drop_last();
        lemma_significant_len(t);
        assert(forall|i: int| significant_len(b) <= i < t.len() ==> b[i] == t[i]);
        assert(t.subrange(0, significant_len(b) as int) =~= b.subrange(
            0,
            significant_len(b) as int,
        ));
        lemma_val_strip(b, t.len() as int);
        assert(b.subrange(0, t.len() as int) =~= t);
    }
}

/// A sequence whose last byte is not zero has no byte to strip.
pub proof fn lemma_significant_len_of_prefix(b: Seq<u8>)
    requires
        b.len() == 0 || b.last() != 0,
    ensures
        significant_len(b) == b.len(),
{
}

/// The bytes of a sequence in the opposite order.
pub open spec fn reversed(b: Seq<u8>) -> Seq<u8> {
    Seq::new(b.len(), |i: int| b[b.len() - 1 - i])
}

impl Ubig {
    /// The number.
    pub open spec fn value(&self) -> nat {
        val(self@)
    }

    /// The number that a hexadecimal text stands for, most significant digit
    /// first.
    pub fn new(digits: &str) -> (r: Self)
        requires
            is_hex(digits.spec_bytes()),
        ensures
            r@ == reversed(hex_decode_spec(digits.spec_bytes())),
    {
        let bytes = match hex_decode(digits) {
            Ok(bytes) => bytes,
            Err(_) => vstd::pervasive::unreached(),
        };
        Ubig(reverse(bytes.as_slice()))
    }

    /// The number that the bytes stand for, least significant byte first.
    pub fn from(value: &[u8]) -> (r: Self)
        ensures
            r@ == value@,
    {
        Ubig(vstd::slice::slice_to_vec(value))
    }

    /// The bytes of the number, least significant first.
    pub fn into_bytes(self) -> (r: Vec<u8>)
        ensures
            r@ == self@,
    {
        self.0
    }

    /// The bytes of the number, least significant first.
    pub fn as_ref(&self) -> (r: &[u8])
        ensures
            r@ == self@,
    {
        self.0.as_slice()
    }

    /// The number in hexadecimal, most significant byte first, two digits
    /// for each byte; `0` for a number without bytes.
    pub fn to_string(&self) -> (r: String)
        ensures
            self@.len() == 0 ==> r@ == seq!['0'],
            self@.len() > 0 ==> r@ == hex_encode_spec(reversed(self@)),
    {
        if self.0.len() == 0 {
            proof {
                reveal_strlit("0");
            }
            let mut zero = String::new();
            vstd::string::StringExecFns::append(&mut zero, "0");
            assert(zero@ =~= seq!['0']);
            return zero;
        }
        let bytes = reverse(self.0.as_slice());
        hex_encode(bytes.as_slice())
    }

    /// The number of bytes up to the highest one that is not zero.
    pub fn significant_bytes(&self) -> (n: usize)
        ensures
            n == significant_len(self@),
    {
        let mut n: usize = self.0.len();
        proof {
            assert(self@.subrange(0, n as int) =~= self@);
        }
        while n > 0 && self.0[n - 1] == 0
            invariant
                n <= self@.len(),
                significant_len(self@) == significant_len(self@.subrange(0, n as int)),
            decreases n,
        {
            proof {
                let cur = self@.subrange(0, n as int);
                assert(cur.drop_last() =~= self@.subrange(0, n - 1));
            }
            n -= 1;
        }
        n
    }

    /// Whether the number is not zero.
    pub fn not_zero(&self) -> (r: bool)
        ensures
            r == (self.value() != 0),
    {
        proof {
            lemma_val_zero_iff(self@);
        }
        let mut i: usize = 0;
        while i < self.0.len()
            invariant
                i <= self@.len(),
                forall|j: int| 0 <= j < i ==> self@[j] == 0,
            decreases self@.len() - i,
        {
            if self.0[i] != 0 {
                proof {
                    lemma_val_zero_iff(self@);
                    assert(self@[i as int] != 0);
                }
                return true;
            }
            i += 1;
        }
        false
    }

    /// Whether the number is one.
    pub fn is_one(&self) -> (r: bool)
        ensures
            r == (self.value() == 1),
    {
        let n = self.significant_bytes();
        proof {
            lemma_significant_len(self@);
            let s = self@.subrange(0, n as int);
            if n >= 1 {
                lemma_val_lower_bound(s);
                if n >= 2 {
                    lemma_pow256_increases(1, (n - 1) as nat);
                    lemma_pow256(0);
                } else {
                    assert(s.drop_first() =~= Seq::<u8>::empty());
                    assert(val(Seq::<u8>::empty()) == 0);
                }
            } else {
                assert(val(s) == 0);
            }
        }
        n == 1 && self.0[0] == 1
    }
}

/// The bytes in the opposite order.
pub fn reverse(bytes: &[u8]) -> (r: Vec<u8>)
    ensures
        r@ == reversed(bytes@),
{
    let n: usize = bytes.len();
    let mut out: Vec<u8> = Vec::new();
    let mut i: usize = 0;
    while i < n
        invariant
            i <= n,
            n == bytes@.len(),
            out@.len() == i,
            forall|j: int| 0 <= j < i ==> out@[j] == bytes@[n - 1 - j],
        decreases n - i,
    {
        out.push(bytes[n - 1 - i]);
        i += 1;
    }
    assert(out@ =~= reversed(bytes@));
    out
}

} // verus!
