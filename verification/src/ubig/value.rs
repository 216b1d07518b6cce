//! The number that a sequence of bytes stands for, least significant byte
//! first, and what holds of it.

use vstd::prelude::*;
use vstd::arithmetic::power::{lemma_pow0, lemma_pow1, lemma_pow_adds, lemma_pow_positive, pow};

verus! {

/// 256 to the power of `n`.
pub open spec fn pow256(n: nat) -> nat {
    pow(256, n) as nat
}

/// The number that the bytes stand for, least significant byte first.
pub open spec fn val(b: Seq<u8>) -> nat
    decreases b.len(),
{
    if b.len() == 0 {
        0
    } else {
        (b[0] as nat) + 256 * val(b.drop_first())
    }
}

/// Byte `i` of a number written with as many bytes as one likes: zero past
/// the end of the sequence.
pub open spec fn ext(b: Seq<u8>, i: int) -> u8 {
    if 0 <= i < b.len() {
        b[i]
    } else {
        0
    }
}

/// The powers of 256 are positive, and each is 256 times the one before it.
pub proof fn lemma_pow256(n: nat)
    ensures
        pow256(n) > 0,
        pow256(n + 1) == 256 * pow256(n),
        pow256(0) == 1,
{
    lemma_pow_positive(256, n);
    lemma_pow_positive(256, n + 1);
    lemma_pow0(256);
    lemma_pow1(256);
    lemma_pow_adds(256, 1, n);
}

/// The power of a sum is the product of the powers.
pub proof fn lemma_pow256_adds(a: nat, b: nat)
    ensures
        pow256(a + b) == pow256(a) * pow256(b),
{
    lemma_pow_adds(256, a, b);
    lemma_pow_positive(256, a);
    lemma_pow_positive(256, b);
    lemma_pow_positive(256, a + b);
}

/// The powers of 256 grow with the exponent.
pub proof fn lemma_pow256_increases(a: nat, b: nat)
    requires
        a <= b,
    ensures
        pow256(a) <= pow256(b),
{
    lemma_pow256_adds(a, (b - a) as nat);
    lemma_pow256(a);
    lemma_pow256((b - a) as nat);
    assert(pow256(a) * pow256((b - a) as nat) >= pow256(a)) by (nonlinear_arith)
        requires
            pow256((b - a) as nat) >= 1,
            pow256(a) >= 0,
    ;
}

/// A number written with `n` bytes is below 256 to the `n`.
pub proof fn lemma_val_bound(b: Seq<u8>)
    ensures
        val(b) < pow256(b.len()),
    decreases b.len(),
{
    if b.len() == 0 {
        lemma_pow256(0);
    } else {
        lemma_val_bound(b.drop_first());
        lemma_pow256(b.drop_first().len());
    }
}

/// The number of two sequences one after the other.
pub proof fn lemma_val_concat(a: Seq<u8>, b: Seq<u8>)
    ensures
        val(a + b) == val(a) + pow256(a.len()) * val(b),
    decreases a.len(),
{
    if a.len() == 0 {
        assert(a + b =~= b);
        lemma_pow256(0);
        assert(pow256(0) * val(b) == val(b)) by (nonlinear_arith)
            requires
                pow256(0) == 1,
        ;
    } else {
        assert((a + b).drop_first() =~= a.drop_first() + b);
        assert((a + b)[0] == a[0]);
        lemma_val_concat(a.drop_first(), b);
        lemma_pow256(a.drop_first().len());
        let p = pow256(a.drop_first().len());
        let v = val(b);
        assert(256 * (p * v) == (256 * p) * v) by (nonlinear_arith);
        assert(pow256(a.len()) == 256 * p);
    }
}

/// The number of a sequence with one more byte at its end.
pub proof fn lemma_val_push(b: Seq<u8>, x: u8)
    ensures
        val(b.push(x)) == val(b) + pow256(b.len()) * x,
{
    assert(b.push(x) =~= b + seq![x]);
    lemma_val_concat(b, seq![x]);
    assert(seq![x].drop_first() =~= Seq::<u8>::empty());
    assert(val(Seq::<u8>::empty()) == 0);
    assert(val(seq![x]) == x);
}

/// A sequence cut in two at place `i`.
pub proof fn lemma_val_split(b: Seq<u8>, i: int)
    requires
        0 <= i <= b.len(),
    ensures
        val(b) == val(b.subrange(0, i)) + pow256(i as nat) * val(b.subrange(i, b.len() as int)),
{
    assert(b =~= b.subrange(0, i) + b.subrange(i, b.len() as int));
    lemma_val_concat(b.subrange(0, i), b.subrange(i, b.len() as int));
}

/// The number of a sequence with one byte replaced.
pub proof fn lemma_val_update(b: Seq<u8>, i: int, x: u8)
    requires
        0 <= i < b.len(),
    ensures
        val(b.update(i, x)) == val(b) - pow256(i as nat) * b[i] + pow256(i as nat) * x,
{
    let n = b.len() as int;
    let c = b.update(i, x);
    lemma_val_split(b, i);
    lemma_val_split(c, i);
    assert(c.subrange(0, i) =~= b.subrange(0, i));
    let bt = b.subrange(i, n);
    let ct = c.subrange(i, n);
    assert(ct.drop_first() =~= bt.drop_first());
    let p = pow256(i as nat);
    let t = val(bt.drop_first());
    assert(p * (b[i] as nat + 256 * t) == p * b[i] + p * (256 * t)) by (nonlinear_arith);
    assert(p * (x as nat + 256 * t) == p * x + p * (256 * t)) by (nonlinear_arith);
}

/// Zeros stand for zero.
pub proof fn lemma_val_zeros(b: Seq<u8>)
    requires
        forall|i: int| 0 <= i < b.len() ==> b[i] == 0,
    ensures
        val(b) == 0,
    decreases b.len(),
{
    if b.len() > 0 {
        lemma_val_zeros(b.drop_first());
    }
}

/// Zero bytes at the end do not change the number.
pub proof fn lemma_val_strip(b: Seq<u8>, n: int)
    requires
        0 <= n <= b.len(),
        forall|i: int| n <= i < b.len() ==> b[i] == 0,
    ensures
        val(b.subrange(0, n)) == val(b),
{
    lemma_val_split(b, n);
    lemma_val_zeros(b.subrange(n, b.len() as int));
    assert(pow256(n as nat) * 0 == 0) by (nonlinear_arith);
}

/// A number is zero exactly where all its bytes are.
pub proof fn lemma_val_zero_iff(b: Seq<u8>)
    ensures
        val(b) == 0 <==> forall|i: int| 0 <= i < b.len() ==> b[i] == 0,
    decreases b.len(),
{
    if b.len() > 0 {
        let t = b.drop_first();
        lemma_val_zero_iff(t);
        if val(b) == 0 {
            assert forall|i: int| 0 <= i < b.len() implies b[i] == 0 by {
                if i > 0 {
                    assert(t[i - 1] == b[i]);
                }
            }
        } else {
            if forall|i: int| 0 <= i < b.len() ==> b[i] == 0 {
                assert forall|i: int| 0 <= i < t.len() implies t[i] == 0 by {
                    assert(t[i] == b[i + 1]);
                }
            }
        }
    }
}

/// Two sequences of one length that stand for the same number are equal.
pub proof fn lemma_val_injective(a: Seq<u8>, b: Seq<u8>)
    requires
        a.len() == b.len(),
        val(a) == val(b),
    ensures
        a == b,
    decreases a.len(),
{
    if a.len() > 0 {
        let ta = a.drop_first();
        let tb = b.drop_first();
        assert(a[0] as nat + 256 * val(ta) == b[0] as nat + 256 * val(tb));
        assert(a[0] == b[0] && val(ta) == val(tb));
        lemma_val_injective(ta, tb);
        assert(a =~= seq![a[0]] + ta);
        assert(b =~= seq![b[0]] + tb);
    } else {
        assert(a =~= b);
    }
}

/// A sequence brought to `n` bytes: written out with zeros where it is
/// shorter, cut off where it is longer.
pub open spec fn padded(b: Seq<u8>, n: nat) -> Seq<u8> {
    Seq::new(n, |i: int| ext(b, i))
}

/// Writing a number out with more bytes does not change it.
pub proof fn lemma_val_padded(b: Seq<u8>, n: nat)
    requires
        b.len() <= n,
    ensures
        val(padded(b, n)) == val(b),
{
    let p = padded(b, n);
    assert(p.subrange(0, b.len() as int) =~= b);
    lemma_val_strip(p, b.len() as int);
}

/// A number whose highest byte is not zero is at least the power of 256 that
/// this byte stands at.
pub proof fn lemma_val_lower_bound(b: Seq<u8>)
    requires
        b.len() > 0,
        b.last() != 0,
    ensures
        val(b) >= pow256((b.len() - 1) as nat),
{
    let n = (b.len() - 1) as nat;
    lemma_val_split(b, n as int);
    let top = b.subrange(n as int, b.len() as int);
    assert(top.drop_first() =~= Seq::<u8>::empty());
    assert(val(Seq::<u8>::empty()) == 0);
    assert(val(top) == b.last());
    lemma_pow256(n);
    assert(pow256(n) * val(top) >= pow256(n)) by (nonlinear_arith)
        requires
            val(top) >= 1,
            pow256(n) > 0,
    ;
}

/// Where two numbers written with the same number of bytes agree above
/// place `k` and differ at place `k`, the one with the greater byte there is
/// the greater.
pub proof fn lemma_val_decided_at(a: Seq<u8>, b: Seq<u8>, k: int)
    requires
        a.len() == b.len(),
        0 <= k < a.len(),
        forall|j: int| k < j < a.len() ==> a[j] == b[j],
        a[k] > b[k],
    ensures
        val(a) > val(b),
{
    let n = a.len() as int;
    lemma_val_split(a, k);
    lemma_val_split(b, k);
    let ta = a.subrange(k, n);
    let tb = b.subrange(k, n);
    assert(ta.drop_first() =~= tb.drop_first());
    lemma_val_bound(b.subrange(0, k));
    let p = pow256(k as nat);
    let t = val(ta.drop_first());
    assert(val(ta) == a[k] + 256 * t);
    assert(val(tb) == b[k] + 256 * t);
    assert(p * val(ta) - p * val(tb) >= p) by (nonlinear_arith)
        requires
            val(ta) - val(tb) >= 1,
            p >= 0,
    ;
}

/// A number below 256 to the `n` is written with its first `n` bytes.
pub proof fn lemma_val_fits(b: Seq<u8>, n: nat)
    requires
        val(b) < pow256(n),
    ensures
        val(padded(b, n)) == val(b),
{
    if b.len() <= n {
        lemma_val_padded(b, n);
    } else {
        lemma_val_split(b, n as int);
        assert(b.subrange(0, n as int) =~= padded(b, n));
        let hi = val(b.subrange(n as int, b.len() as int));
        let p = pow256(n);
        assert(hi == 0) by (nonlinear_arith)
            requires
                p * hi < p,
                p > 0 || p == 0,
                hi >= 0,
        ;
        assert(p * hi == 0) by (nonlinear_arith)
            requires
                hi == 0,
        ;
    }
}

} // verus!
