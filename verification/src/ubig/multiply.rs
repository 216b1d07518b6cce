//! The product of two numbers, byte by byte.

use vstd::prelude::*;
use crate::ubig::compare::max_len;
use crate::ubig::value::{
    lemma_pow256, lemma_pow256_adds, lemma_pow256_increases, lemma_val_bound, lemma_val_push,
    lemma_val_split, lemma_val_strip, lemma_val_update, lemma_val_zeros, pow256, val,
};
use crate::ubig::{lemma_significant_len_of_prefix, significant_len, Ubig};

verus! {

/// The first bytes of a number stand for no more than the number.
pub proof fn lemma_val_prefix_le(b: Seq<u8>, i: int)
    requires
        0 <= i <= b.len(),
    ensures
        val(b.subrange(0, i)) <= val(b),
{
    lemma_val_split(b, i);
    lemma_pow256(i as nat);
    assert(pow256(i as nat) * val(b.subrange(i, b.len() as int)) >= 0) by (nonlinear_arith)
        requires
            pow256(i as nat) >= 0,
            val(b.subrange(i, b.len() as int)) >= 0,
    ;
}

/// The product of a number of `la` bytes and one of `lb` bytes is below 256
/// to the `la + lb`.
pub proof fn lemma_product_bound(x: nat, y: nat, la: nat, lb: nat)
    requires
        x < pow256(la),
        y < pow256(lb),
    ensures
        x * y < pow256(la + lb),
{
    lemma_pow256_adds(la, lb);
    assert(x * y < pow256(la) * pow256(lb)) by (nonlinear_arith)
        requires
            x < pow256(la),
            y < pow256(lb),
    ;
}

impl Ubig {
    /// The product of two numbers, without zero bytes at its end.
    pub fn mul(self, rhs: Self) -> (r: Self)
        requires
            2 * max_len(self@, rhs@) <= usize::MAX,
        ensures
            r.value() == self.value() * rhs.value(),
            significant_len(r@) == r@.len(),
    {
        let la: usize = self.0.len();
        let lb: usize = rhs.0.len();
        let length: usize = if la >= lb {
            la
        } else {
            lb
        };
        let total: usize = 2 * length;
        let mut work: Vec<u8> = vec![0u8; total];
        let ghost big_b = val(rhs@);
        proof {
            lemma_val_zeros(work@);
            assert(self@.subrange(0, 0) =~= Seq::<u8>::empty());
            assert(val(Seq::<u8>::empty()) * big_b == 0) by (nonlinear_arith)
                requires
                    val(Seq::<u8>::empty()) == 0,
            ;
            lemma_val_bound(rhs@);
        }
        let mut ia: usize = 0;
        while ia < la
            invariant
                ia <= la,
                la == self@.len(),
                lb == rhs@.len(),
                la <= length,
                lb <= length,
                total == 2 * length,
                work@.len() == total,
                big_b == val(rhs@),
                big_b < pow256(lb as nat),
                val(work@) == val(self@.subrange(0, ia as int)) * big_b,
            decreases la - ia,
        {
            let a: u8 = self.0[ia];
            let ghost done_a = val(self@.subrange(0, ia as int));
            let mut ib: usize = 0;
            proof {
                assert(rhs@.subrange(0, 0) =~= Seq::<u8>::empty());
                assert(a * val(Seq::<u8>::empty()) * pow256(ia as nat) == 0) by (nonlinear_arith)
                    requires
                        val(Seq::<u8>::empty()) == 0,
                ;
                assert(self@.subrange(0, ia + 1) =~= self@.subrange(0, ia as int).push(a));
                lemma_val_push(self@.subrange(0, ia as int), a);
                lemma_val_prefix_le(self@, ia + 1);
                lemma_val_bound(self@.subrange(0, ia + 1));
            }
            while ib < lb
                invariant
                    ib <= lb,
                    ia < la,
                    la == self@.len(),
                    lb == rhs@.len(),
                    la <= length,
                    lb <= length,
                    total == 2 * length,
                    work@.len() == total,
                    a == self@[ia as int],
                    big_b == val(rhs@),
                    big_b < pow256(lb as nat),
                    done_a == val(self@.subrange(0, ia as int)),
                    val(self@.subrange(0, ia + 1)) == done_a + pow256(ia as nat) * a,
                    val(self@.subrange(0, ia + 1)) < pow256((ia + 1) as nat),
                    val(work@) == done_a * big_b + a * val(rhs@.subrange(0, ib as int)) * pow256(
                        ia as nat,
                    ),
                decreases lb - ib,
            {
                let b: u8 = rhs.0[ib];
                let k: usize = ia + ib;
                let ghost before = work@;
                let ghost part_b = val(rhs@.subrange(0, ib as int));
                let ghost next_b = val(rhs@.subrange(0, ib + 1));
                let ghost target = done_a * big_b + a * next_b * pow256(ia as nat);
                assert(a * b + work[k as int] <= 255 * 255 + 255) by (nonlinear_arith)
                    requires
                        a <= 255,
                        b <= 255,
                        work[k as int] <= 255,
                ;
                let mul: u16 = (a as u16) * (b as u16) + (work[k] as u16);
                let slot: u8 = (mul % 256) as u8;
                work[k] = slot;
                let mut carry: u8 = (mul / 256) as u8;
                let mut j: usize = k + 1;
                proof {
                    assert(rhs@.subrange(0, ib + 1) =~= rhs@.subrange(0, ib as int).push(b));
                    lemma_val_push(rhs@.subrange(0, ib as int), b);
                    lemma_val_update(before, k as int, slot);
                    lemma_pow256(k as nat);
                    lemma_pow256_adds(ia as nat, ib as nat);
                    let pk = pow256(k as nat);
                    let pa = pow256(ia as nat);
                    let pb = pow256(ib as nat);
                    assert(val(work@) + carry * pow256((k + 1) as nat) == target) by (nonlinear_arith)
                        requires
                            val(work@) == val(before) - pk * before[k as int] + pk * slot,
                            pow256((k + 1) as nat) == 256 * pk,
                            pk == pa * pb,
                            slot + 256 * carry == a * b + before[k as int],
                            val(before) == done_a * big_b + a * part_b * pa,
                            next_b == part_b + pb * b,
                            target == done_a * big_b + a * next_b * pa,
                    ;
                    // The sum so far is a part of the whole product, so it
                    // has room in the work area.
                    lemma_val_prefix_le(rhs@, ib + 1);
                    lemma_product_bound(val(self@.subrange(0, ia + 1)), big_b, (ia + 1) as nat, lb as nat);
                    lemma_pow256_increases((ia + 1 + lb) as nat, total as nat);
                    assert(target <= val(self@.subrange(0, ia + 1)) * big_b) by (nonlinear_arith)
                        requires
                            target == done_a * big_b + a * next_b * pa,
                            val(self@.subrange(0, ia + 1)) == done_a + pa * a,
                            next_b <= big_b,
                            pa >= 0,
                    ;
                }
                while j < total
                    invariant
                        k + 1 <= j <= total,
                        work@.len() == total,
                        target < pow256(total as nat),
                        val(work@) + carry * pow256(j as nat) == target,
                        j == total ==> carry == 0,
                    ensures
                        carry == 0,
                        val(work@) + carry * pow256(j as nat) == target,
                        work@.len() == total,
                    decreases total - j,
                {
                    if carry == 0 {
                        proof {
                            assert(carry * pow256(j as nat) == 0) by (nonlinear_arith)
                                requires
                                    carry == 0,
                            ;
                        }
                        break ;
                    }
                    let ghost cur = work@;
                    let sum: u16 = (work[j] as u16) + (carry as u16);
                    let low: u8 = (sum % 256) as u8;
                    work[j] = low;
                    let ghost old_carry = carry;
                    carry = (sum / 256) as u8;
                    proof {
                        lemma_val_update(cur, j as int, low);
                        lemma_pow256(j as nat);
                        let pj = pow256(j as nat);
                        assert(val(work@) + carry * pow256((j + 1) as nat) == target)
                            by (nonlinear_arith)
                            requires
                                val(work@) == val(cur) - pj * cur[j as int] + pj * low,
                                pow256((j + 1) as nat) == 256 * pj,
                                low + 256 * carry == cur[j as int] + old_carry,
                                val(cur) + old_carry * pj == target,
                        ;
                    }
                    j += 1;
                    proof {
                        if j == total {
                            let pt = pow256(total as nat);
                            assert(carry == 0) by (nonlinear_arith)
                                requires
                                    val(work@) + carry * pt == target,
                                    target < pt,
                                    val(work@) >= 0,
                                    carry >= 0,
                            ;
                        }
                    }
                }
                proof {
                    assert(carry * pow256(j as nat) == 0) by (nonlinear_arith)
                        requires
                            carry == 0,
                    ;
                }
                ib += 1;
            }
            proof {
                assert(rhs@.subrange(0, lb as int) =~= rhs@);
                let pa = pow256(ia as nat);
                assert(done_a * big_b + a * big_b * pa == (done_a + pa * a) * big_b)
                    by (nonlinear_arith);
            }
            ia += 1;
        }
        proof {
            assert(self@.subrange(0, la as int) =~= self@);
        }
        let ghost full = work@;
        let mut keep: usize = total;
        while keep > 0 && work[keep - 1] == 0
            invariant
                keep <= total,
                work@.len() == total,
                work@ == full,
                forall|i: int| keep <= i < total ==> work@[i] == 0,
            decreases keep,
        {
            keep -= 1;
        }
        work.truncate(keep);
        proof {
            lemma_val_strip(full, keep as int);
            lemma_significant_len_of_prefix(work@);
        }
        Ubig(work)
    }
}

} // verus!
