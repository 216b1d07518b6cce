//! Powers modulo a number, by squaring and multiplying.

use vstd::prelude::*;
use vstd::arithmetic::div_mod::{
    lemma_fundamental_div_mod, lemma_mul_mod_noop_general, lemma_small_mod,
};
use vstd::arithmetic::power::{
    lemma_pow0, lemma_pow1, lemma_pow_adds, lemma_pow_mod_noop, lemma_pow_multiplies,
    lemma_square_is_pow2, pow,
};
use vstd::arithmetic::power2::lemma2_to64;
use crate::ubig::value::val;
use crate::ubig::{significant_len, Ubig};

verus! {

/// The power of a number modulo another; one where the exponent is zero,
/// whatever the modulus.
pub open spec fn modexp_spec(base: nat, exponent: nat, modulus: nat) -> nat {
    if exponent == 0 {
        1
    } else {
        (pow(base as int, exponent) % (modulus as int)) as nat
    }
}

/// One step of squaring and multiplying leaves the product of the result so
/// far and the power that is still to be taken unchanged modulo `m`.
pub proof fn lemma_modexp_step(r: nat, b: nat, e: nat, m: nat)
    requires
        m > 0,
        e > 0,
    ensures
        ({
            let r2 = if e % 2 == 1 {
                (r * b) % m
            } else {
                r
            };
            let b2 = (b * b) % m;
            (r2 * pow(b2 as int, e / 2)) % (m as int) == (r * pow(b as int, e)) % (m as int)
        }),
{
    let q = e / 2;
    let bit = e % 2;
    let mi = m as int;
    let bi = b as int;
    let sq = (b * b) as int;
    let b2 = (b * b) % m;
    lemma_fundamental_div_mod(e as int, 2);
    // The power of the squared base is the power of the base with the
    // exponent doubled.
    lemma_square_is_pow2(bi);
    lemma_pow_multiplies(bi, 2, q);
    lemma_pow_mod_noop(sq, q, mi);
    let pq = pow(sq, q);
    assert(pow(bi, 2 * q) == pq);
    assert(pow(b2 as int, q) % mi == pq % mi);
    lemma_pow_adds(bi, 2 * q, bit);
    lemma_pow0(bi);
    lemma_pow1(bi);
    assert(e == 2 * q + bit);
    if bit == 1 {
        let r2 = (r * b) % m;
        assert(pow(bi, e) == pq * bi);
        lemma_mul_mod_noop_general(r2 as int, pow(b2 as int, q), mi);
        lemma_mul_mod_noop_general((r * b) as int, pq, mi);
        assert(((r2 as int) * (pq % mi)) % mi == (((r * b) as int) * pq) % mi) by {
            lemma_mul_mod_noop_general((r * b) as int, pq % mi, mi);
            lemma_mul_mod_noop_general((r * b) as int, pq, mi);
        }
        assert((r * b) as int * pq == r * (pq * bi)) by (nonlinear_arith)
            requires
                bi == b,
        ;
    } else {
        assert(pow(bi, e) == pq * 1);
        assert(pq * 1 == pq) by (nonlinear_arith);
        lemma_mul_mod_noop_general(r as int, pow(b2 as int, q), mi);
        lemma_mul_mod_noop_general(r as int, pq, mi);
    }
}

impl Ubig {
    /// The power `base` to the `exponent`, modulo `modulus`; one where the
    /// exponent is zero.
    pub fn modexp(base: Self, exponent: Self, modulus: Self) -> (r: Self)
        requires
            modulus.value() > 0,
            2 * modulus@.len() <= usize::MAX,
        ensures
            r.value() == modexp_spec(base.value(), exponent.value(), modulus.value()),
            significant_len(r@) == r@.len(),
    {
        let mut exponent = exponent;
        let mut res = Ubig(vec![1u8]);
        let ghost b0 = base.value();
        let ghost e0 = exponent.value();
        let ghost m = modulus.value();
        let mut base = base.rem(&modulus);
        let two = Ubig(vec![2u8]);
        let ghost mut touched = false;
        proof {
            assert(res@ =~= seq![1u8]);
            assert(two@ =~= seq![2u8]);
            assert(res@.drop_first() =~= Seq::<u8>::empty());
            assert(two@.drop_first() =~= Seq::<u8>::empty());
            assert(val(Seq::<u8>::empty()) == 0);
            assert(val(res@) == 1);
            assert(val(two@) == 2);
            crate::ubig::value::lemma_val_zero_iff(modulus@);
            lemma_pow_mod_noop(b0 as int, e0, m as int);
            lemma_mul_mod_noop_general(1, pow(base.value() as int, e0), m as int);
            assert(1 * pow(base.value() as int, e0) == pow(base.value() as int, e0))
                by (nonlinear_arith);
            assert(1 * pow(b0 as int, e0) == pow(b0 as int, e0)) by (nonlinear_arith);
        }
        while exponent.not_zero()
            invariant
                m == modulus.value(),
                m > 0,
                2 * modulus@.len() <= usize::MAX,
                modulus@.len() >= 1,
                two.value() == 2,
                exponent.value() <= e0,
                base.value() < m,
                base@.len() <= modulus@.len(),
                res@.len() <= modulus@.len(),
                significant_len(res@) == res@.len(),
                touched ==> res.value() < m && e0 != 0,
                !touched ==> res.value() == 1 && (exponent.value() == 0 ==> e0 == 0),
                (res.value() * pow(base.value() as int, exponent.value())) % (m as int) == pow(
                    b0 as int,
                    e0,
                ) % (m as int),
            decreases exponent.value(),
        {
            let ghost e = exponent.value();
            let ghost b = base.value();
            let ghost r = res.value();
            proof {
                lemma_modexp_step(r, b, e, m);
                lemma_fundamental_div_mod(e as int, 2);
                lemma2_to64();
            }
            if exponent.clone().rem(&two).is_one() {
                res = res.mul(base.clone()).rem(&modulus);
                proof {
                    touched = true;
                    vstd::arithmetic::div_mod::lemma_mod_bound((r * b) as int, m as int);
                }
            }
            exponent.shr_assign(1);
            base = base.clone().mul(base).rem(&modulus);
            proof {
                vstd::arithmetic::div_mod::lemma_mod_bound((b * b) as int, m as int);
            }
        }
        proof {
            lemma_pow0(base.value() as int);
            assert(res.value() * 1 == res.value()) by (nonlinear_arith);
            if touched {
                lemma_small_mod(res.value(), m);
            }
        }
        res
    }
}

} // verus!
