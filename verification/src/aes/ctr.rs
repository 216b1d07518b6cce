//! Counter mode: the cipher turned into a stream of key bytes.
//!
//! Keystream block `i` is the encryption of the counter block made of the
//! nonce and of `i`, each as eight bytes with the least significant first.

use vstd::prelude::*;
use crate::aes::block::Block;
use crate::aes::cipher::{cipher, cipher_spec, usable_schedule};
use crate::aes::key::{key_schedule_spec, AesKey};

verus! {

/// Byte `k` of a value, counted from the least significant one.
pub open spec fn le_byte(x: u64, k: int) -> u8 {
    (x >> ((8 * k) as u64)) as u8
}

/// The block that is encrypted for keystream block `counter`.
pub open spec fn counter_block_spec(nonce: u64, counter: u64) -> Seq<u8> {
    Seq::new(
        16,
        |i: int|
            if i < 8 {
                le_byte(nonce, i)
            } else {
                le_byte(counter, i - 8)
            },
    )
}

/// Keystream block `i` under a schedule and a nonce.
pub open spec fn keystream_block(w: Seq<u32>, nonce: u64, i: int) -> Seq<u8> {
    cipher_spec(counter_block_spec(nonce, i as u64), w)
}

/// Byte `k` of the keystream.
pub open spec fn keystream_byte(w: Seq<u32>, nonce: u64, k: int) -> u8 {
    keystream_block(w, nonce, k / 16)[k % 16]
}

/// The buffer xored byte by byte with the start of the keystream.
pub open spec fn ctr_spec(m: Seq<u8>, w: Seq<u32>, nonce: u64) -> Seq<u8> {
    Seq::new(m.len(), |k: int| m[k] ^ keystream_byte(w, nonce, k))
}

/// The counter block of a nonce and a counter.
pub fn counter_block(nonce: u64, counter: u64) -> (b: Block)
    ensures
        b@ == counter_block_spec(nonce, counter),
{
    let mut block: [u8; 16] = [0u8; 16];
    let mut k: u64 = 0;
    while k < 8
        invariant
            k <= 8,
            forall|j: int| 0 <= j < k ==> block@[j] == le_byte(nonce, j),
            forall|j: int| 0 <= j < k ==> block@[8 + j] == le_byte(counter, j),
        decreases 8 - k,
    {
        block[k as usize] = #[verifier::truncate]
        ((nonce >> (8 * k)) as u8);
        block[8 + k as usize] = #[verifier::truncate]
        ((counter >> (8 * k)) as u8);
        k += 1;
    }
    assert(block@ =~= counter_block_spec(nonce, counter));
    Block(block)
}

/// A cursor over the keystream of a key and a nonce. It starts at the first
/// byte of the keystream and hands out one byte after the other.
pub struct AesCtrIter {
    key_schedule: Vec<u32>,
    block: Block,
    nonce: u64,
    counter: u64,
    index: usize,
}

impl AesCtrIter {
    /// Where the cursor stands inside a block, that block is the keystream
    /// block of the last counter used.
    pub closed spec fn wf(&self) -> bool {
        &&& usable_schedule(self.key_schedule@)
        &&& self.index <= 16
        &&& self.index < 16 ==> self.counter >= 1 && self.block@ == keystream_block(
            self.key_schedule@,
            self.nonce,
            self.counter - 1,
        )
    }

    /// The schedule of the key that the keystream is made with.
    pub closed spec fn schedule(&self) -> Seq<u32> {
        self.key_schedule@
    }

    /// The nonce that the keystream is made with.
    pub closed spec fn nonce(&self) -> u64 {
        self.nonce
    }

    /// The number of keystream bytes handed out so far.
    pub closed spec fn position(&self) -> nat {
        if self.index >= 16 {
            16 * (self.counter as nat)
        } else {
            (16 * (self.counter - 1) + self.index) as nat
        }
    }

    /// The most bytes that one cursor hands out: the counter has 64 bits.
    pub open spec fn limit() -> nat {
        16 * 0xffff_ffff_ffff_ffff
    }

    /// A cursor at the start of the keystream of `key` and `nonce`.
    pub fn new(key: &AesKey, nonce: u64) -> (it: Self)
        ensures
            it.wf(),
            it.schedule() == key_schedule_spec(key@),
            it.nonce() == nonce,
            it.position() == 0,
    {
        proof {
            key.lemma_valid_len();
        }
        Self { key_schedule: key.schedule(), block: Block([0u8; 16]), nonce, counter: 0, index: 16 }
    }

    /// Makes the next keystream block and puts the cursor at its start.
    fn make_block(&mut self)
        requires
            old(self).wf(),
            old(self).index >= 16,
            old(self).counter < u64::MAX,
        ensures
            final(self).wf(),
            final(self).index == 0,
            final(self).schedule() == old(self).schedule(),
            final(self).nonce() == old(self).nonce(),
            final(self).position() == old(self).position(),
    {
        let block = counter_block(self.nonce, self.counter);
        self.block = cipher(block, self.key_schedule.as_slice());
        self.counter += 1;
        self.index = 0;
    }

    /// The next byte of the keystream. The stream never ends by itself.
    pub fn next(&mut self) -> (r: Option<u8>)
        requires
            old(self).wf(),
            old(self).position() < Self::limit(),
        ensures
            final(self).wf(),
            final(self).schedule() == old(self).schedule(),
            final(self).nonce() == old(self).nonce(),
            final(self).position() == old(self).position() + 1,
            r == Some(keystream_byte(old(self).schedule(), old(self).nonce(), old(self).position() as int)),
    {
        if self.index > 15 {
            self.make_block();
        }
        let byte = self.block.0[self.index];
        self.index += 1;
        Some(byte)
    }
}

/// Encrypts or decrypts a buffer in CTR mode: the two are the same. The
/// result is as long as the input.
pub fn aes_ctr(input: &[u8], key: &AesKey, nonce: u64) -> (out: Vec<u8>)
    ensures
        out@ == ctr_spec(input@, key_schedule_spec(key@), nonce),
        out@.len() == input@.len(),
{
    let key_schedule = key.schedule();
    let len: usize = input.len();
    let mut out: Vec<u8> = Vec::new();
    let mut pos: usize = 0;
    let mut i: u64 = 0;
    proof {
        key.lemma_valid_len();
    }
    while pos < len
        invariant
            len == input@.len(),
            usable_schedule(key_schedule@),
            key_schedule@ == key_schedule_spec(key@),
            pos <= len,
            pos == len || pos == 16 * i,
            out@ == ctr_spec(input@.subrange(0, pos as int), key_schedule@, nonce),
        decreases len - pos,
    {
        let gen_block = cipher(counter_block(nonce, i), key_schedule.as_slice());
        let input_block_len: usize = if len - pos < 16 {
            len - pos
        } else {
            16
        };
        let mut j: usize = 0;
        while j < input_block_len
            invariant
                len == input@.len(),
                pos + input_block_len <= len,
                input_block_len <= 16,
                pos == 16 * i,
                j <= input_block_len,
                gen_block@ == keystream_block(key_schedule@, nonce, i as int),
                out@ == ctr_spec(input@.subrange(0, pos + j), key_schedule@, nonce),
            decreases input_block_len - j,
        {
            out.push(input[pos + j] ^ gen_block.0[j]);
            proof {
                assert((pos + j) / 16 == i as int);
                assert((pos + j) % 16 == j as int);
                assert(out@ =~= ctr_spec(input@.subrange(0, pos + j + 1), key_schedule@, nonce));
            }
            j += 1;
        }
        pos = pos + input_block_len;
        if pos < len {
            i += 1;
        }
    }
    assert(input@.subrange(0, len as int) =~= input@);
    out
}

} // verus!
