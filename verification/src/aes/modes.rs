//! The modes of operation over byte buffers: ECB and CBC with PKCS7 padding,
//! and CTR as a stream cipher.

use vstd::prelude::*;
use crate::aes::block::{xor_spec, Block};
use crate::aes::cipher::{
    cipher, cipher_spec, inv_cipher, inv_cipher_spec, lemma_cipher_len, usable_schedule,
};
use crate::aes::key::{key_schedule_spec, to_array, AesError, AesKey};
use crate::pkcs7::{pad_inplace, pad_spec, unpad_length, unpad_length_spec, valid_padding};

verus! {

/// Block `i` of a buffer: its bytes from `16 * i` up to `16 * i + 16`.
pub open spec fn block_at(data: Seq<u8>, i: int) -> Seq<u8> {
    data.subrange(16 * i, 16 * i + 16)
}

/// The whole blocks of a buffer, in order; a rest of less than 16 bytes is
/// left out.
pub open spec fn blocks_of(data: Seq<u8>) -> Seq<Seq<u8>> {
    Seq::new(data.len() / 16, |i: int| block_at(data, i))
}

/// Walks over a buffer block by block. Made with `padded`, it ends with one
/// more block, which holds the rest of the buffer and the padding; made with
/// `exact`, it stops after the last whole block.
pub struct BlockIter<'a> {
    create_padded_block: bool,
    input: &'a [u8],
    pos: usize,
}

impl<'a> BlockIter<'a> {
    /// The position is on a block boundary inside the buffer.
    pub closed spec fn wf(&self) -> bool {
        &&& self.pos % 16 == 0
        &&& self.pos <= self.input@.len()
    }

    /// The blocks that are still to come, in order.
    pub closed spec fn remaining(&self) -> Seq<Seq<u8>> {
        let whole = Seq::new(
            ((self.input@.len() - self.pos) / 16) as nat,
            |i: int| self.input@.subrange(self.pos + 16 * i, self.pos + 16 * i + 16),
        );
        if self.create_padded_block {
            whole.push(block_at(pad_spec(self.input@, 16), self.input@.len() as int / 16))
        } else {
            whole
        }
    }

    /// All blocks of the padded buffer.
    pub fn padded(input: &'a [u8]) -> (it: Self)
        ensures
            it.wf(),
            it.remaining() == blocks_of(pad_spec(input@, 16)),
    {
        let it = Self { create_padded_block: true, input, pos: 0 };
        proof {
            let p = pad_spec(input@, 16);
            let n = input@.len() as int / 16;
            assert(p.len() == 16 * n + 16);
            assert(it.remaining().len() == n + 1);
            assert forall|i: int| 0 <= i < n + 1 implies it.remaining()[i] == blocks_of(p)[i] by {
                if i < n {
                    assert(input@.subrange(16 * i, 16 * i + 16) =~= block_at(p, i));
                }
            }
            assert(it.remaining() =~= blocks_of(p));
        }
        it
    }

    /// The whole blocks of the buffer and nothing else.
    pub fn exact(input: &'a [u8]) -> (it: Self)
        ensures
            it.wf(),
            it.remaining() == blocks_of(input@),
    {
        let it = Self { create_padded_block: false, input, pos: 0 };
        proof {
            assert(it.remaining() =~= blocks_of(input@));
        }
        it
    }

    /// The next block, if one is left.
    pub fn next(&mut self) -> (r: Option<Block>)
        requires
            old(self).wf(),
        ensures
            final(self).wf(),
            old(self).remaining().len() == 0 ==> r is None && final(self).remaining().len() == 0,
            old(self).remaining().len() > 0 ==> r is Some && r->Some_0@ == old(self).remaining()[0]
                && final(self).remaining() == old(self).remaining().drop_first(),
    {
        let len: usize = self.input.len();
        if len - self.pos >= 16 {
            let mut block: [u8; 16] = [0u8; 16];
            let mut i: usize = 0;
            while i < 16
                invariant
                    i <= 16,
                    len == self.input@.len(),
                    self.pos + 16 <= len,
                    forall|j: int| 0 <= j < i ==> block@[j] == self.input@[self.pos + j],
                decreases 16 - i,
            {
                block[i] = self.input[self.pos + i];
                i += 1;
            }
            proof {
                assert(block@ =~= old(self).remaining()[0]);
            }
            self.pos = self.pos + 16;
            proof {
                let a = self.remaining();
                let b = old(self).remaining().drop_first();
                assert(a.len() == b.len());
                assert forall|i: int| 0 <= i < a.len() implies a[i] == b[i] by {
                    if i < (self.input@.len() - self.pos) / 16 {
                        assert(self.input@.subrange(self.pos + 16 * i, self.pos + 16 * i + 16)
                            == old(self).remaining()[i + 1]);
                    }
                }
                assert(a =~= b);
            }
            Some(Block(block))
        } else if self.create_padded_block {
            self.create_padded_block = false;
            let bytes_to_copy: usize = len - self.pos;
            let mut block: [u8; 16] = [0u8; 16];
            let mut i: usize = 0;
            while i < bytes_to_copy
                invariant
                    i <= bytes_to_copy < 16,
                    len == self.input@.len(),
                    self.pos + bytes_to_copy == len,
                    forall|j: int| 0 <= j < i ==> block@[j] == self.input@[self.pos + j],
                decreases bytes_to_copy - i,
            {
                block[i] = self.input[self.pos + i];
                i += 1;
            }
            pad_inplace(&mut block, bytes_to_copy);
            proof {
                let p = pad_spec(self.input@, 16);
                assert(self.pos == 16 * (len as int / 16));
                assert(block@ =~= block_at(p, len as int / 16));
                assert(self.remaining() =~= old(self).remaining().drop_first());
            }
            Some(Block(block))
        } else {
            None
        }
    }
}

/// Appends the bytes of a block to a buffer.
pub fn append_block(out: &mut Vec<u8>, block: &Block)
    ensures
        final(out)@ == old(out)@ + block@,
{
    out.extend_from_slice(block.0.as_slice());
    assert(out@ =~= old(out)@ + block@);
}

/// The first `n` blocks of `p`, each encrypted by itself.
pub open spec fn ecb_encrypt_blocks(p: Seq<u8>, w: Seq<u32>, n: int) -> Seq<u8> {
    Seq::new((16 * n) as nat, |j: int| cipher_spec(block_at(p, j / 16), w)[j % 16])
}

/// The first `n` blocks of `c`, each decrypted by itself.
pub open spec fn ecb_decrypt_blocks(c: Seq<u8>, w: Seq<u32>, n: int) -> Seq<u8> {
    Seq::new((16 * n) as nat, |j: int| inv_cipher_spec(block_at(c, j / 16), w)[j % 16])
}

/// ECB encryption: the message is padded to whole blocks, and each block is
/// encrypted by itself.
pub open spec fn ecb_encrypt_spec(m: Seq<u8>, key: Seq<u8>) -> Seq<u8> {
    let p = pad_spec(m, 16);
    ecb_encrypt_blocks(p, key_schedule_spec(key), p.len() as int / 16)
}

/// What is left of decrypted blocks once the padding is checked and taken off.
pub open spec fn strip_padding(d: Seq<u8>) -> Result<Seq<u8>, AesError> {
    if valid_padding(d) {
        Ok(d.subrange(0, unpad_length_spec(d) as int))
    } else {
        Err(AesError::PaddingError)
    }
}

/// ECB decryption: refused unless the input is a whole number of blocks; then
/// each block is decrypted by itself and the padding is taken off.
pub open spec fn ecb_decrypt_spec(c: Seq<u8>, key: Seq<u8>) -> Result<Seq<u8>, AesError> {
    if c.len() % 16 != 0 {
        Err(AesError::IrregularDecryptLength)
    } else {
        strip_padding(ecb_decrypt_blocks(c, key_schedule_spec(key), c.len() as int / 16))
    }
}

/// Ciphertext block `i` of the CBC chain over the blocks of `p`: the
/// encryption of block `i` xored with the ciphertext block before it. The
/// block before the first one is the initialization vector.
pub open spec fn cbc_chain(p: Seq<u8>, w: Seq<u32>, iv: Seq<u8>, i: int) -> Seq<u8>
    decreases i + 1,
{
    if i < 0 {
        iv
    } else {
        cipher_spec(xor_spec(block_at(p, i), cbc_chain(p, w, iv, i - 1)), w)
    }
}

/// The first `n` ciphertext blocks of the CBC chain.
pub open spec fn cbc_encrypt_blocks(p: Seq<u8>, w: Seq<u32>, iv: Seq<u8>, n: int) -> Seq<u8> {
    Seq::new((16 * n) as nat, |j: int| cbc_chain(p, w, iv, j / 16)[j % 16])
}

/// The block that comes before block `i` in a CBC ciphertext: the
/// initialization vector before the first one.
pub open spec fn cbc_previous(c: Seq<u8>, iv: Seq<u8>, i: int) -> Seq<u8> {
    if i <= 0 {
        iv
    } else {
        block_at(c, i - 1)
    }
}

/// The first `n` blocks of a CBC ciphertext decrypted: each block is
/// decrypted and xored with the ciphertext block before it.
pub open spec fn cbc_decrypt_blocks(c: Seq<u8>, w: Seq<u32>, iv: Seq<u8>, n: int) -> Seq<u8> {
    Seq::new(
        (16 * n) as nat,
        |j: int| xor_spec(inv_cipher_spec(block_at(c, j / 16), w), cbc_previous(c, iv, j / 16))[j % 16],
    )
}

/// CBC encryption: refused unless the initialization vector is one block
/// long; then the padded message is chained block by block.
pub open spec fn cbc_encrypt_spec(m: Seq<u8>, key: Seq<u8>, iv: Seq<u8>) -> Result<
    Seq<u8>,
    AesError,
> {
    if iv.len() != 16 {
        Err(AesError::WrongSizeIv)
    } else {
        let p = pad_spec(m, 16);
        Ok(cbc_encrypt_blocks(p, key_schedule_spec(key), iv, p.len() as int / 16))
    }
}

/// CBC decryption: refused unless the input is a whole number of blocks and
/// the initialization vector is one block long (the input is looked at
/// first); then the blocks are decrypted and the padding is taken off.
pub open spec fn cbc_decrypt_spec(c: Seq<u8>, key: Seq<u8>, iv: Seq<u8>) -> Result<
    Seq<u8>,
    AesError,
> {
    if c.len() % 16 != 0 {
        Err(AesError::IrregularDecryptLength)
    } else if iv.len() != 16 {
        Err(AesError::WrongSizeIv)
    } else {
        strip_padding(cbc_decrypt_blocks(c, key_schedule_spec(key), iv, c.len() as int / 16))
    }
}

/// Encrypts a message in ECB mode. The result is always a whole number of
/// blocks and longer than the message.
pub fn aes_ecb_encrypt(input: &[u8], key: &AesKey) -> (out: Vec<u8>)
    ensures
        out@ == ecb_encrypt_spec(input@, key@),
        out@.len() == 16 * (input@.len() / 16) + 16,
{
    let key_schedule = key.schedule();
    let mut blocks = BlockIter::padded(input);
    let mut out: Vec<u8> = Vec::new();
    let ghost p = pad_spec(input@, 16);
    let ghost w = key_schedule@;
    let ghost mut k: int = 0;
    proof {
        key.lemma_valid_len();
    }
    loop
        invariant
            blocks.wf(),
            usable_schedule(w),
            w == key_schedule@,
            0 <= k <= blocks_of(p).len(),
            blocks.remaining() == blocks_of(p).skip(k),
            out@ == ecb_encrypt_blocks(p, w, k),
        ensures
            k == blocks_of(p).len(),
        decreases blocks.remaining().len(),
    {
        match blocks.next() {
            Some(block) => {
                let c = cipher(block, key_schedule.as_slice());
                append_block(&mut out, &c);
                proof {
                    assert(block@ == block_at(p, k));
                    assert(out@ =~= ecb_encrypt_blocks(p, w, k + 1));
                    assert(blocks_of(p).skip(k).drop_first() =~= blocks_of(p).skip(k + 1));
                    k = k + 1;
                }
            },
            None => {
                break ;
            },
        }
    }
    out
}

/// Decrypts an ECB ciphertext and takes the padding off.
pub fn aes_ecb_decrypt(input: &[u8], key: &AesKey) -> (r: Result<Vec<u8>, AesError>)
    ensures
        r is Ok <==> ecb_decrypt_spec(input@, key@) is Ok,
        r is Ok ==> r->Ok_0@ == ecb_decrypt_spec(input@, key@)->Ok_0,
        r is Err ==> r->Err_0 == ecb_decrypt_spec(input@, key@)->Err_0,
        input@.len() % 16 != 0 ==> r == Err::<Vec<u8>, AesError>(AesError::IrregularDecryptLength),
{
    if input.len() % 16 != 0 {
        return Err(AesError::IrregularDecryptLength);
    }
    let key_schedule = key.schedule();
    let mut blocks = BlockIter::exact(input);
    let mut cleartext: Vec<u8> = Vec::new();
    let ghost w = key_schedule@;
    let ghost mut k: int = 0;
    proof {
        key.lemma_valid_len();
    }
    loop
        invariant
            blocks.wf(),
            usable_schedule(w),
            w == key_schedule@,
            0 <= k <= blocks_of(input@).len(),
            blocks.remaining() == blocks_of(input@).skip(k),
            cleartext@ == ecb_decrypt_blocks(input@, w, k),
        ensures
            k == blocks_of(input@).len(),
        decreases blocks.remaining().len(),
    {
        match blocks.next() {
            Some(block) => {
                let d = inv_cipher(block, key_schedule.as_slice());
                append_block(&mut cleartext, &d);
                proof {
                    assert(block@ == block_at(input@, k));
                    assert(cleartext@ =~= ecb_decrypt_blocks(input@, w, k + 1));
                    assert(blocks_of(input@).skip(k).drop_first() =~= blocks_of(input@).skip(k + 1));
                    k = k + 1;
                }
            },
            None => {
                break ;
            },
        }
    }
    finish_decrypt(cleartext)
}

/// Checks the padding of decrypted blocks and takes it off.
pub fn finish_decrypt(cleartext: Vec<u8>) -> (r: Result<Vec<u8>, AesError>)
    ensures
        r is Ok <==> strip_padding(cleartext@) is Ok,
        r is Ok ==> r->Ok_0@ == strip_padding(cleartext@)->Ok_0,
        r is Err ==> r->Err_0 == AesError::PaddingError,
{
    let mut cleartext = cleartext;
    let cleartext_end = unpad_length(cleartext.as_slice());
    if cleartext_end == cleartext.len() {
        return Err(AesError::PaddingError);
    }
    cleartext.truncate(cleartext_end);
    Ok(cleartext)
}

/// Encrypts a message in CBC mode under an initialization vector of one
/// block. The result is always a whole number of blocks and longer than the
/// message.
pub fn aes_cbc_encrypt(input: &[u8], key: &AesKey, iv: &[u8]) -> (r: Result<Vec<u8>, AesError>)
    ensures
        iv@.len() == 16 ==> r is Ok,
        iv@.len() != 16 ==> r == Err::<Vec<u8>, AesError>(AesError::WrongSizeIv),
        r is Ok ==> r->Ok_0@ == cbc_encrypt_spec(input@, key@, iv@)->Ok_0,
        r is Ok ==> r->Ok_0@.len() == 16 * (input@.len() / 16) + 16,
{
    if iv.len() != 16 {
        return Err(AesError::WrongSizeIv);
    }
    let key_schedule = key.schedule();
    let mut last_cipher_block = Block(to_array::<16>(iv));
    let mut ciphertext: Vec<u8> = Vec::new();
    let mut blocks = BlockIter::padded(input);
    let ghost p = pad_spec(input@, 16);
    let ghost w = key_schedule@;
    let ghost mut k: int = 0;
    proof {
        key.lemma_valid_len();
    }
    loop
        invariant
            blocks.wf(),
            usable_schedule(w),
            w == key_schedule@,
            0 <= k <= blocks_of(p).len(),
            blocks.remaining() == blocks_of(p).skip(k),
            last_cipher_block@ == cbc_chain(p, w, iv@, k - 1),
            ciphertext@ == cbc_encrypt_blocks(p, w, iv@, k),
        ensures
            k == blocks_of(p).len(),
        decreases blocks.remaining().len(),
    {
        match blocks.next() {
            Some(block) => {
                let mixed = block.xor(&last_cipher_block);
                last_cipher_block = cipher(mixed, key_schedule.as_slice());
                append_block(&mut ciphertext, &last_cipher_block);
                proof {
                    assert(block@ == block_at(p, k));
                    assert(last_cipher_block@ == cbc_chain(p, w, iv@, k));
                    assert(ciphertext@ =~= cbc_encrypt_blocks(p, w, iv@, k + 1));
                    assert(blocks_of(p).skip(k).drop_first() =~= blocks_of(p).skip(k + 1));
                    k = k + 1;
                }
            },
            None => {
                break ;
            },
        }
    }
    Ok(ciphertext)
}

/// Decrypts a CBC ciphertext and takes the padding off.
pub fn aes_cbc_decrypt(input: &[u8], key: &AesKey, iv: &[u8]) -> (r: Result<Vec<u8>, AesError>)
    ensures
        r is Ok <==> cbc_decrypt_spec(input@, key@, iv@) is Ok,
        r is Ok ==> r->Ok_0@ == cbc_decrypt_spec(input@, key@, iv@)->Ok_0,
        r is Err ==> r->Err_0 == cbc_decrypt_spec(input@, key@, iv@)->Err_0,
        input@.len() % 16 != 0 ==> r == Err::<Vec<u8>, AesError>(AesError::IrregularDecryptLength),
        input@.len() % 16 == 0 && iv@.len() != 16 ==> r == Err::<Vec<u8>, AesError>(
            AesError::WrongSizeIv,
        ),
{
    if input.len() % 16 != 0 {
        return Err(AesError::IrregularDecryptLength);
    }
    if iv.len() != 16 {
        return Err(AesError::WrongSizeIv);
    }
    let key_schedule = key.schedule();
    let mut last_cipher_block = Block(to_array::<16>(iv));
    let mut cleartext: Vec<u8> = Vec::new();
    let mut blocks = BlockIter::exact(input);
    let ghost w = key_schedule@;
    let ghost mut k: int = 0;
    proof {
        key.lemma_valid_len();
    }
    loop
        invariant
            blocks.wf(),
            usable_schedule(w),
            w == key_schedule@,
            0 <= k <= blocks_of(input@).len(),
            blocks.remaining() == blocks_of(input@).skip(k),
            last_cipher_block@ == cbc_previous(input@, iv@, k),
            cleartext@ == cbc_decrypt_blocks(input@, w, iv@, k),
        ensures
            k == blocks_of(input@).len(),
        decreases blocks.remaining().len(),
    {
        match blocks.next() {
            Some(block) => {
                let inv_cipher_block = inv_cipher(block, key_schedule.as_slice());
                let clear_block = inv_cipher_block.xor(&last_cipher_block);
                last_cipher_block = block;
                append_block(&mut cleartext, &clear_block);
                proof {
                    assert(block@ == block_at(input@, k));
                    assert(cleartext@ =~= cbc_decrypt_blocks(input@, w, iv@, k + 1));
                    assert(blocks_of(input@).skip(k).drop_first() =~= blocks_of(input@).skip(k + 1));
                    k = k + 1;
                }
            },
            None => {
                break ;
            },
        }
    }
    finish_decrypt(cleartext)
}

/// Block `i` of an ECB ciphertext is the encryption of block `i`.
pub proof fn lemma_ecb_encrypt_block(p: Seq<u8>, w: Seq<u32>, n: int, i: int)
    requires
        0 <= i < n,
    ensures
        block_at(ecb_encrypt_blocks(p, w, n), i) == cipher_spec(block_at(p, i), w),
{
    lemma_cipher_len(block_at(p, i), w);
    assert(block_at(ecb_encrypt_blocks(p, w, n), i) =~= cipher_spec(block_at(p, i), w));
}

/// Block `i` of a CBC ciphertext is block `i` of the chain.
pub proof fn lemma_cbc_encrypt_block(p: Seq<u8>, w: Seq<u32>, iv: Seq<u8>, n: int, i: int)
    requires
        0 <= i < n,
    ensures
        block_at(cbc_encrypt_blocks(p, w, iv, n), i) == cbc_chain(p, w, iv, i),
        cbc_chain(p, w, iv, i).len() == 16,
{
    lemma_cipher_len(xor_spec(block_at(p, i), cbc_chain(p, w, iv, i - 1)), w);
    assert(block_at(cbc_encrypt_blocks(p, w, iv, n), i) =~= cbc_chain(p, w, iv, i));
}

} // verus!
