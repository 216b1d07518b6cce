//! What holds of the modes of operation as a whole: decryption undoes
//! encryption, equal blocks show in ECB and are hidden by CBC and CTR.

use vstd::prelude::*;
use crate::aes::block::{lemma_xor_block_twice, xor_spec};
use crate::aes::cipher::{
    lemma_cipher_injective, lemma_cipher_len, lemma_inv_cipher_of_cipher, usable_schedule,
};
use crate::aes::ctr::{counter_block_spec, ctr_spec, keystream_block, keystream_byte, le_byte};
use crate::aes::gf256::lemma_xor_twice;
use crate::aes::key::{key_schedule_spec, valid_key_len, AesError};
use crate::aes::modes::{
    block_at, cbc_chain, cbc_decrypt_blocks, cbc_decrypt_spec, cbc_encrypt_blocks,
    cbc_encrypt_spec, cbc_previous, ecb_decrypt_blocks, ecb_decrypt_spec, ecb_encrypt_spec,
    lemma_cbc_encrypt_block, lemma_ecb_encrypt_block,
};
use crate::pkcs7::{lemma_unpad_of_pad, pad_spec};

verus! {

/// The schedule of a valid key serves at least ten rounds.
pub proof fn lemma_schedule_usable(key: Seq<u8>)
    requires
        valid_key_len(key.len()),
    ensures
        usable_schedule(key_schedule_spec(key)),
        key_schedule_spec(key).len() == key.len() + 28,
{
    reveal(key_schedule_spec);
}

/// ECB round trip: decrypting the encryption of a message gives the message
/// back, for every message and every valid key.
pub proof fn lemma_ecb_round_trip(m: Seq<u8>, key: Seq<u8>)
    requires
        valid_key_len(key.len()),
    ensures
        ecb_decrypt_spec(ecb_encrypt_spec(m, key), key) == Ok::<Seq<u8>, AesError>(m),
{
    let p = pad_spec(m, 16);
    let w = key_schedule_spec(key);
    let n = p.len() as int / 16;
    let c = ecb_encrypt_spec(m, key);
    lemma_unpad_of_pad(m, 16);
    lemma_schedule_usable(key);
    assert(p.len() == 16 * n);
    assert(c.len() == 16 * n);
    let d = ecb_decrypt_blocks(c, w, n);
    assert forall|j: int| 0 <= j < 16 * n implies d[j] == p[j] by {
        let i = j / 16;
        lemma_ecb_encrypt_block(p, w, n, i);
        lemma_inv_cipher_of_cipher(block_at(p, i), w);
        assert(block_at(p, i)[j % 16] == p[j]);
    }
    assert(d =~= p);
}

/// CBC round trip: decrypting the encryption of a message under the same key
/// and initialization vector gives the message back.
pub proof fn lemma_cbc_round_trip(m: Seq<u8>, key: Seq<u8>, iv: Seq<u8>)
    requires
        valid_key_len(key.len()),
        iv.len() == 16,
    ensures
        cbc_encrypt_spec(m, key, iv) is Ok,
        cbc_decrypt_spec(cbc_encrypt_spec(m, key, iv)->Ok_0, key, iv) == Ok::<Seq<u8>, AesError>(m),
{
    let p = pad_spec(m, 16);
    let w = key_schedule_spec(key);
    let n = p.len() as int / 16;
    let c = cbc_encrypt_blocks(p, w, iv, n);
    lemma_unpad_of_pad(m, 16);
    lemma_schedule_usable(key);
    assert(p.len() == 16 * n);
    assert(c.len() == 16 * n);
    let d = cbc_decrypt_blocks(c, w, iv, n);
    assert forall|j: int| 0 <= j < 16 * n implies d[j] == p[j] by {
        let i = j / 16;
        lemma_cbc_encrypt_block(p, w, iv, n, i);
        if i > 0 {
            lemma_cbc_encrypt_block(p, w, iv, n, i - 1);
        }
        let prev = cbc_chain(p, w, iv, i - 1);
        assert(cbc_previous(c, iv, i) == prev);
        lemma_inv_cipher_of_cipher(xor_spec(block_at(p, i), prev), w);
        lemma_xor_block_twice(block_at(p, i), prev);
        assert(block_at(p, i)[j % 16] == p[j]);
    }
    assert(d =~= p);
}

/// CTR round trip: transforming a buffer twice under the same key schedule
/// and nonce gives the buffer back.
pub proof fn lemma_ctr_round_trip(m: Seq<u8>, w: Seq<u32>, nonce: u64)
    ensures
        ctr_spec(ctr_spec(m, w, nonce), w, nonce) == m,
{
    assert forall|k: int| 0 <= k < m.len() implies ctr_spec(ctr_spec(m, w, nonce), w, nonce)[k]
        == m[k] by {
        lemma_xor_twice(m[k], keystream_byte(w, nonce, k));
    }
    assert(ctr_spec(ctr_spec(m, w, nonce), w, nonce) =~= m);
}

/// The keystream depends on the key and the nonce alone: the same key and
/// nonce give the same byte at every position.
pub proof fn lemma_keystream_deterministic(
    key_a: Seq<u8>,
    nonce_a: u64,
    key_b: Seq<u8>,
    nonce_b: u64,
    k: int,
)
    requires
        key_a == key_b,
        nonce_a == nonce_b,
    ensures
        keystream_byte(key_schedule_spec(key_a), nonce_a, k) == keystream_byte(
            key_schedule_spec(key_b),
            nonce_b,
            k,
        ),
{
}

/// ECB shows equal blocks: where block `i` of one padded message equals block
/// `j` of another, the ciphertext blocks at these places are equal too.
pub proof fn lemma_ecb_equal_blocks(m_a: Seq<u8>, i: int, m_b: Seq<u8>, j: int, key: Seq<u8>)
    requires
        0 <= i < pad_spec(m_a, 16).len() / 16,
        0 <= j < pad_spec(m_b, 16).len() / 16,
        block_at(pad_spec(m_a, 16), i) == block_at(pad_spec(m_b, 16), j),
    ensures
        block_at(ecb_encrypt_spec(m_a, key), i) == block_at(ecb_encrypt_spec(m_b, key), j),
{
    let w = key_schedule_spec(key);
    let p_a = pad_spec(m_a, 16);
    let p_b = pad_spec(m_b, 16);
    lemma_ecb_encrypt_block(p_a, w, p_a.len() as int / 16, i);
    lemma_ecb_encrypt_block(p_b, w, p_b.len() as int / 16, j);
}

proof fn lemma_xor_cancel(a: u8, b: u8, c: u8)
    by (bit_vector)
    requires
        a ^ b == a ^ c,
    ensures
        b == c,
{
}

/// Two blocks that give the same block when xored into a third are equal.
proof fn lemma_xor_block_cancel(a: Seq<u8>, b: Seq<u8>, c: Seq<u8>)
    requires
        a.len() == 16,
        b.len() == 16,
        c.len() == 16,
        xor_spec(a, b) == xor_spec(a, c),
    ensures
        b == c,
{
    assert forall|t: int| 0 <= t < 16 implies b[t] == c[t] by {
        assert(xor_spec(a, b)[t] == a[t] ^ b[t]);
        assert(xor_spec(a, c)[t] == a[t] ^ c[t]);
        lemma_xor_cancel(a[t], b[t], c[t]);
    }
    assert(b =~= c);
}

/// CBC hides equal blocks: where two blocks of the padded message are equal
/// and the ciphertext blocks before them differ (for the first block, the
/// initialization vector), their ciphertext blocks differ.
pub proof fn lemma_cbc_hides_equal_blocks(m: Seq<u8>, key: Seq<u8>, iv: Seq<u8>, i: int, j: int)
    requires
        valid_key_len(key.len()),
        iv.len() == 16,
        0 <= i < pad_spec(m, 16).len() / 16,
        0 <= j < pad_spec(m, 16).len() / 16,
        block_at(pad_spec(m, 16), i) == block_at(pad_spec(m, 16), j),
        cbc_previous(cbc_encrypt_spec(m, key, iv)->Ok_0, iv, i) != cbc_previous(
            cbc_encrypt_spec(m, key, iv)->Ok_0,
            iv,
            j,
        ),
    ensures
        block_at(cbc_encrypt_spec(m, key, iv)->Ok_0, i) != block_at(
            cbc_encrypt_spec(m, key, iv)->Ok_0,
            j,
        ),
{
    let p = pad_spec(m, 16);
    let w = key_schedule_spec(key);
    let n = p.len() as int / 16;
    let c = cbc_encrypt_blocks(p, w, iv, n);
    lemma_unpad_of_pad(m, 16);
    lemma_schedule_usable(key);
    assert(c.len() == 16 * n);
    lemma_cbc_encrypt_block(p, w, iv, n, i);
    lemma_cbc_encrypt_block(p, w, iv, n, j);
    if i > 0 {
        lemma_cbc_encrypt_block(p, w, iv, n, i - 1);
    }
    if j > 0 {
        lemma_cbc_encrypt_block(p, w, iv, n, j - 1);
    }
    let prev_i = cbc_chain(p, w, iv, i - 1);
    let prev_j = cbc_chain(p, w, iv, j - 1);
    assert(cbc_previous(c, iv, i) == prev_i);
    assert(cbc_previous(c, iv, j) == prev_j);
    if cbc_chain(p, w, iv, i) == cbc_chain(p, w, iv, j) {
        lemma_cipher_injective(
            xor_spec(block_at(p, i), prev_i),
            xor_spec(block_at(p, j), prev_j),
            w,
        );
        lemma_xor_block_cancel(block_at(p, i), prev_i, prev_j);
    }
}

proof fn lemma_le_bytes_injective(a: u64, b: u64)
    by (bit_vector)
    requires
        a as u8 == b as u8,
        (a >> 8u64) as u8 == (b >> 8u64) as u8,
        (a >> 16u64) as u8 == (b >> 16u64) as u8,
        (a >> 24u64) as u8 == (b >> 24u64) as u8,
        (a >> 32u64) as u8 == (b >> 32u64) as u8,
        (a >> 40u64) as u8 == (b >> 40u64) as u8,
        (a >> 48u64) as u8 == (b >> 48u64) as u8,
        (a >> 56u64) as u8 == (b >> 56u64) as u8,
        (a >> 0u64) == a,
        (b >> 0u64) == b,
    ensures
        a == b,
{
}

/// Different counters give different keystream blocks.
pub proof fn lemma_keystream_blocks_differ(w: Seq<u32>, nonce: u64, i: u64, j: u64)
    requires
        usable_schedule(w),
        i != j,
    ensures
        keystream_block(w, nonce, i as int) != keystream_block(w, nonce, j as int),
{
    let a = counter_block_spec(nonce, i);
    let b = counter_block_spec(nonce, j);
    if a == b {
        assert(a[8] == b[8] && a[9] == b[9] && a[10] == b[10] && a[11] == b[11]);
        assert(a[12] == b[12] && a[13] == b[13] && a[14] == b[14] && a[15] == b[15]);
        assert(le_byte(i, 0) == (i >> 0u64) as u8);
        assert(le_byte(i, 1) == (i >> 8u64) as u8);
        assert(i >> 0u64 == i) by (bit_vector);
        assert(j >> 0u64 == j) by (bit_vector);
        lemma_le_bytes_injective(i, j);
    }
    if keystream_block(w, nonce, i as int) == keystream_block(w, nonce, j as int) {
        lemma_cipher_injective(a, b, w);
    }
}

/// CTR hides equal blocks: two equal whole blocks at different places of a
/// buffer come out as different blocks.
pub proof fn lemma_ctr_hides_equal_blocks(m: Seq<u8>, w: Seq<u32>, nonce: u64, i: int, j: int)
    requires
        usable_schedule(w),
        0 <= i < m.len() / 16,
        0 <= j < m.len() / 16,
        i != j,
        i <= u64::MAX,
        j <= u64::MAX,
        block_at(m, i) == block_at(m, j),
    ensures
        block_at(ctr_spec(m, w, nonce), i) != block_at(ctr_spec(m, w, nonce), j),
{
    let c = ctr_spec(m, w, nonce);
    let ks_i = keystream_block(w, nonce, i);
    let ks_j = keystream_block(w, nonce, j);
    lemma_keystream_blocks_differ(w, nonce, i as u64, j as u64);
    lemma_cipher_len(counter_block_spec(nonce, i as u64), w);
    lemma_cipher_len(counter_block_spec(nonce, j as u64), w);
    if block_at(c, i) == block_at(c, j) {
        assert forall|t: int| 0 <= t < 16 implies ks_i[t] == ks_j[t] by {
            assert(block_at(c, i)[t] == c[16 * i + t]);
            assert(block_at(c, j)[t] == c[16 * j + t]);
            assert(block_at(m, i)[t] == m[16 * i + t]);
            assert(block_at(m, j)[t] == m[16 * j + t]);
            assert((16 * i + t) / 16 == i && (16 * i + t) % 16 == t);
            assert((16 * j + t) / 16 == j && (16 * j + t) % 16 == t);
            lemma_xor_cancel(m[16 * i + t], ks_i[t], ks_j[t]);
        }
        assert(ks_i =~= ks_j);
    }
}

} // verus!
