use cryptokit::aes::block::Block;
use cryptokit::aes::cipher::{cipher, inv_cipher};
use cryptokit::aes::ctr::{aes_ctr, counter_block, AesCtrIter};
use cryptokit::aes::gf256::{xmul, xtimes};
use cryptokit::aes::key::{key_expansion, subword, AesError, AesKey};
use cryptokit::aes::modes::{
    aes_cbc_decrypt, aes_cbc_encrypt, aes_ecb_decrypt, aes_ecb_encrypt, BlockIter,
};
use cryptokit::aes::sbox::{inv_sbox, sbox};

fn unhex(s: &str) -> Vec<u8> {
    hex::decode(s).unwrap()
}

fn block_of(s: &str) -> Block {
    let bytes = unhex(s);
    let mut b = [0u8; 16];
    b.copy_from_slice(&bytes);
    Block(b)
}

fn key_of(s: &str) -> AesKey {
    AesKey::from(&unhex(s)).unwrap()
}

#[test]
fn fips197_aes128_single_block() {
    let key = key_of("000102030405060708090a0b0c0d0e0f");
    let out = cipher(block_of("00112233445566778899aabbccddeeff"), &key.schedule());
    assert_eq!(hex::encode(out.0), "69c4e0d86a7b0430d8cdb78070b4c55a");
}

#[test]
fn fips197_aes192_single_block() {
    let key = key_of("000102030405060708090a0b0c0d0e0f1011121314151617");
    let out = cipher(block_of("00112233445566778899aabbccddeeff"), &key.schedule());
    assert_eq!(hex::encode(out.0), "dda97ca4864cdfe06eaf70a0ec0d7191");
}

#[test]
fn fips197_aes256_single_block() {
    let key = key_of("000102030405060708090a0b0c0d0e0f101112131415161718191a1b1c1d1e1f");
    let out = cipher(block_of("00112233445566778899aabbccddeeff"), &key.schedule());
    assert_eq!(hex::encode(out.0), "8ea2b7ca516745bfeafc49904b496089");
}

#[test]
fn fips197_inverse_cipher_all_key_sizes() {
    let clear = "00112233445566778899aabbccddeeff";
    let cases = [
        ("000102030405060708090a0b0c0d0e0f", "69c4e0d86a7b0430d8cdb78070b4c55a"),
        ("000102030405060708090a0b0c0d0e0f1011121314151617", "dda97ca4864cdfe06eaf70a0ec0d7191"),
        (
            "000102030405060708090a0b0c0d0e0f101112131415161718191a1b1c1d1e1f",
            "8ea2b7ca516745bfeafc49904b496089",
        ),
    ];
    for (key, ct) in cases {
        let out = inv_cipher(block_of(ct), &key_of(key).schedule());
        assert_eq!(hex::encode(out.0), clear);
    }
}

#[test]
fn key_expansion_aes128_known_words() {
    let w = key_expansion(&unhex("2b7e151628aed2a6abf7158809cf4f3c"));
    assert_eq!(w.len(), 44);
    assert_eq!(w[0], 0x2b7e1516);
    assert_eq!(w[3], 0x09cf4f3c);
    assert_eq!(w[4], 0xa0fafe17);
    assert_eq!(w[5], 0x88542cb1);
    assert_eq!(w[40], 0xd014f9a8);
    assert_eq!(w[43], 0xb6630ca6);
}

#[test]
fn key_expansion_aes192_known_words() {
    let w = key_expansion(&unhex("8e73b0f7da0e6452c810f32b809079e562f8ead2522c6b7b"));
    assert_eq!(w.len(), 52);
    assert_eq!(w[6], 0xfe0c91f7);
    assert_eq!(w[51], 0x01002202);
}

#[test]
fn key_expansion_aes256_known_words() {
    let w = key_expansion(&unhex(
        "603deb1015ca71be2b73aef0857d77811f352c073b6108d72d9810a30914dff4",
    ));
    assert_eq!(w.len(), 60);
    assert_eq!(w[8], 0x9ba35411);
    assert_eq!(w[12], 0xa8b09c1a);
    assert_eq!(w[59], 0x706c631e);
}

#[test]
fn schedule_length_follows_key_length() {
    assert_eq!(key_of("000102030405060708090a0b0c0d0e0f").schedule().len(), 44);
    assert_eq!(key_of("000102030405060708090a0b0c0d0e0f1011121314151617").schedule().len(), 52);
    assert_eq!(
        key_of("000102030405060708090a0b0c0d0e0f101112131415161718191a1b1c1d1e1f").schedule().len(),
        60
    );
}

#[test]
fn make_key_accepts_the_three_lengths() {
    assert!(matches!(AesKey::from(&[0u8; 16]), Ok(AesKey::Aes128(_))));
    assert!(matches!(AesKey::from(&[0u8; 24]), Ok(AesKey::Aes192(_))));
    assert!(matches!(AesKey::from(&[0u8; 32]), Ok(AesKey::Aes256(_))));
}

#[test]
fn make_key_keeps_the_bytes() {
    let bytes = unhex("000102030405060708090a0b0c0d0e0f1011121314151617");
    let key = AesKey::from(&bytes).unwrap();
    assert_eq!(key.as_ref(), &bytes[..]);
}

#[test]
fn make_key_rejects_20_bytes() {
    assert!(matches!(AesKey::from(&[0u8; 20]), Err(AesError::NonstandardKeyLength)));
}

#[test]
fn make_key_rejects_other_lengths() {
    for len in [0usize, 1, 15, 17, 23, 25, 31, 33, 64] {
        let bytes = vec![7u8; len];
        assert!(matches!(AesKey::from(&bytes), Err(AesError::NonstandardKeyLength)));
    }
}

#[test]
fn sbox_known_entries() {
    assert_eq!(sbox(0x00), 0x63);
    assert_eq!(sbox(0x53), 0xed);
    assert_eq!(sbox(0xff), 0x16);
    assert_eq!(inv_sbox(0x63), 0x00);
    assert_eq!(inv_sbox(0xed), 0x53);
}

#[test]
fn inv_sbox_undoes_sbox_on_every_byte() {
    for b in 0..=255u8 {
        assert_eq!(inv_sbox(sbox(b)), b);
        assert_eq!(sbox(inv_sbox(b)), b);
    }
}

#[test]
fn subword_substitutes_each_byte() {
    assert_eq!(subword(0x00102030), 0x63cab704);
}

#[test]
fn xtimes_known_values() {
    assert_eq!(xtimes(0x57), 0xae);
    assert_eq!(xtimes(0xae), 0x47);
    assert_eq!(xtimes(0x47), 0x8e);
    assert_eq!(xtimes(0x8e), 0x07);
    assert_eq!(xtimes(0x80), 0x1b);
    assert_eq!(xtimes(0x00), 0x00);
}

#[test]
fn xmul_known_values() {
    assert_eq!(xmul(0x57, 0x01), 0x57);
    assert_eq!(xmul(0x57, 0x02), 0xae);
    assert_eq!(xmul(0x57, 0x03), 0xf9);
    assert_eq!(xmul(0x57, 0x00), 0x00);
    assert_eq!(xmul(0x57, 0x08), 0x8e);
}

#[test]
fn xmul_reads_only_the_low_four_bits() {
    assert_eq!(xmul(0x57, 0x13), xmul(0x57, 0x03));
    assert_eq!(xmul(0xc3, 0xf9), xmul(0xc3, 0x09));
}

#[test]
fn shift_rows_moves_row_r_left_by_r() {
    let mut b = Block([0, 1, 2, 3, 4, 5, 6, 7, 8, 9, 10, 11, 12, 13, 14, 15]);
    b.shift_rows();
    assert_eq!(b.0, [0, 5, 10, 15, 4, 9, 14, 3, 8, 13, 2, 7, 12, 1, 6, 11]);
    b.inv_shift_rows();
    assert_eq!(b.0, [0, 1, 2, 3, 4, 5, 6, 7, 8, 9, 10, 11, 12, 13, 14, 15]);
}

#[test]
fn mix_columns_known_column() {
    let mut b = block_of("db135345f20a225c01010101c6c6c6c6");
    b.mix_columns();
    assert_eq!(hex::encode(b.0), "8e4da1bc9fdc589d01010101c6c6c6c6");
    b.inv_mix_columns();
    assert_eq!(hex::encode(b.0), "db135345f20a225c01010101c6c6c6c6");
}

#[test]
fn sub_bytes_and_back() {
    let mut b = block_of("00102030405060708090a0b0c0d0e0f0");
    b.sub_bytes();
    assert_eq!(hex::encode(b.0), "63cab7040953d051cd60e0e7ba70e18c");
    b.inv_sub_bytes();
    assert_eq!(hex::encode(b.0), "00102030405060708090a0b0c0d0e0f0");
}

#[test]
fn add_round_key_takes_words_most_significant_byte_first() {
    let mut b = Block([0u8; 16]);
    b.add_round_key(&[0x00010203, 0x04050607, 0x08090a0b, 0x0c0d0e0f]);
    assert_eq!(b.0, [0, 1, 2, 3, 4, 5, 6, 7, 8, 9, 10, 11, 12, 13, 14, 15]);
    b.add_round_key(&[0x00010203, 0x04050607, 0x08090a0b, 0x0c0d0e0f]);
    assert_eq!(b.0, [0u8; 16]);
}

#[test]
fn block_at_reads_by_column_then_row() {
    let mut b = Block([0, 1, 2, 3, 4, 5, 6, 7, 8, 9, 10, 11, 12, 13, 14, 15]);
    assert_eq!(*b.at(0, 0), 0);
    assert_eq!(*b.at(1, 2), 6);
    assert_eq!(*b.at(3, 3), 15);
    *b.at(2, 1) = 99;
    assert_eq!(b.0[9], 99);
}

#[test]
fn block_xor_is_bytewise() {
    let a = Block([0xff; 16]);
    let b = Block([0x0f; 16]);
    assert_eq!(a.xor(&b).0, [0xf0; 16]);
    let mut c = a;
    c.xor_inplace(&b);
    assert_eq!(c.0, [0xf0; 16]);
}

#[test]
fn block_iter_padded_appends_a_pad_block() {
    let data = [1u8; 16];
    let mut it = BlockIter::padded(&data);
    assert_eq!(it.next().unwrap().0, [1u8; 16]);
    assert_eq!(it.next().unwrap().0, [16u8; 16]);
    assert!(it.next().is_none());
    assert!(it.next().is_none());
}

#[test]
fn block_iter_padded_fills_the_last_block() {
    let data = [9u8; 19];
    let mut it = BlockIter::padded(&data);
    assert_eq!(it.next().unwrap().0, [9u8; 16]);
    assert_eq!(it.next().unwrap().0, [9, 9, 9, 13, 13, 13, 13, 13, 13, 13, 13, 13, 13, 13, 13, 13]);
    assert!(it.next().is_none());
}

#[test]
fn block_iter_exact_drops_the_rest() {
    let data = [9u8; 35];
    let mut it = BlockIter::exact(&data);
    assert!(it.next().is_some());
    assert!(it.next().is_some());
    assert!(it.next().is_none());
}

#[test]
fn ecb_known_answer_first_block() {
    let key = key_of("000102030405060708090a0b0c0d0e0f");
    let ct = aes_ecb_encrypt(&unhex("00112233445566778899aabbccddeeff"), &key);
    assert_eq!(ct.len(), 32);
    assert_eq!(hex::encode(&ct[..16]), "69c4e0d86a7b0430d8cdb78070b4c55a");
    let pad_block = cipher(Block([16u8; 16]), &key.schedule());
    assert_eq!(&ct[16..], &pad_block.0[..]);
}

#[test]
fn ecb_sp800_38a_vector() {
    let key = key_of("2b7e151628aed2a6abf7158809cf4f3c");
    let pt = unhex("6bc1bee22e409f96e93d7e117393172aae2d8a571e03ac9c9eb76fac45af8e51");
    let ct = aes_ecb_encrypt(&pt, &key);
    assert_eq!(
        hex::encode(&ct[..32]),
        "3ad77bb40d7a3660a89ecaf32466ef97f5d3d58503b9699de785895a96fdbaaf"
    );
}

#[test]
fn ecb_round_trip_all_lengths_and_keys() {
    for key_len in [16usize, 24, 32] {
        let key_bytes: Vec<u8> = (0..key_len as u8).collect();
        let key = AesKey::from(&key_bytes).unwrap();
        for len in 0..70usize {
            let msg: Vec<u8> = (0..len).map(|i| (i * 7 + 3) as u8).collect();
            let ct = aes_ecb_encrypt(&msg, &key);
            assert_eq!(ct.len() % 16, 0);
            assert_eq!(ct.len(), 16 * (len / 16) + 16);
            assert_eq!(aes_ecb_decrypt(&ct, &key).unwrap(), msg);
        }
    }
}

#[test]
fn ecb_round_trip_message_ending_in_pad_like_bytes() {
    let key = key_of("000102030405060708090a0b0c0d0e0f");
    let msg = vec![1u8; 15];
    let ct = aes_ecb_encrypt(&msg, &key);
    assert_eq!(aes_ecb_decrypt(&ct, &key).unwrap(), msg);
    let msg = vec![4u8; 12];
    let ct = aes_ecb_encrypt(&msg, &key);
    assert_eq!(aes_ecb_decrypt(&ct, &key).unwrap(), msg);
}

#[test]
fn ecb_identical_blocks_give_identical_ciphertext_blocks() {
    let key = key_of("000102030405060708090a0b0c0d0e0f");
    let mut msg = vec![0x41u8; 16];
    msg.extend_from_slice(&[0x42u8; 16]);
    msg.extend_from_slice(&[0x41u8; 16]);
    let ct = aes_ecb_encrypt(&msg, &key);
    assert_eq!(&ct[0..16], &ct[32..48]);
    assert_ne!(&ct[0..16], &ct[16..32]);
}

#[test]
fn ecb_aligned_plaintext_grows_by_one_block() {
    let key = key_of("000102030405060708090a0b0c0d0e0f");
    for blocks in 0..5usize {
        let msg = vec![0xabu8; 16 * blocks];
        assert_eq!(aes_ecb_encrypt(&msg, &key).len(), msg.len() + 16);
    }
}

#[test]
fn ecb_decrypt_rejects_irregular_length() {
    let key = key_of("000102030405060708090a0b0c0d0e0f");
    for len in [1usize, 15, 17, 31, 33] {
        let r = aes_ecb_decrypt(&vec![0u8; len], &key);
        assert!(matches!(r, Err(AesError::IrregularDecryptLength)));
    }
}

#[test]
fn ecb_decrypt_rejects_bad_padding() {
    let key = key_of("000102030405060708090a0b0c0d0e0f");
    let bad = cipher(block_of("00112233445566778899aabbccddee00"), &key.schedule());
    assert!(matches!(aes_ecb_decrypt(&bad.0, &key), Err(AesError::PaddingError)));
    let bad = cipher(block_of("00112233445566778899aabbccdd0103"), &key.schedule());
    assert!(matches!(aes_ecb_decrypt(&bad.0, &key), Err(AesError::PaddingError)));
}

#[test]
fn ecb_decrypt_rejects_empty_input_as_unpadded() {
    let key = key_of("000102030405060708090a0b0c0d0e0f");
    assert!(matches!(aes_ecb_decrypt(&[], &key), Err(AesError::PaddingError)));
}

#[test]
fn ecb_decrypt_strips_the_padding() {
    let key = key_of("000102030405060708090a0b0c0d0e0f");
    let block = cipher(block_of("68656c6c6f0b0b0b0b0b0b0b0b0b0b0b"), &key.schedule());
    assert_eq!(aes_ecb_decrypt(&block.0, &key).unwrap(), b"hello".to_vec());
}

#[test]
fn cbc_sp800_38a_vector() {
    let key = key_of("2b7e151628aed2a6abf7158809cf4f3c");
    let iv = unhex("000102030405060708090a0b0c0d0e0f");
    let pt = unhex("6bc1bee22e409f96e93d7e117393172aae2d8a571e03ac9c9eb76fac45af8e51");
    let ct = aes_cbc_encrypt(&pt, &key, &iv).unwrap();
    assert_eq!(ct.len(), 48);
    assert_eq!(
        hex::encode(&ct[..32]),
        "7649abac8119b246cee98e9b12e9197d5086cb9b507219ee95db113a917678b2"
    );
    assert_eq!(aes_cbc_decrypt(&ct, &key, &iv).unwrap(), pt);
}

#[test]
fn cbc_round_trip_all_lengths_and_keys() {
    let iv: Vec<u8> = (100..116u8).collect();
    for key_len in [16usize, 24, 32] {
        let key_bytes: Vec<u8> = (0..key_len as u8).map(|b| b.wrapping_mul(3)).collect();
        let key = AesKey::from(&key_bytes).unwrap();
        for len in 0..70usize {
            let msg: Vec<u8> = (0..len).map(|i| (i * 5 + 1) as u8).collect();
            let ct = aes_cbc_encrypt(&msg, &key, &iv).unwrap();
            assert_eq!(ct.len(), 16 * (len / 16) + 16);
            assert_eq!(aes_cbc_decrypt(&ct, &key, &iv).unwrap(), msg);
        }
    }
}

#[test]
fn cbc_hides_identical_blocks() {
    let key = key_of("000102030405060708090a0b0c0d0e0f");
    let iv = [0u8; 16];
    let msg = vec![0x41u8; 48];
    let ct = aes_cbc_encrypt(&msg, &key, &iv).unwrap();
    assert_ne!(&ct[0..16], &ct[16..32]);
    assert_ne!(&ct[16..32], &ct[32..48]);
    assert_ne!(&ct[0..16], &ct[32..48]);
}

#[test]
fn cbc_with_zero_iv_starts_like_ecb() {
    let key = key_of("000102030405060708090a0b0c0d0e0f");
    let msg = unhex("00112233445566778899aabbccddeeff");
    let ct = aes_cbc_encrypt(&msg, &key, &[0u8; 16]).unwrap();
    assert_eq!(hex::encode(&ct[..16]), "69c4e0d86a7b0430d8cdb78070b4c55a");
}

#[test]
fn cbc_aligned_plaintext_grows_by_one_block() {
    let key = key_of("000102030405060708090a0b0c0d0e0f");
    let msg = vec![0u8; 32];
    assert_eq!(aes_cbc_encrypt(&msg, &key, &[1u8; 16]).unwrap().len(), 48);
}

#[test]
fn cbc_encrypt_rejects_wrong_iv() {
    let key = key_of("000102030405060708090a0b0c0d0e0f");
    for len in [0usize, 15, 17, 32] {
        let r = aes_cbc_encrypt(b"abc", &key, &vec![0u8; len]);
        assert!(matches!(r, Err(AesError::WrongSizeIv)));
    }
}

#[test]
fn cbc_decrypt_rejects_15_byte_iv() {
    let key = key_of("000102030405060708090a0b0c0d0e0f");
    let r = aes_cbc_decrypt(&[0u8; 32], &key, &[0u8; 15]);
    assert!(matches!(r, Err(AesError::WrongSizeIv)));
}

#[test]
fn cbc_decrypt_rejects_irregular_length() {
    let key = key_of("000102030405060708090a0b0c0d0e0f");
    let r = aes_cbc_decrypt(&[0u8; 33], &key, &[0u8; 16]);
    assert!(matches!(r, Err(AesError::IrregularDecryptLength)));
}

#[test]
fn cbc_decrypt_looks_at_the_length_before_the_iv() {
    let key = key_of("000102030405060708090a0b0c0d0e0f");
    let r = aes_cbc_decrypt(&[0u8; 33], &key, &[0u8; 15]);
    assert!(matches!(r, Err(AesError::IrregularDecryptLength)));
}

#[test]
fn cbc_decrypt_rejects_bad_padding() {
    let key = key_of("000102030405060708090a0b0c0d0e0f");
    let iv = [0u8; 16];
    let bad = cipher(block_of("00112233445566778899aabbccddee11"), &key.schedule());
    assert!(matches!(aes_cbc_decrypt(&bad.0, &key, &iv), Err(AesError::PaddingError)));
}

#[test]
fn counter_block_is_two_little_endian_halves() {
    let b = counter_block(0x0102030405060708, 0x1112131415161718);
    assert_eq!(hex::encode(b.0), "08070605040302011817161514131211");
}

#[test]
fn ctr_keystream_is_the_cipher_of_the_counter_blocks() {
    let key = key_of("000102030405060708090a0b0c0d0e0f");
    let nonce = 0xdead_beef_0000_0001u64;
    let mut it = AesCtrIter::new(&key, nonce);
    let stream: Vec<u8> = (0..40).map(|_| it.next().unwrap()).collect();
    let ks = key.schedule();
    let b0 = cipher(counter_block(nonce, 0), &ks);
    let b1 = cipher(counter_block(nonce, 1), &ks);
    let b2 = cipher(counter_block(nonce, 2), &ks);
    assert_eq!(&stream[0..16], &b0.0[..]);
    assert_eq!(&stream[16..32], &b1.0[..]);
    assert_eq!(&stream[32..40], &b2.0[..8]);
}

#[test]
fn ctr_transform_is_xor_with_the_keystream() {
    let key = key_of("000102030405060708090a0b0c0d0e0f1011121314151617");
    let nonce = 42u64;
    let msg: Vec<u8> = (0..53u8).collect();
    let out = aes_ctr(&msg, &key, nonce);
    assert_eq!(out.len(), msg.len());
    let mut it = AesCtrIter::new(&key, nonce);
    for (m, c) in msg.iter().zip(out.iter()) {
        assert_eq!(*c, *m ^ it.next().unwrap());
    }
}

#[test]
fn ctr_round_trip() {
    for key_len in [16usize, 24, 32] {
        let key = AesKey::from(&vec![0x5au8; key_len]).unwrap();
        for len in [0usize, 1, 15, 16, 17, 31, 32, 33, 100] {
            let msg: Vec<u8> = (0..len).map(|i| (i * 11) as u8).collect();
            let ct = aes_ctr(&msg, &key, 7);
            assert_eq!(ct.len(), len);
            assert_eq!(aes_ctr(&ct, &key, 7), msg);
        }
    }
}

#[test]
fn ctr_keystream_is_deterministic_and_restartable() {
    let key = key_of("000102030405060708090a0b0c0d0e0f");
    let mut a = AesCtrIter::new(&key, 99);
    let first: Vec<u8> = (0..50).map(|_| a.next().unwrap()).collect();
    let mut b = AesCtrIter::new(&key, 99);
    let second: Vec<u8> = (0..50).map(|_| b.next().unwrap()).collect();
    assert_eq!(first, second);
    assert_eq!(aes_ctr(&[0u8; 50], &key, 99), first);
}

#[test]
fn ctr_keystream_depends_on_the_nonce() {
    let key = key_of("000102030405060708090a0b0c0d0e0f");
    assert_ne!(aes_ctr(&[0u8; 16], &key, 1), aes_ctr(&[0u8; 16], &key, 2));
}

#[test]
fn ctr_hides_identical_blocks() {
    let key = key_of("000102030405060708090a0b0c0d0e0f");
    let ct = aes_ctr(&[0x41u8; 48], &key, 5);
    assert_ne!(&ct[0..16], &ct[16..32]);
    assert_ne!(&ct[16..32], &ct[32..48]);
}

#[test]
fn ctr_of_empty_input_is_empty() {
    let key = key_of("000102030405060708090a0b0c0d0e0f");
    assert!(aes_ctr(&[], &key, 0).is_empty());
}

fn field_product(a: u8, b: u8) -> u8 {
    let mut acc = 0u8;
    let mut term = a;
    for bit in 0..8 {
        if (b >> bit) & 1 == 1 {
            acc ^= term;
        }
        term = xtimes(term);
    }
    acc
}

#[test]
fn sbox_is_the_affine_image_of_the_inverse() {
    assert_eq!(field_product(0x57, 0x83), 0xc1);
    for b in 0..=255u8 {
        let y = sbox(b);
        let x = y.rotate_left(1) ^ y.rotate_left(3) ^ y.rotate_left(6) ^ 0x05;
        if b == 0 {
            assert_eq!(x, 0);
        } else {
            assert_eq!(field_product(b, x), 1);
        }
        let image =
            x ^ x.rotate_left(1) ^ x.rotate_left(2) ^ x.rotate_left(3) ^ x.rotate_left(4) ^ 0x63;
        assert_eq!(image, y);
    }
}

#[test]
fn xmul_agrees_with_the_field_product_below_16() {
    for a in 0..=255u8 {
        for b in 0..16u8 {
            assert_eq!(xmul(a, b), field_product(a, b));
        }
    }
}
