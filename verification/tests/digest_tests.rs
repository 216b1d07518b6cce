use cryptokit::md4::{md4_digest, md4_digest_from_state, md4_f, md4_g, md4_h};
use cryptokit::md_blocks::{place_bytes_in_block, PaddedBlocks};
use cryptokit::sha::{
    sha1_digest, sha1_digest_from_state, sha1_ft, sha1_kt, sha1_schedule, sha256_digest,
};

#[test]
fn sha1_known_digests() {
    assert_eq!(hex::encode(sha1_digest(b"")), "da39a3ee5e6b4b0d3255bfef95601890afd80709");
    assert_eq!(hex::encode(sha1_digest(b"abc")), "a9993e364706816aba3e25717850c26c9cd0d89d");
    assert_eq!(
        hex::encode(sha1_digest(b"abcdbcdecdefdefgefghfghighijhijkijkljklmklmnlmnomnopnopq")),
        "84983e441c3bd26ebaae4aa1f95129e5e54670f1"
    );
    assert_eq!(
        hex::encode(sha1_digest(b"The quick brown fox jumps over the lazy dog")),
        "2fd4e1c67a2d28fced849ee1bb76e7391b93eb12"
    );
}

#[test]
fn sha1_of_a_million_a() {
    let input = vec![b'a'; 1_000_000];
    assert_eq!(hex::encode(sha1_digest(&input)), "34aa973cd4c4daa4f61eeb2bdbad27316534016f");
}

#[test]
fn sha1_lengths_around_the_block_boundary() {
    let expected = [
        (55usize, "c1c8bbdc22796e28c0e15163d20899b65621d65a"),
        (56, "c2db330f6083854c99d4b5bfb6e8f29f201be699"),
        (63, "03f09f5b158a7a8cdad920bddc29b81c18a551f5"),
        (64, "0098ba824b5c16427bd7a1122a5a442a25ec644d"),
        (65, "11655326c708d70319be2610e8a57d9a5b959d3b"),
    ];
    for (len, digest) in expected {
        assert_eq!(hex::encode(sha1_digest(&vec![b'a'; len])), digest);
    }
}

fn sha1_glue_padding(len: usize) -> Vec<u8> {
    let mut pad = vec![0x80u8];
    while (len + pad.len()) % 64 != 56 {
        pad.push(0);
    }
    pad.extend_from_slice(&((len as u64) * 8).to_be_bytes());
    pad
}

#[test]
fn sha1_from_state_continues_a_digest() {
    let first = b"comment1=cooking%20MCs;userdata=foo";
    let more = b";admin=true";
    let state = sha1_digest(first);
    let mut whole = first.to_vec();
    whole.extend_from_slice(&sha1_glue_padding(first.len()));
    let head = whole.len();
    whole.extend_from_slice(more);
    assert_eq!(sha1_digest_from_state(more, &state, head), sha1_digest(&whole));
}

#[test]
fn sha1_round_functions() {
    assert_eq!(sha1_ft(0, 0xffff0000, 0x12345678, 0x9abcdef0), 0x1234def0);
    assert_eq!(sha1_ft(20, 1, 2, 4), 7);
    assert_eq!(sha1_ft(40, 0b1100, 0b1010, 0b0110), 0b1110);
    assert_eq!(sha1_ft(60, 1, 2, 4), 7);
    assert_eq!(sha1_kt(0), 0x5a827999);
    assert_eq!(sha1_kt(19), 0x5a827999);
    assert_eq!(sha1_kt(20), 0x6ed9eba1);
    assert_eq!(sha1_kt(40), 0x8f1bbcdc);
    assert_eq!(sha1_kt(79), 0xca62c1d6);
}

#[test]
fn sha1_schedule_starts_with_the_block() {
    let mut m = [0u32; 16];
    for (i, w) in m.iter_mut().enumerate() {
        *w = i as u32 + 1;
    }
    let w = sha1_schedule(&m);
    assert_eq!(&w[..16], &m[..]);
    assert_eq!(w[16], (m[13] ^ m[8] ^ m[2] ^ m[0]).rotate_left(1));
    assert_eq!(w[79], (w[76] ^ w[71] ^ w[65] ^ w[63]).rotate_left(1));
}

#[test]
fn sha256_of_short_messages() {
    assert_eq!(
        hex::encode(sha256_digest(b"")),
        "e3b0c44298fc1c149afbf4c8996fb92427ae41e4649b934ca495991b7852b855"
    );
    assert_eq!(
        hex::encode(sha256_digest(b"abc")),
        "ba7816bf8f01cfea414140de5dae2223b00361a396177a9cb410ff61f20015ad"
    );
    assert_eq!(
        hex::encode(sha256_digest(b"yellow submarine")),
        "50765dc2066b024e45c6e0c0b5a033f8a90bd6c30a8cd8028cdbeea7f5d82235"
    );
}

#[test]
fn sha256_of_55_bytes() {
    assert_eq!(
        hex::encode(sha256_digest(&[b'a'; 55])),
        "9f4390f8d30c2dd92ec9f095b65e2b9ae9b0a925a5258e241c9f1e910f734318"
    );
}

#[test]
fn sha256_reads_the_first_64_bytes_of_a_chunk() {
    let mut a = vec![7u8; 256];
    let mut b = vec![7u8; 256];
    a[64] = 1;
    b[200] = 2;
    assert_eq!(sha256_digest(&a), sha256_digest(&b));
    b[63] = 3;
    assert_ne!(sha256_digest(&a), sha256_digest(&b));
}

#[test]
fn md4_known_digests() {
    assert_eq!(hex::encode(md4_digest(b"")), "31d6cfe0d16ae931b73c59d7e0c089c0");
    assert_eq!(hex::encode(md4_digest(b"a")), "bde52cb31de33e46245e05fbdbd6fb24");
    assert_eq!(hex::encode(md4_digest(b"abc")), "a448017aaf21d8525fc10ae87aa6729d");
    assert_eq!(hex::encode(md4_digest(b"message digest")), "d9130a8164549fe818874806e1c7014b");
    assert_eq!(
        hex::encode(md4_digest(b"abcdefghijklmnopqrstuvwxyz")),
        "d79e1c308aa5bbcdeea8ed63df412da9"
    );
    assert_eq!(
        hex::encode(md4_digest(
            b"12345678901234567890123456789012345678901234567890123456789012345678901234567890"
        )),
        "e33b4ddc9c38f2199c3e7b164fcc0536"
    );
}

fn md4_glue_padding(len: usize) -> Vec<u8> {
    let mut pad = vec![0x80u8];
    while (len + pad.len()) % 64 != 56 {
        pad.push(0);
    }
    pad.extend_from_slice(&((len as u64) * 8).to_le_bytes());
    pad
}

#[test]
fn md4_from_state_continues_a_digest() {
    let first = b"comment1=cooking%20MCs;userdata=foo";
    let more = b";admin=true";
    let state = md4_digest(first);
    let mut whole = first.to_vec();
    whole.extend_from_slice(&md4_glue_padding(first.len()));
    let head = whole.len();
    whole.extend_from_slice(more);
    assert_eq!(md4_digest_from_state(more, &state, head), md4_digest(&whole));
}

#[test]
fn md4_round_functions() {
    assert_eq!(md4_f(0xffff0000, 0x12345678, 0x9abcdef0), 0x1234def0);
    assert_eq!(md4_g(0b1100, 0b1010, 0b0110), 0b1110);
    assert_eq!(md4_h(1, 2, 4), 7);
}

#[test]
fn padded_blocks_of_a_short_message() {
    let mut it = PaddedBlocks::<16>::new(b"abc", 0, false);
    let block = it.next().unwrap();
    assert_eq!(block[0], 0x61626380);
    assert_eq!(block[1], 0);
    assert_eq!(block[14], 0);
    assert_eq!(block[15], 24);
    assert!(it.next().is_none());
    assert!(it.next().is_none());
}

#[test]
fn padded_blocks_little_endian() {
    let mut it = PaddedBlocks::<16>::new(b"abc", 0, true);
    let block = it.next().unwrap();
    assert_eq!(block[0], 0x80636261);
    assert_eq!(block[14], 24);
    assert_eq!(block[15], 0);
    assert!(it.next().is_none());
}

#[test]
fn padded_blocks_put_the_length_in_one_more_block_after_56_bytes() {
    let data = [0x11u8; 56];
    let mut it = PaddedBlocks::<16>::new(&data, 8, false);
    let first = it.next().unwrap();
    assert_eq!(first[13], 0x11111111);
    assert_eq!(first[14], 0x80000000);
    assert_eq!(first[15], 0);
    let second = it.next().unwrap();
    assert_eq!(second[0], 0);
    assert_eq!(second[14], 0);
    assert_eq!(second[15], 512);
    assert!(it.next().is_none());
}

#[test]
fn padded_blocks_of_a_whole_chunk() {
    let data = [0x22u8; 64];
    let mut it = PaddedBlocks::<16>::new(&data, 0, false);
    assert_eq!(it.next().unwrap(), [0x22222222u32; 16]);
    let last = it.next().unwrap();
    assert_eq!(last[0], 0x80000000);
    assert_eq!(last[15], 512);
    assert!(it.next().is_none());
}

#[test]
fn place_bytes_pads_with_0x80_and_zeros() {
    let mut block = [0xffff_ffffu32; 16];
    place_bytes_in_block(&mut block, &[1, 2, 3, 4, 5], false);
    assert_eq!(block[0], 0x01020304);
    assert_eq!(block[1], 0x05800000);
    assert_eq!(block[2], 0);
    assert_eq!(block[15], 0);
}
