//! The SHA-1 digest, also continued from a given state, and a digest with the
//! compression function of SHA-256.

use vstd::prelude::*;
use crate::bits::{be_byte, be_word, rotl, rotl_spec, rotr, rotr_spec, word_byte, word_from_be};
use crate::md_blocks::{padded_blocks, PaddedBlocks};

verus! {

/// The state that SHA-1 starts from.
pub const SHA1_INIT: [u32; 5] = [0x67452301, 0xefcdab89, 0x98badcfe, 0x10325476, 0xc3d2e1f0];

/// The words that a state of `4 * n` bytes holds, most significant byte first.
pub open spec fn words_of_be_bytes(bytes: Seq<u8>, n: nat) -> Seq<u32> {
    Seq::new(n, |i: int| be_word(bytes[4 * i], bytes[4 * i + 1], bytes[4 * i + 2], bytes[4 * i + 3]))
}

/// The bytes of a sequence of words, most significant byte first.
pub open spec fn be_bytes_of_words(words: Seq<u32>) -> Seq<u8> {
    Seq::new(4 * words.len(), |j: int| be_byte(words[j / 4], j % 4))
}

/// The mixing function of round `t`.
pub open spec fn sha1_ft_spec(t: int, x: u32, y: u32, z: u32) -> u32 {
    if t < 20 {
        (x & y) ^ ((!x) & z)
    } else if t < 40 {
        x ^ y ^ z
    } else if t < 60 {
        (x & y) ^ (x & z) ^ (y & z)
    } else {
        x ^ y ^ z
    }
}

/// The constant of round `t`.
pub open spec fn sha1_kt_spec(t: int) -> u32 {
    if t < 20 {
        0x5a827999
    } else if t < 40 {
        0x6ed9eba1
    } else if t < 60 {
        0x8f1bbcdc
    } else {
        0xca62c1d6
    }
}

/// Word `i` of the message schedule of a block.
pub open spec fn sha1_w(m: Seq<u32>, i: int) -> u32
    decreases i,
{
    if i < 16 {
        m[i]
    } else {
        rotl_spec(sha1_w(m, i - 3) ^ sha1_w(m, i - 8) ^ sha1_w(m, i - 14) ^ sha1_w(m, i - 16), 1)
    }
}

/// The five working words after `t` rounds over a block.
pub open spec fn sha1_rounds(h: Seq<u32>, m: Seq<u32>, t: int) -> Seq<u32>
    decreases t,
{
    if t <= 0 {
        h
    } else {
        let p = sha1_rounds(h, m, t - 1);
        let i = t - 1;
        seq![
            rotl_spec(p[0], 5).wrapping_add(sha1_ft_spec(i, p[1], p[2], p[3])).wrapping_add(
                p[4],
            ).wrapping_add(sha1_kt_spec(i)).wrapping_add(sha1_w(m, i)),
            p[0],
            rotl_spec(p[1], 30),
            p[2],
            p[3],
        ]
    }
}

/// The state after a block: each word of the state plus the working word
/// that eighty rounds leave in its place.
pub open spec fn sha1_compress(h: Seq<u32>, m: Seq<u32>) -> Seq<u32> {
    Seq::new(5, |i: int| h[i].wrapping_add(sha1_rounds(h, m, 80)[i]))
}

/// The state after a sequence of blocks.
pub open spec fn sha1_fold(h: Seq<u32>, blocks: Seq<Seq<u32>>) -> Seq<u32>
    decreases blocks.len(),
{
    if blocks.len() == 0 {
        h
    } else {
        sha1_fold(sha1_compress(h, blocks[0]), blocks.drop_first())
    }
}

/// The state that a digest starts from: the one given as twenty bytes, or the
/// standard one.
pub open spec fn sha1_initial(state: Option<Seq<u8>>) -> Seq<u32> {
    match state {
        Some(bytes) => words_of_be_bytes(bytes, 5),
        None => SHA1_INIT@,
    }
}

/// The digest of a message that starts from `state` and counts
/// `extra_byte_length` more bytes than the message holds into its length.
pub open spec fn sha1_spec(input: Seq<u8>, state: Option<Seq<u8>>, extra_byte_length: nat) -> Seq<
    u8,
> {
    be_bytes_of_words(
        sha1_fold(
            sha1_initial(state),
            padded_blocks(input, 16, ((input.len() + extra_byte_length) * 8) as u64, false),
        ),
    )
}

/// The message and the bytes counted before it have a length in bits that
/// fits in 64 bits.
pub open spec fn digestible(len: nat, extra_byte_length: nat) -> bool {
    len + extra_byte_length <= usize::MAX && (len + extra_byte_length) * 8 <= u64::MAX
}

/// The SHA-1 digest of a message.
pub fn sha1_digest(input: &[u8]) -> (digest: [u8; 20])
    requires
        digestible(input@.len(), 0),
    ensures
        digest@ == sha1_spec(input@, None, 0),
{
    do_sha1_digest(input, None, 0)
}

/// The SHA-1 digest of a message that continues an earlier one: it starts
/// from the digest of the earlier message, and `head_bytes` is the length of
/// what was digested before, padding included.
pub fn sha1_digest_from_state(input: &[u8], state: &[u8; 20], head_bytes: usize) -> (digest: [
    u8;
    20
])
    requires
        digestible(input@.len(), head_bytes as nat),
    ensures
        digest@ == sha1_spec(input@, Some(state@), head_bytes as nat),
{
    do_sha1_digest(input, Some(state), head_bytes)
}

/// The words of a state given as bytes.
fn words_from_state<const N: usize, const B: usize>(state: &[u8; B]) -> (h: [u32; N])
    requires
        B == 4 * N,
    ensures
        h@ == words_of_be_bytes(state@, N as nat),
{
    let mut h: [u32; N] = [0u32; N];
    let mut i: usize = 0;
    while i < N
        invariant
            B == 4 * N,
            i <= N,
            forall|j: int| 0 <= j < i ==> h@[j] == words_of_be_bytes(state@, N as nat)[j],
        decreases N - i,
    {
        h[i] = word_from_be(state[4 * i], state[4 * i + 1], state[4 * i + 2], state[4 * i + 3]);
        i += 1;
    }
    assert(h@ =~= words_of_be_bytes(state@, N as nat));
    h
}

/// The bytes of a state.
fn state_to_bytes<const N: usize, const B: usize>(h: &[u32; N]) -> (digest: [u8; B])
    requires
        B == 4 * N,
    ensures
        digest@ == be_bytes_of_words(h@),
{
    let mut digest: [u8; B] = [0u8; B];
    let mut i: usize = 0;
    while i < N
        invariant
            B == 4 * N,
            i <= N,
            forall|j: int| 0 <= j < 4 * i ==> digest@[j] == be_byte(h@[j / 4], j % 4),
        decreases N - i,
    {
        digest[4 * i] = word_byte(h[i], 0);
        digest[4 * i + 1] = word_byte(h[i], 1);
        digest[4 * i + 2] = word_byte(h[i], 2);
        digest[4 * i + 3] = word_byte(h[i], 3);
        i += 1;
    }
    assert(digest@ =~= be_bytes_of_words(h@));
    digest
}

fn do_sha1_digest(input: &[u8], state: Option<&[u8; 20]>, extra_byte_length: usize) -> (digest: [
    u8;
    20
])
    requires
        digestible(input@.len(), extra_byte_length as nat),
    ensures
        digest@ == sha1_spec(
            input@,
            match state {
                Some(s) => Some(s@),
                None => None,
            },
            extra_byte_length as nat,
        ),
{
    let mut h: [u32; 5] = match state {
        Some(state) => words_from_state::<5, 20>(state),
        None => SHA1_INIT,
    };
    let mut blocks = PaddedBlocks::<16>::new(input, extra_byte_length, false);
    let ghost h0 = h@;
    let ghost all = blocks.remaining();
    loop
        invariant
            blocks.wf(),
            h@.len() == 5,
            sha1_fold(h@, blocks.remaining()) == sha1_fold(h0, all),
        ensures
            h@ == sha1_fold(h0, all),
        decreases blocks.remaining().len(),
    {
        match blocks.next() {
            Some(block) => {
                let w = sha1_schedule(&block);
                let mut a: u32 = h[0];
                let mut b: u32 = h[1];
                let mut c: u32 = h[2];
                let mut d: u32 = h[3];
                let mut e: u32 = h[4];
                let mut i: usize = 0;
                assert(seq![a, b, c, d, e] =~= h@);
                while i < 80
                    invariant
                        i <= 80,
                        forall|j: int| 0 <= j < 80 ==> w@[j] == sha1_w(block@, j),
                        seq![a, b, c, d, e] == sha1_rounds(h@, block@, i as int),
                    decreases 80 - i,
                {
                    let t: u32 = rotl(a, 5).wrapping_add(sha1_ft(i, b, c, d)).wrapping_add(
                        e,
                    ).wrapping_add(sha1_kt(i)).wrapping_add(w[i]);
                    let ghost p = seq![a, b, c, d, e];
                    e = d;
                    d = c;
                    c = rotl(b, 30);
                    b = a;
                    a = t;
                    proof {
                        assert(seq![a, b, c, d, e] =~= sha1_rounds(h@, block@, i + 1));
                    }
                    i += 1;
                }
                let ghost before = h@;
                let ghost r = seq![a, b, c, d, e];
                h[0] = h[0].wrapping_add(a);
                h[1] = h[1].wrapping_add(b);
                h[2] = h[2].wrapping_add(c);
                h[3] = h[3].wrapping_add(d);
                h[4] = h[4].wrapping_add(e);
                proof {
                    assert(r[0] == a && r[1] == b && r[2] == c && r[3] == d && r[4] == e);
                    assert(h@ =~= sha1_compress(before, block@));
                }
            },
            None => {
                break ;
            },
        }
    }
    state_to_bytes::<5, 20>(&h)
}

/// The message schedule of a block.
pub fn sha1_schedule(m: &[u32; 16]) -> (w: [u32; 80])
    ensures
        forall|i: int| 0 <= i < 80 ==> w@[i] == sha1_w(m@, i),
{
    let mut w: [u32; 80] = [0u32; 80];
    let mut i: usize = 0;
    while i < 16
        invariant
            i <= 16,
            forall|j: int| 0 <= j < i ==> w@[j] == sha1_w(m@, j),
        decreases 16 - i,
    {
        w[i] = m[i];
        i += 1;
    }
    while i < 80
        invariant
            16 <= i <= 80,
            forall|j: int| 0 <= j < i ==> w@[j] == sha1_w(m@, j),
        decreases 80 - i,
    {
        w[i] = rotl(w[i - 3] ^ w[i - 8] ^ w[i - 14] ^ w[i - 16], 1);
        i += 1;
    }
    w
}

/// The mixing function of round `t`.
pub fn sha1_ft(t: usize, x: u32, y: u32, z: u32) -> (r: u32)
    requires
        t < 80,
    ensures
        r == sha1_ft_spec(t as int, x, y, z),
{
    if t < 20 {
        (x & y) ^ ((!x) & z)
    } else if t < 40 {
        x ^ y ^ z
    } else if t < 60 {
        (x & y) ^ (x & z) ^ (y & z)
    } else {
        x ^ y ^ z
    }
}

/// The constant of round `t`.
pub fn sha1_kt(t: usize) -> (r: u32)
    requires
        t < 80,
    ensures
        r == sha1_kt_spec(t as int),
{
    if t < 20 {
        0x5a827999
    } else if t < 40 {
        0x6ed9eba1
    } else if t < 60 {
        0x8f1bbcdc
    } else {
        0xca62c1d6
    }
}

/// The round constants of the SHA-256 compression function.
pub const SHA256K: [u32; 64] = [
    0x428a2f98, 0x71374491, 0xb5c0fbcf, 0xe9b5dba5, 0x3956c25b, 0x59f111f1, 0x923f82a4, 0xab1c5ed5,
    0xd807aa98, 0x12835b01, 0x243185be, 0x550c7dc3, 0x72be5d74, 0x80deb1fe, 0x9bdc06a7, 0xc19bf174,
    0xe49b69c1, 0xefbe4786, 0x0fc19dc6, 0x240ca1cc, 0x2de92c6f, 0x4a7484aa, 0x5cb0a9dc, 0x76f988da,
    0x983e5152, 0xa831c66d, 0xb00327c8, 0xbf597fc7, 0xc6e00bf3, 0xd5a79147, 0x06ca6351, 0x14292967,
    0x27b70a85, 0x2e1b2138, 0x4d2c6dfc, 0x53380d13, 0x650a7354, 0x766a0abb, 0x81c2c92e, 0x92722c85,
    0xa2bfe8a1, 0xa81a664b, 0xc24b8b70, 0xc76c51a3, 0xd192e819, 0xd6990624, 0xf40e3585, 0x106aa070,
    0x19a4c116, 0x1e376c08, 0x2748774c, 0x34b0bcb5, 0x391c0cb3, 0x4ed8aa4a, 0x5b9cca4f, 0x682e6ff3,
    0x748f82ee, 0x78a5636f, 0x84c87814, 0x8cc70208, 0x90befffa, 0xa4506ceb, 0xbef9a3f7, 0xc67178f2,
];

/// The state that the SHA-256 compression starts from.
pub const SHA256_INIT: [u32; 8] = [
    0x6a09e667, 0xbb67ae85, 0x3c6ef372, 0xa54ff53a, 0x510e527f, 0x9b05688c, 0x1f83d9ab, 0x5be0cd19,
];

/// Word `i` of the message schedule: the first sixteen words of the block,
/// then each word from four earlier ones.
pub open spec fn sha256_w(m: Seq<u32>, i: int) -> u32
    decreases i,
{
    if i < 16 {
        m[i]
    } else {
        let s1 = sha256_w(m, i - 2);
        let s0 = sha256_w(m, i - 15);
        (rotr_spec(s1, 17) ^ rotr_spec(s1, 19) ^ (s1 >> 10)).wrapping_add(
            sha256_w(m, i - 7),
        ).wrapping_add(rotr_spec(s0, 7) ^ rotr_spec(s0, 18) ^ (s0 >> 3)).wrapping_add(
            sha256_w(m, i - 16),
        )
    }
}

/// The eight working words after `t` rounds over a block.
pub open spec fn sha256_rounds(h: Seq<u32>, m: Seq<u32>, t: int) -> Seq<u32>
    decreases t,
{
    if t <= 0 {
        h
    } else {
        let p = sha256_rounds(h, m, t - 1);
        let i = t - 1;
        let t1 = p[7].wrapping_add(
            rotr_spec(p[4], 6) ^ rotr_spec(p[4], 11) ^ rotr_spec(p[4], 25),
        ).wrapping_add((p[4] & p[5]) ^ ((!p[4]) & p[6])).wrapping_add(SHA256K@[i]).wrapping_add(
            sha256_w(m, i),
        );
        let t2 = (rotr_spec(p[0], 2) ^ rotr_spec(p[0], 13) ^ rotr_spec(p[0], 22)).wrapping_add(
            (p[0] & p[1]) ^ (p[0] & p[2]) ^ (p[1] & p[2]),
        );
        seq![t1.wrapping_add(t2), p[0], p[1], p[2], p[3].wrapping_add(t1), p[4], p[5], p[6]]
    }
}

/// The state after a block.
pub open spec fn sha256_compress(h: Seq<u32>, m: Seq<u32>) -> Seq<u32> {
    Seq::new(8, |i: int| h[i].wrapping_add(sha256_rounds(h, m, 64)[i]))
}

/// The state after a sequence of blocks.
pub open spec fn sha256_fold(h: Seq<u32>, blocks: Seq<Seq<u32>>) -> Seq<u32>
    decreases blocks.len(),
{
    if blocks.len() == 0 {
        h
    } else {
        sha256_fold(sha256_compress(h, blocks[0]), blocks.drop_first())
    }
}

/// The state that a digest starts from: the one given as thirty-two bytes,
/// or the standard one.
pub open spec fn sha256_initial(state: Option<Seq<u8>>) -> Seq<u32> {
    match state {
        Some(bytes) => words_of_be_bytes(bytes, 8),
        None => SHA256_INIT@,
    }
}

/// The digest of a message: the message is read in padded blocks of 64
/// words, that is in chunks of 256 bytes, and the compression function reads
/// the first sixteen words of each block.
pub open spec fn sha256_spec(input: Seq<u8>, state: Option<Seq<u8>>, extra_byte_length: nat) -> Seq<
    u8,
> {
    be_bytes_of_words(
        sha256_fold(
            sha256_initial(state),
            padded_blocks(input, 64, ((input.len() + extra_byte_length) * 8) as u64, false),
        ),
    )
}

/// The digest of a message with the compression function of SHA-256. Of
/// each chunk of 256 bytes the first 64 enter the digest; for a message of
/// at most 55 bytes the result is its SHA-256 digest.
pub fn sha256_digest(input: &[u8]) -> (digest: [u8; 32])
    requires
        digestible(input@.len(), 0),
    ensures
        digest@ == sha256_spec(input@, None, 0),
{
    do_sha256_digest(input, None, 0)
}

fn do_sha256_digest(input: &[u8], state: Option<&[u8; 32]>, extra_byte_length: usize) -> (digest: [
    u8;
    32
])
    requires
        digestible(input@.len(), extra_byte_length as nat),
    ensures
        digest@ == sha256_spec(
            input@,
            match state {
                Some(s) => Some(s@),
                None => None,
            },
            extra_byte_length as nat,
        ),
{
    let mut hbig: [u32; 8] = match state {
        Some(state) => words_from_state::<8, 32>(state),
        None => SHA256_INIT,
    };
    let mut blocks = PaddedBlocks::<64>::new(input, extra_byte_length, false);
    let ghost h0 = hbig@;
    let ghost all = blocks.remaining();
    loop
        invariant
            blocks.wf(),
            hbig@.len() == 8,
            sha256_fold(hbig@, blocks.remaining()) == sha256_fold(h0, all),
        ensures
            hbig@ == sha256_fold(h0, all),
        decreases blocks.remaining().len(),
    {
        match blocks.next() {
            Some(first) => {
                let mut block = first;
                sha256_schedule(&mut block);
                let mut a: u32 = hbig[0];
                let mut b: u32 = hbig[1];
                let mut c: u32 = hbig[2];
                let mut d: u32 = hbig[3];
                let mut e: u32 = hbig[4];
                let mut f: u32 = hbig[5];
                let mut g: u32 = hbig[6];
                let mut h: u32 = hbig[7];
                let mut i: usize = 0;
                assert(seq![a, b, c, d, e, f, g, h] =~= hbig@);
                while i < 64
                    invariant
                        i <= 64,
                        forall|j: int| 0 <= j < 64 ==> block@[j] == sha256_w(first@, j),
                        seq![a, b, c, d, e, f, g, h] == sha256_rounds(hbig@, first@, i as int),
                    decreases 64 - i,
                {
                    let t1: u32 = h.wrapping_add(rotr(e, 6) ^ rotr(e, 11) ^ rotr(e, 25)).wrapping_add(
                        (e & f) ^ ((!e) & g),
                    ).wrapping_add(SHA256K[i]).wrapping_add(block[i]);
                    let t2: u32 = (rotr(a, 2) ^ rotr(a, 13) ^ rotr(a, 22)).wrapping_add(
                        (a & b) ^ (a & c) ^ (b & c),
                    );
                    let ghost p = seq![a, b, c, d, e, f, g, h];
                    h = g;
                    g = f;
                    f = e;
                    e = d.wrapping_add(t1);
                    d = c;
                    c = b;
                    b = a;
                    a = t1.wrapping_add(t2);
                    proof {
                        assert(p == sha256_rounds(hbig@, first@, i as int));
                        assert(seq![a, b, c, d, e, f, g, h] =~= sha256_rounds(hbig@, first@, i + 1));
                    }
                    i += 1;
                }
                let ghost before = hbig@;
                let ghost r = seq![a, b, c, d, e, f, g, h];
                hbig[0] = hbig[0].wrapping_add(a);
                hbig[1] = hbig[1].wrapping_add(b);
                hbig[2] = hbig[2].wrapping_add(c);
                hbig[3] = hbig[3].wrapping_add(d);
                hbig[4] = hbig[4].wrapping_add(e);
                hbig[5] = hbig[5].wrapping_add(f);
                hbig[6] = hbig[6].wrapping_add(g);
                hbig[7] = hbig[7].wrapping_add(h);
                proof {
                    assert(r[0] == a && r[1] == b && r[2] == c && r[3] == d);
                    assert(r[4] == e && r[5] == f && r[6] == g && r[7] == h);
                    assert(hbig@ =~= sha256_compress(before, first@));
                }
            },
            None => {
                break ;
            },
        }
    }
    state_to_bytes::<8, 32>(&hbig)
}

/// Turns a block into its message schedule: the first sixteen words stay,
/// the others are replaced.
pub fn sha256_schedule(block: &mut [u32; 64])
    ensures
        forall|i: int| 0 <= i < 64 ==> final(block)@[i] == sha256_w(old(block)@, i),
{
    let mut i: usize = 16;
    while i < 64
        invariant
            16 <= i <= 64,
            forall|j: int| 0 <= j < 16 ==> block@[j] == old(block)@[j],
            forall|j: int| 0 <= j < i ==> block@[j] == sha256_w(old(block)@, j),
        decreases 64 - i,
    {
        let s1: u32 = block[i - 2];
        let s0: u32 = block[i - 15];
        block[i] = (rotr(s1, 17) ^ rotr(s1, 19) ^ (s1 >> 10)).wrapping_add(
            block[i - 7],
        ).wrapping_add(rotr(s0, 7) ^ rotr(s0, 18) ^ (s0 >> 3)).wrapping_add(block[i - 16]);
        i += 1;
    }
}

} // verus!
