//! The MD4 digest, also continued from a given state.

use vstd::prelude::*;
use crate::bits::{le_byte32, le_word, rotl, rotl_spec, word_byte, word_from_be};
use crate::md_blocks::{padded_blocks, PaddedBlocks};
use crate::sha::digestible;

verus! {

/// The state that MD4 starts from.
pub const MD4_INIT: [u32; 4] = [0x67452301, 0xefcdab89, 0x98badcfe, 0x10325476];

/// The word of the block that each of the 48 steps reads.
pub const MD4_INDEX: [usize; 48] = [
    0, 1, 2, 3, 4, 5, 6, 7, 8, 9, 10, 11, 12, 13, 14, 15,
    0, 4, 8, 12, 1, 5, 9, 13, 2, 6, 10, 14, 3, 7, 11, 15,
    0, 8, 4, 12, 2, 10, 6, 14, 1, 9, 5, 13, 3, 11, 7, 15,
];

/// The rotation that each of the 48 steps ends with.
pub const MD4_SHIFT: [u32; 48] = [
    3, 7, 11, 19, 3, 7, 11, 19, 3, 7, 11, 19, 3, 7, 11, 19,
    3, 5, 9, 13, 3, 5, 9, 13, 3, 5, 9, 13, 3, 5, 9, 13,
    3, 9, 11, 15, 3, 9, 11, 15, 3, 9, 11, 15, 3, 9, 11, 15,
];

/// The selection function of the first round.
pub open spec fn md4_f_spec(x: u32, y: u32, z: u32) -> u32 {
    (x & y) | (!x & z)
}

/// The majority function of the second round.
pub open spec fn md4_g_spec(x: u32, y: u32, z: u32) -> u32 {
    (x & y) | (x & z) | (y & z)
}

/// The parity function of the third round.
pub open spec fn md4_h_spec(x: u32, y: u32, z: u32) -> u32 {
    x ^ y ^ z
}

/// What step `i` adds to its word besides the word of the block: the
/// function of its round over the other three words, and the constant of its
/// round.
pub open spec fn md4_mix(i: int, x: u32, y: u32, z: u32) -> u32 {
    if i < 16 {
        md4_f_spec(x, y, z)
    } else if i < 32 {
        md4_g_spec(x, y, z).wrapping_add(0x5a827999)
    } else {
        md4_h_spec(x, y, z).wrapping_add(0x6ed9eba1)
    }
}

/// The four working words after `t` steps over a block, with the word that
/// the next step changes in front.
pub open spec fn md4_steps(h: Seq<u32>, x: Seq<u32>, t: int) -> Seq<u32>
    decreases t,
{
    if t <= 0 {
        h
    } else {
        let p = md4_steps(h, x, t - 1);
        let i = t - 1;
        let v = rotl_spec(
            p[0].wrapping_add(md4_mix(i, p[1], p[2], p[3])).wrapping_add(
                x[MD4_INDEX@[i] as int],
            ),
            MD4_SHIFT@[i],
        );
        seq![p[3], v, p[1], p[2]]
    }
}

/// The state after a block: each word of the state plus the working word
/// that the 48 steps leave in its place.
pub open spec fn md4_compress(h: Seq<u32>, x: Seq<u32>) -> Seq<u32> {
    Seq::new(4, |i: int| h[i].wrapping_add(md4_steps(h, x, 48)[i]))
}

/// The state after a sequence of blocks.
pub open spec fn md4_fold(h: Seq<u32>, blocks: Seq<Seq<u32>>) -> Seq<u32>
    decreases blocks.len(),
{
    if blocks.len() == 0 {
        h
    } else {
        md4_fold(md4_compress(h, blocks[0]), blocks.drop_first())
    }
}

/// The words that a state of `4 * n` bytes holds, least significant byte
/// first.
pub open spec fn words_of_le_bytes(bytes: Seq<u8>, n: nat) -> Seq<u32> {
    Seq::new(n, |i: int| le_word(bytes[4 * i], bytes[4 * i + 1], bytes[4 * i + 2], bytes[4 * i + 3]))
}

/// The bytes of a sequence of words, least significant byte first.
pub open spec fn le_bytes_of_words(words: Seq<u32>) -> Seq<u8> {
    Seq::new(4 * words.len(), |j: int| le_byte32(words[j / 4], j % 4))
}

/// The state that a digest starts from: the one given as sixteen bytes, or
/// the standard one.
pub open spec fn md4_initial(state: Option<Seq<u8>>) -> Seq<u32> {
    match state {
        Some(bytes) => words_of_le_bytes(bytes, 4),
        None => MD4_INIT@,
    }
}

/// The digest of a message that starts from `state` and counts
/// `extra_byte_length` more bytes than the message holds into its length.
pub open spec fn md4_spec(input: Seq<u8>, state: Option<Seq<u8>>, extra_byte_length: nat) -> Seq<
    u8,
> {
    le_bytes_of_words(
        md4_fold(
            md4_initial(state),
            padded_blocks(input, 16, ((input.len() + extra_byte_length) * 8) as u64, true),
        ),
    )
}

/// The MD4 digest of a message.
pub fn md4_digest(input: &[u8]) -> (digest: [u8; 16])
    requires
        digestible(input@.len(), 0),
    ensures
        digest@ == md4_spec(input@, None, 0),
{
    do_md4_digest(input, None, 0)
}

/// The MD4 digest of a message that continues an earlier one: it starts from
/// the digest of the earlier message, and `head_bytes` is the length of what
/// was digested before, padding included.
pub fn md4_digest_from_state(input: &[u8], state: &[u8; 16], head_bytes: usize) -> (digest: [
    u8;
    16
])
    requires
        digestible(input@.len(), head_bytes as nat),
    ensures
        digest@ == md4_spec(input@, Some(state@), head_bytes as nat),
{
    do_md4_digest(input, Some(state), head_bytes)
}

fn do_md4_digest(input: &[u8], state: Option<&[u8; 16]>, extra_byte_length: usize) -> (digest: [
    u8;
    16
])
    requires
        digestible(input@.len(), extra_byte_length as nat),
    ensures
        digest@ == md4_spec(
            input@,
            match state {
                Some(s) => Some(s@),
                None => None,
            },
            extra_byte_length as nat,
        ),
{
    let mut h: [u32; 4] = MD4_INIT;
    if let Some(state) = state {
        let mut i: usize = 0;
        while i < 4
            invariant
                i <= 4,
                forall|j: int| 0 <= j < i ==> h@[j] == words_of_le_bytes(state@, 4)[j],
            decreases 4 - i,
        {
            h[i] = word_from_be(state[4 * i + 3], state[4 * i + 2], state[4 * i + 1], state[4 * i]);
            i += 1;
        }
        assert(h@ =~= words_of_le_bytes(state@, 4));
    }
    let mut blocks = PaddedBlocks::<16>::new(input, extra_byte_length, true);
    let ghost h0 = h@;
    let ghost all = blocks.remaining();
    loop
        invariant
            blocks.wf(),
            h@.len() == 4,
            md4_fold(h@, blocks.remaining()) == md4_fold(h0, all),
        ensures
            h@ == md4_fold(h0, all),
        decreases blocks.remaining().len(),
    {
        match blocks.next() {
            Some(block) => {
                let mut a: u32 = h[0];
                let mut b: u32 = h[1];
                let mut c: u32 = h[2];
                let mut d: u32 = h[3];
                let mut i: usize = 0;
                assert(seq![a, b, c, d] =~= h@);
                while i < 48
                    invariant
                        i <= 48,
                        seq![a, b, c, d] == md4_steps(h@, block@, i as int),
                    decreases 48 - i,
                {
                    let mix: u32 = if i < 16 {
                        md4_f(b, c, d)
                    } else if i < 32 {
                        md4_g(b, c, d).wrapping_add(0x5a827999)
                    } else {
                        md4_h(b, c, d).wrapping_add(0x6ed9eba1)
                    };
                    let v: u32 = rotl(
                        a.wrapping_add(mix).wrapping_add(block[MD4_INDEX[i]]),
                        MD4_SHIFT[i],
                    );
                    let ghost p = seq![a, b, c, d];
                    a = d;
                    d = c;
                    c = b;
                    b = v;
                    proof {
                        assert(p == md4_steps(h@, block@, i as int));
                        assert(seq![a, b, c, d] =~= md4_steps(h@, block@, i + 1));
                    }
                    i += 1;
                }
                let ghost before = h@;
                let ghost r = seq![a, b, c, d];
                h[0] = h[0].wrapping_add(a);
                h[1] = h[1].wrapping_add(b);
                h[2] = h[2].wrapping_add(c);
                h[3] = h[3].wrapping_add(d);
                proof {
                    assert(r[0] == a && r[1] == b && r[2] == c && r[3] == d);
                    assert(h@ =~= md4_compress(before, block@));
                }
            },
            None => {
                break ;
            },
        }
    }
    let mut digest: [u8; 16] = [0u8; 16];
    let mut i: usize = 0;
    while i < 4
        invariant
            i <= 4,
            forall|j: int| 0 <= j < 4 * i ==> digest@[j] == le_byte32(h@[j / 4], j % 4),
        decreases 4 - i,
    {
        digest[4 * i] = word_byte(h[i], 3);
        digest[4 * i + 1] = word_byte(h[i], 2);
        digest[4 * i + 2] = word_byte(h[i], 1);
        digest[4 * i + 3] = word_byte(h[i], 0);
        i += 1;
    }
    assert(digest@ =~= le_bytes_of_words(h@));
    digest
}

/// The selection function of the first round.
pub fn md4_f(x: u32, y: u32, z: u32) -> (r: u32)
    ensures
        r == md4_f_spec(x, y, z),
{
    (x & y) | (!x & z)
}

/// The majority function of the second round.
pub fn md4_g(x: u32, y: u32, z: u32) -> (r: u32)
    ensures
        r == md4_g_spec(x, y, z),
{
    (x & y) | (x & z) | (y & z)
}

/// The parity function of the third round.
pub fn md4_h(x: u32, y: u32, z: u32) -> (r: u32)
    ensures
        r == md4_h_spec(x, y, z),
{
    x ^ y ^ z
}

} // verus!
