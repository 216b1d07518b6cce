//! The padded blocks of a message, as the Merkle-Damgard digests read them.
//!
//! A message is cut into chunks of `4 * N` bytes, each read as `N` words.
//! The rest of the message is followed by the byte `0x80` and by zeros; the
//! length of the message in bits goes into words 14 and 15 of that block
//! where the rest is at most 55 bytes long, and of one more block otherwise.

use vstd::prelude::*;
use crate::bits::{be_word, le_word, word_from_be};

verus! {

/// Byte `j` of a chunk once it is padded: the chunk itself, then `0x80`,
/// then zeros.
pub open spec fn padded_byte(bytes: Seq<u8>, j: int) -> u8 {
    if j < bytes.len() {
        bytes[j]
    } else if j == bytes.len() {
        0x80
    } else {
        0
    }
}

/// Word `i` of a padded chunk, in the byte order asked for.
pub open spec fn chunk_word(bytes: Seq<u8>, i: int, little_endian: bool) -> u32 {
    let b0 = padded_byte(bytes, 4 * i);
    let b1 = padded_byte(bytes, 4 * i + 1);
    let b2 = padded_byte(bytes, 4 * i + 2);
    let b3 = padded_byte(bytes, 4 * i + 3);
    if little_endian {
        le_word(b0, b1, b2, b3)
    } else {
        be_word(b0, b1, b2, b3)
    }
}

/// The first `n` words of a padded chunk.
pub open spec fn chunk_words(bytes: Seq<u8>, n: nat, little_endian: bool) -> Seq<u32> {
    Seq::new(n, |i: int| chunk_word(bytes, i, little_endian))
}

/// Word 14 of the block that holds the length: the high half of the bit
/// length in big-endian order, the low half in little-endian order.
pub open spec fn length_word14(bit_length: u64, little_endian: bool) -> u32 {
    if little_endian {
        bit_length as u32
    } else {
        (bit_length >> 32) as u32
    }
}

/// Word 15 of the block that holds the length: the other half.
pub open spec fn length_word15(bit_length: u64, little_endian: bool) -> u32 {
    if little_endian {
        (bit_length >> 32) as u32
    } else {
        bit_length as u32
    }
}

/// A block with the length written into words 14 and 15.
pub open spec fn with_length(block: Seq<u32>, bit_length: u64, little_endian: bool) -> Seq<u32> {
    block.update(14, length_word14(bit_length, little_endian)).update(
        15,
        length_word15(bit_length, little_endian),
    )
}

/// The blocks that end a message whose rest after the whole chunks is `tail`.
pub open spec fn final_blocks(tail: Seq<u8>, n: nat, bit_length: u64, little_endian: bool) -> Seq<
    Seq<u32>,
> {
    if tail.len() > 55 {
        seq![
            chunk_words(tail, n, little_endian),
            with_length(Seq::new(n, |i: int| 0u32), bit_length, little_endian),
        ]
    } else {
        seq![with_length(chunk_words(tail, n, little_endian), bit_length, little_endian)]
    }
}

/// The padded blocks of a message of `n` words each: its whole chunks, then
/// its final blocks.
pub open spec fn padded_blocks(input: Seq<u8>, n: nat, bit_length: u64, little_endian: bool) -> Seq<
    Seq<u32>,
>
    decreases input.len(),
{
    if n > 0 && input.len() >= 4 * n {
        seq![chunk_words(input.subrange(0, 4 * n as int), n, little_endian)] + padded_blocks(
            input.subrange(4 * n as int, input.len() as int),
            n,
            bit_length,
            little_endian,
        )
    } else {
        final_blocks(input, n, bit_length, little_endian)
    }
}

/// Reads a padded chunk into a block of words.
pub fn place_bytes_in_block<const N: usize>(block: &mut [u32; N], bytes: &[u8], little_endian: bool)
    requires
        4 * N <= usize::MAX,
    ensures
        final(block)@ == chunk_words(bytes@, N as nat, little_endian),
{
    let len: usize = bytes.len();
    let mut i: usize = 0;
    while i < N
        invariant
            i <= N,
            4 * N <= usize::MAX,
            len == bytes@.len(),
            forall|j: int| 0 <= j < i ==> block@[j] == chunk_word(bytes@, j, little_endian),
        decreases N - i,
    {
        let b0 = padded_at(bytes, 4 * i);
        let b1 = padded_at(bytes, 4 * i + 1);
        let b2 = padded_at(bytes, 4 * i + 2);
        let b3 = padded_at(bytes, 4 * i + 3);
        block[i] = if little_endian {
            word_from_be(b3, b2, b1, b0)
        } else {
            word_from_be(b0, b1, b2, b3)
        };
        i += 1;
    }
    assert(block@ =~= chunk_words(bytes@, N as nat, little_endian));
}

/// Byte `j` of a padded chunk.
pub fn padded_at(bytes: &[u8], j: usize) -> (b: u8)
    ensures
        b == padded_byte(bytes@, j as int),
{
    if j < bytes.len() {
        bytes[j]
    } else if j == bytes.len() {
        0x80
    } else {
        0
    }
}

/// Walks over the padded blocks of a message.
pub struct PaddedBlocks<'a, const N: usize> {
    input: &'a [u8],
    pos: usize,
    tail_block: Option<[u32; N]>,
    bit_length: u64,
    little_endian: bool,
    done: bool,
}

impl<'a, const N: usize> PaddedBlocks<'a, N> {
    /// A block has at least sixteen words, and the cursor lies inside the
    /// message.
    pub closed spec fn wf(&self) -> bool {
        &&& 16 <= N
        &&& 4 * N <= usize::MAX
        &&& self.pos <= self.input@.len()
        &&& !self.done ==> self.tail_block is None
    }

    /// The blocks that are still to come.
    pub closed spec fn remaining(&self) -> Seq<Seq<u32>> {
        if self.done {
            match self.tail_block {
                Some(block) => seq![block@],
                None => Seq::empty(),
            }
        } else {
            padded_blocks(
                self.input@.subrange(self.pos as int, self.input@.len() as int),
                N as nat,
                self.bit_length,
                self.little_endian,
            )
        }
    }

    /// A walk over the padded blocks of `input`. The length that goes into
    /// the padding is that of the input and of `extra_byte_length` bytes that
    /// are taken to have come before it, in bits.
    pub fn new(input: &'a [u8], extra_byte_length: usize, little_endian: bool) -> (it: Self)
        requires
            16 <= N,
            4 * N <= usize::MAX,
            input@.len() + extra_byte_length <= usize::MAX,
            (input@.len() + extra_byte_length) * 8 <= u64::MAX,
        ensures
            it.wf(),
            it.remaining() == padded_blocks(
                input@,
                N as nat,
                ((input@.len() + extra_byte_length) * 8) as u64,
                little_endian,
            ),
    {
        let it = Self {
            input,
            pos: 0,
            tail_block: None,
            bit_length: ((input.len() + extra_byte_length) as u64) * 8,
            little_endian,
            done: false,
        };
        proof {
            assert(input@.subrange(0, input@.len() as int) =~= input@);
        }
        it
    }

    /// The next block, if one is left.
    pub fn next(&mut self) -> (r: Option<[u32; N]>)
        requires
            old(self).wf(),
        ensures
            final(self).wf(),
            old(self).remaining().len() == 0 ==> r is None && final(self).remaining().len() == 0,
            old(self).remaining().len() > 0 ==> r is Some && r->Some_0@ == old(self).remaining()[0]
                && final(self).remaining() == old(self).remaining().drop_first(),
    {
        if self.done {
            let tail_block = self.tail_block;
            self.tail_block = None;
            proof {
                if tail_block is Some {
                    assert(self.remaining() =~= old(self).remaining().drop_first());
                }
            }
            return tail_block;
        }
        let mut block: [u32; N] = [0u32; N];
        let len: usize = self.input.len();
        let ghost rest = self.input@.subrange(self.pos as int, len as int);
        if len - self.pos >= 4 * N {
            let chunk = vstd::slice::slice_subrange(self.input, self.pos, self.pos + 4 * N);
            place_bytes_in_block(&mut block, chunk, self.little_endian);
            self.pos = self.pos + 4 * N;
            proof {
                assert(rest.subrange(0, 4 * N as int) =~= chunk@);
                assert(rest.subrange(4 * N as int, rest.len() as int) =~= self.input@.subrange(
                    self.pos as int,
                    len as int,
                ));
                assert(self.remaining() =~= old(self).remaining().drop_first());
            }
            return Some(block);
        }
        let tail = vstd::slice::slice_subrange(self.input, self.pos, len);
        let tail_bytes: usize = tail.len();
        place_bytes_in_block(&mut block, tail, self.little_endian);
        let high: u32 = #[verifier::truncate]
        ((self.bit_length >> 32) as u32);
        let low: u32 = #[verifier::truncate]
        (self.bit_length as u32);
        let (word14, word15) = if self.little_endian {
            (low, high)
        } else {
            (high, low)
        };
        if tail_bytes > 55 {
            let mut tail_block: [u32; N] = [0u32; N];
            tail_block[14] = word14;
            tail_block[15] = word15;
            proof {
                assert(tail_block@ =~= with_length(
                    Seq::new(N as nat, |i: int| 0u32),
                    self.bit_length,
                    self.little_endian,
                ));
            }
            self.tail_block = Some(tail_block);
        } else {
            block[14] = word14;
            block[15] = word15;
        }
        self.done = true;
        proof {
            assert(tail@ == rest);
            assert(self.remaining() =~= old(self).remaining().drop_first());
        }
        Some(block)
    }
}

} // verus!
