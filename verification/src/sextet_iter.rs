//! A buffer read six bits at a time.

use vstd::prelude::*;

verus! {

/// Byte `i` of a buffer; zero past its end.
pub open spec fn byte_or_zero(bytes: Seq<u8>, i: int) -> u8 {
    if 0 <= i < bytes.len() {
        bytes[i]
    } else {
        0
    }
}

/// The number of sextets that cover `len` bytes: four for every three bytes,
/// two for one byte left over, three for two.
pub open spec fn sextet_count(len: nat) -> nat {
    if len % 3 == 0 {
        4 * (len / 3)
    } else if len % 3 == 1 {
        4 * (len / 3) + 2
    } else {
        4 * (len / 3) + 3
    }
}

/// Sextet `k` of a buffer: bits `6 * k` to `6 * k + 5` of its bit string,
/// most significant bit first, with zero bits past the end.
pub open spec fn sextet_at(bytes: Seq<u8>, k: int) -> u8 {
    let g = k / 4;
    let b0 = byte_or_zero(bytes, 3 * g);
    let b1 = byte_or_zero(bytes, 3 * g + 1);
    let b2 = byte_or_zero(bytes, 3 * g + 2);
    if k % 4 == 0 {
        b0 >> 2
    } else if k % 4 == 1 {
        ((b0 << 4) & 0x30) | (b1 >> 4)
    } else if k % 4 == 2 {
        ((b1 << 2) & 0x3c) | (b2 >> 6)
    } else {
        b2 & 0x3f
    }
}

/// Walks over the sextets of a buffer.
pub struct SextetIter<'a> {
    bytes: &'a [u8],
    pos: usize,
    head: [u8; 4],
    sextets_in_head: u8,
    sextet_index: usize,
}

impl<'a> SextetIter<'a> {
    /// The buffer that is read.
    pub closed spec fn source(&self) -> Seq<u8> {
        self.bytes@
    }

    /// The number of sextets handed out so far.
    pub closed spec fn produced(&self) -> int {
        sextet_count(self.pos as nat) - self.sextets_in_head
    }

    /// The bytes read so far are whole groups of three or the whole buffer,
    /// and the head holds the sextets of the group read last.
    pub closed spec fn wf(&self) -> bool {
        &&& self.pos <= self.bytes@.len()
        &&& (self.pos % 3 == 0 || self.pos == self.bytes@.len())
        &&& self.sextet_index + self.sextets_in_head <= 4
        &&& self.sextets_in_head > 0 ==> {
            &&& self.sextets_in_head <= sextet_count(self.pos as nat)
            &&& self.produced() % 4 == self.sextet_index
            &&& forall|t: int|
                0 <= t < 4 ==> self.head@[t] == sextet_at(
                    self.bytes@,
                    self.produced() - self.sextet_index + t,
                )
        }
    }

    /// A walk over the sextets of `buffer`, at the first one.
    pub fn new(buffer: &'a [u8]) -> (it: Self)
        ensures
            it.wf(),
            it.source() == buffer@,
            it.produced() == 0,
    {
        Self { bytes: buffer, pos: 0, head: [0u8; 4], sextets_in_head: 0, sextet_index: 0 }
    }

    /// The byte at the cursor, or zero at the end; the cursor moves on where
    /// a byte was there.
    fn take_byte(&mut self) -> (b: u8)
        requires
            old(self).pos <= old(self).bytes@.len(),
        ensures
            b == byte_or_zero(old(self).bytes@, old(self).pos as int),
            final(self).bytes == old(self).bytes,
            final(self).head == old(self).head,
            final(self).sextets_in_head == old(self).sextets_in_head,
            final(self).sextet_index == old(self).sextet_index,
            final(self).pos == if old(self).pos < old(self).bytes@.len() {
                old(self).pos + 1
            } else {
                old(self).pos as int
            },
    {
        if self.pos < self.bytes.len() {
            let b = self.bytes[self.pos];
            self.pos += 1;
            b
        } else {
            0
        }
    }

    /// Reads up to three bytes into the head as sextets.
    fn convert_available_bytes(&mut self)
        requires
            old(self).wf(),
            old(self).sextets_in_head == 0,
        ensures
            final(self).wf(),
            final(self).source() == old(self).source(),
            final(self).produced() == old(self).produced(),
            final(self).sextet_index == 0,
            final(self).sextets_in_head == 0 <==> old(self).produced() >= sextet_count(
                old(self).source().len(),
            ),
            final(self).sextets_in_head == 0 ==> final(self).pos == old(self).pos,
    {
        let bytes_left: usize = self.bytes.len() - self.pos;
        let ghost start = self.pos as int;
        let b0 = self.take_byte();
        let b1 = self.take_byte();
        let b2 = self.take_byte();
        self.head[0] = b0 >> 2;
        self.head[1] = ((b0 << 4) & 0x30) | (b1 >> 4);
        self.head[2] = ((b1 << 2) & 0x3c) | (b2 >> 6);
        self.head[3] = b2 & 0x3f;
        self.sextets_in_head = if bytes_left == 0 {
            0
        } else if bytes_left == 1 {
            2
        } else if bytes_left == 2 {
            3
        } else {
            4
        };
        self.sextet_index = 0;
        proof {
            if bytes_left > 0 {
                assert(start % 3 == 0);
                let g = start / 3;
                assert(self.produced() == 4 * g);
                assert forall|t: int| 0 <= t < 4 implies self.head@[t] == sextet_at(
                    self.bytes@,
                    self.produced() - self.sextet_index + t,
                ) by {
                    assert((4 * g + t) / 4 == g);
                    assert((4 * g + t) % 4 == t);
                }
            }
        }
    }

    /// The next sextet, if one is left.
    pub fn next(&mut self) -> (r: Option<u8>)
        requires
            old(self).wf(),
        ensures
            final(self).wf(),
            final(self).source() == old(self).source(),
            old(self).produced() < sextet_count(old(self).source().len()) ==> r == Some(
                sextet_at(old(self).source(), old(self).produced()),
            ) && final(self).produced() == old(self).produced() + 1,
            old(self).produced() >= sextet_count(old(self).source().len()) ==> r is None
                && final(self).produced() == old(self).produced(),
    {
        proof {
            lemma_sextet_count_monotonic(self.pos as nat, self.bytes@.len());
        }
        if self.sextets_in_head == 0 {
            self.convert_available_bytes();
        }
        if self.sextets_in_head == 0 {
            return None;
        }
        proof {
            lemma_sextet_count_monotonic(self.pos as nat, self.bytes@.len());
        }
        let sextet = self.head[self.sextet_index];
        self.sextets_in_head -= 1;
        self.sextet_index += 1;
        Some(sextet)
    }
}

/// More bytes never give fewer sextets.
pub proof fn lemma_sextet_count_monotonic(a: nat, b: nat)
    requires
        a <= b,
    ensures
        sextet_count(a) <= sextet_count(b),
{
}

} // verus!
