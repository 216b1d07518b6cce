//! Pairs of neighbouring chunks of a buffer.

use vstd::prelude::*;
use vstd::slice::slice_subrange;

verus! {

/// Chunk `i` of a buffer cut into chunks of `size` bytes.
pub open spec fn chunk_at(buffer: Seq<u8>, size: int, i: int) -> Seq<u8> {
    buffer.subrange(i * size, i * size + size)
}

/// Walks over a buffer cut into chunks of one size, two chunks at a time:
/// chunks 0 and 1, then chunks 2 and 3, and so on. Chunks that do not fill a
/// pair are left out.
pub struct ChunkPairIter<'a> {
    buffer: &'a [u8],
    size: usize,
    pos: usize,
    pair_count: usize,
    pairs_left: usize,
}

impl<'a> ChunkPairIter<'a> {
    /// The buffer that is walked over.
    pub closed spec fn buffer(&self) -> Seq<u8> {
        self.buffer@
    }

    /// The size of a chunk.
    pub closed spec fn size(&self) -> int {
        self.size as int
    }

    /// The number of pairs in the buffer.
    pub closed spec fn pairs(&self) -> int {
        self.pair_count as int
    }

    /// The number of pairs that are still to come.
    pub closed spec fn pairs_left(&self) -> int {
        self.pairs_left as int
    }

    /// The cursor stands at the start of the next pair, and the pairs that
    /// are still to come lie inside the buffer.
    pub closed spec fn wf(&self) -> bool {
        &&& self.size > 0
        &&& self.pairs_left <= self.pair_count
        &&& self.pos == 2 * self.size * (self.pair_count - self.pairs_left)
        &&& self.pos + 2 * self.size * self.pairs_left <= self.buffer@.len()
    }

    /// A walk over `buffer` in chunks of `size` bytes, at its first pair.
    pub fn new(buffer: &'a [u8], size: usize) -> (it: Self)
        requires
            size > 0,
            2 * size <= usize::MAX,
        ensures
            it.wf(),
            it.buffer() == buffer@,
            it.size() == size,
            it.pairs() == buffer@.len() as int / (2 * size),
            it.pairs_left() == it.pairs(),
    {
        let pair_count: usize = buffer.len() / (2 * size);
        proof {
            let n = buffer@.len() as int;
            let d = 2 * size as int;
            assert(d * (n / d) <= n) by (nonlinear_arith)
                requires
                    d > 0,
                    n >= 0,
            ;
            assert(2 * size * pair_count == d * (n / d)) by (nonlinear_arith)
                requires
                    d == 2 * size,
                    pair_count == n / d,
            ;
            assert(2 * size * (pair_count - pair_count) == 0) by (nonlinear_arith);
        }
        Self { buffer, size, pos: 0, pair_count, pairs_left: pair_count }
    }

    /// The number of pairs in the buffer.
    pub fn pair_count(&self) -> (n: usize)
        ensures
            n == self.pairs(),
    {
        self.pair_count
    }

    /// The next pair of chunks, if one is left.
    pub fn next(&mut self) -> (r: Option<(&'a [u8], &'a [u8])>)
        requires
            old(self).wf(),
        ensures
            final(self).wf(),
            final(self).buffer() == old(self).buffer(),
            final(self).size() == old(self).size(),
            final(self).pairs() == old(self).pairs(),
            old(self).pairs_left() == 0 ==> r is None && final(self).pairs_left() == 0,
            old(self).pairs_left() > 0 ==> {
                let k = old(self).pairs() - old(self).pairs_left();
                &&& r is Some
                &&& r->Some_0.0@ == chunk_at(old(self).buffer(), old(self).size(), 2 * k)
                &&& r->Some_0.1@ == chunk_at(old(self).buffer(), old(self).size(), 2 * k + 1)
                &&& r->Some_0.0@.len() == old(self).size()
                &&& r->Some_0.1@.len() == old(self).size()
                &&& final(self).pairs_left() == old(self).pairs_left() - 1
            },
    {
        if self.pairs_left == 0 {
            return None;
        }
        let len: usize = self.buffer.len();
        proof {
            let s = self.size as int;
            let c = self.pair_count as int;
            let l = self.pairs_left as int;
            assert(2 * s * l >= 2 * s) by (nonlinear_arith)
                requires
                    l >= 1,
                    s > 0,
            ;
            assert(2 * s * (c - (l - 1)) == 2 * s * (c - l) + 2 * s) by (nonlinear_arith);
            assert(2 * s * (l - 1) == 2 * s * l - 2 * s) by (nonlinear_arith);
            assert((2 * (c - l)) * s == 2 * s * (c - l)) by (nonlinear_arith);
            assert((2 * (c - l) + 1) * s == 2 * s * (c - l) + s) by (nonlinear_arith);
            assert(self.pos + 2 * s <= len);
        }
        let first = slice_subrange(self.buffer, self.pos, self.pos + self.size);
        let second = slice_subrange(self.buffer, self.pos + self.size, self.pos + 2 * self.size);
        self.pairs_left -= 1;
        self.pos = self.pos + 2 * self.size;
        Some((first, second))
    }
}

} // verus!
