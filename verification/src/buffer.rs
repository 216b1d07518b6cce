//! A byte buffer with the conversions and searches that the attacks on the
//! ciphers are built from.

use vstd::prelude::*;
use vstd::string::StringSliceAdditionalSpecFns;
use crate::aes::ctr::{aes_ctr, ctr_spec};
use crate::aes::key::{key_schedule_spec, AesKey};
use crate::chunk_pair_iter::{chunk_at, ChunkPairIter};
use crate::base64::{base64_decode_spec, base64_spec, base64_to_bytes, bytes_to_base64, decodable};
use crate::hexcodec::{hex_decode, hex_decode_spec, hex_encode, hex_encode_spec, is_hex};

verus! {

/// The number of bits that are set in a byte.
pub open spec fn popcount(x: u8) -> nat {
    (((x >> 0) & 1) + ((x >> 1) & 1) + ((x >> 2) & 1) + ((x >> 3) & 1) + ((x >> 4) & 1) + ((x >> 5)
        & 1) + ((x >> 6) & 1) + ((x >> 7) & 1)) as nat
}

/// The number of bits in which the first `n` bytes of two buffers differ.
pub open spec fn hamming_spec(a: Seq<u8>, b: Seq<u8>, n: int) -> nat
    decreases n,
{
    if n <= 0 {
        0
    } else {
        hamming_spec(a, b, n - 1) + popcount(a[n - 1] ^ b[n - 1])
    }
}

/// The shorter of two lengths.
pub open spec fn min_len(a: Seq<u8>, b: Seq<u8>) -> int {
    if a.len() <= b.len() {
        a.len() as int
    } else {
        b.len() as int
    }
}

/// Two buffers xored, each repeated as often as the longer one needs. Where
/// one of them is empty, so is the result.
pub open spec fn cyclic_xor(a: Seq<u8>, b: Seq<u8>) -> Seq<u8> {
    if a.len() == 0 || b.len() == 0 {
        Seq::empty()
    } else {
        Seq::new(
            if a.len() >= b.len() {
                a.len()
            } else {
                b.len()
            },
            |i: int| a[i % a.len() as int] ^ b[i % b.len() as int],
        )
    }
}

/// Of the first `n` bytes of a buffer, those at the places that leave `k`
/// when divided by `size`, in order.
pub open spec fn column(s: Seq<u8>, size: int, k: int, n: int) -> Seq<u8>
    decreases n,
{
    if n <= 0 {
        Seq::empty()
    } else if (n - 1) % size == k {
        column(s, size, k, n - 1).push(s[n - 1])
    } else {
        column(s, size, k, n - 1)
    }
}

/// The number of bits in which the two chunks of each of the first `n` pairs
/// of a buffer differ, summed over the pairs.
pub open spec fn pair_distance_sum(s: Seq<u8>, size: int, n: int) -> nat
    decreases n,
{
    if n <= 0 {
        0
    } else {
        pair_distance_sum(s, size, n - 1) + hamming_spec(
            chunk_at(s, size, 2 * (n - 1)),
            chunk_at(s, size, 2 * (n - 1) + 1),
            size,
        )
    }
}

/// The block of `block_size` bytes at `start` equals the block after it.
pub open spec fn repeats_at(s: Seq<u8>, block_size: int, start: int) -> bool {
    &&& start + 2 * block_size <= s.len()
    &&& s.subrange(start, start + block_size) == s.subrange(
        start + block_size,
        start + 2 * block_size,
    )
}

/// The sequence stands in the buffer at `start`.
pub open spec fn occurs_at(s: Seq<u8>, sequence: Seq<u8>, start: int) -> bool {
    &&& 0 <= start
    &&& start + sequence.len() <= s.len()
    &&& s.subrange(start, start + sequence.len()) == sequence
}

proof fn lemma_bits_are_small(x: u8)
    by (bit_vector)
    ensures
        (x >> 0) & 1 <= 1,
        (x >> 1) & 1 <= 1,
        (x >> 2) & 1 <= 1,
        (x >> 3) & 1 <= 1,
        (x >> 4) & 1 <= 1,
        (x >> 5) & 1 <= 1,
        (x >> 6) & 1 <= 1,
        (x >> 7) & 1 <= 1,
{
}

/// The number of bits that are set in a byte.
pub fn count_bits(x: u8) -> (n: usize)
    ensures
        n == popcount(x),
        n <= 8,
{
    proof {
        lemma_bits_are_small(x);
    }
    let n: u8 = ((x >> 0) & 1) + ((x >> 1) & 1) + ((x >> 2) & 1) + ((x >> 3) & 1) + ((x >> 4) & 1)
        + ((x >> 5) & 1) + ((x >> 6) & 1) + ((x >> 7) & 1);
    n as usize
}

/// The number of bits in which two buffers differ, up to the end of the
/// shorter one.
pub fn hamming_distance(first: &[u8], second: &[u8]) -> (d: usize)
    requires
        8 * min_len(first@, second@) <= usize::MAX,
    ensures
        d == hamming_spec(first@, second@, min_len(first@, second@)),
{
    let n: usize = if first.len() <= second.len() {
        first.len()
    } else {
        second.len()
    };
    let mut d: usize = 0;
    let mut i: usize = 0;
    while i < n
        invariant
            i <= n,
            n == min_len(first@, second@),
            8 * n <= usize::MAX,
            d == hamming_spec(first@, second@, i as int),
            d <= 8 * i,
        decreases n - i,
    {
        d = d + count_bits(first[i] ^ second[i]);
        i += 1;
    }
    d
}

/// Whether the `n` bytes at `a` equal the `n` bytes at `b`.
fn blocks_equal(s: &[u8], a: usize, b: usize, n: usize) -> (r: bool)
    requires
        a + n <= s@.len(),
        b + n <= s@.len(),
    ensures
        r == (s@.subrange(a as int, a + n) == s@.subrange(b as int, b + n)),
{
    let ghost sa = s@.subrange(a as int, a + n);
    let ghost sb = s@.subrange(b as int, b + n);
    let len: usize = s.len();
    let mut i: usize = 0;
    while i < n
        invariant
            i <= n,
            len == s@.len(),
            a + n <= len,
            b + n <= len,
            sa == s@.subrange(a as int, a + n),
            sb == s@.subrange(b as int, b + n),
            forall|j: int| 0 <= j < i ==> sa[j] == sb[j],
        decreases n - i,
    {
        if s[a + i] != s[b + i] {
            assert(sa[i as int] != sb[i as int]);
            return false;
        }
        i += 1;
    }
    assert(sa =~= sb);
    true
}

/// Whether the sequence stands in the buffer at `start`.
fn matches_at(s: &[u8], sequence: &[u8], start: usize) -> (r: bool)
    requires
        start + sequence@.len() <= s@.len(),
    ensures
        r == occurs_at(s@, sequence@, start as int),
{
    let n: usize = sequence.len();
    let ghost sa = s@.subrange(start as int, start + n);
    let len: usize = s.len();
    let mut i: usize = 0;
    while i < n
        invariant
            i <= n,
            n == sequence@.len(),
            len == s@.len(),
            start + n <= len,
            sa == s@.subrange(start as int, start + n),
            forall|j: int| 0 <= j < i ==> sa[j] == sequence@[j],
        decreases n - i,
    {
        if s[start + i] != sequence[i] {
            assert(sa[i as int] != sequence@[i as int]);
            return false;
        }
        i += 1;
    }
    assert(sa =~= sequence@);
    true
}

/// Two buffers differ in at most eight bits for each byte.
pub proof fn lemma_hamming_bound(a: Seq<u8>, b: Seq<u8>, n: int)
    ensures
        hamming_spec(a, b, n) <= 8 * n || n < 0,
    decreases n,
{
    if n > 0 {
        lemma_hamming_bound(a, b, n - 1);
        lemma_bits_are_small(a[n - 1] ^ b[n - 1]);
    }
}

/// The pairs of chunks of a buffer lie inside it.
pub proof fn lemma_pairs_fit(len: int, size: int)
    requires
        len >= 0,
        size > 0,
    ensures
        (len / (2 * size)) * (2 * size) <= len,
{
    vstd::arithmetic::div_mod::lemma_fundamental_div_mod(len, 2 * size);
    vstd::arithmetic::div_mod::lemma_mod_bound(len, 2 * size);
    assert((2 * size) * (len / (2 * size)) == (len / (2 * size)) * (2 * size))
        by (nonlinear_arith);
}

/// A buffer of bytes.
pub struct Buffer(pub Vec<u8>);

impl View for Buffer {
    type V = Seq<u8>;

    open spec fn view(&self) -> Seq<u8> {
        self.0@
    }
}

impl Buffer {
    /// The buffer that a hexadecimal text stands for.
    pub fn from_hex(string: &str) -> (r: Self)
        requires
            is_hex(string.spec_bytes()),
        ensures
            r@ == hex_decode_spec(string.spec_bytes()),
    {
        match hex_decode(string) {
            Ok(bytes) => Buffer(bytes),
            Err(_) => vstd::pervasive::unreached(),
        }
    }

    /// The hexadecimal text of the buffer.
    pub fn to_hex(&self) -> (r: String)
        ensures
            r@ == hex_encode_spec(self@),
    {
        hex_encode(self.0.as_slice())
    }

    /// The buffer that a base64 text decodes to.
    pub fn from_base64(encoding: &str) -> (r: Self)
        requires
            decodable(encoding.spec_bytes()),
        ensures
            r@ == base64_decode_spec(encoding.spec_bytes()),
    {
        Buffer(base64_to_bytes(encoding))
    }

    /// The base64 text of the buffer.
    pub fn to_base64(&self) -> (r: String)
        ensures
            r@ == base64_spec(self@),
    {
        bytes_to_base64(self.0.as_slice())
    }

    /// The buffer encrypted or decrypted in CTR mode.
    pub fn aes_ctr(&self, key: &AesKey, nonce: u64) -> (r: Self)
        ensures
            r@ == ctr_spec(self@, key_schedule_spec(key@), nonce),
    {
        Buffer(aes_ctr(self.0.as_slice(), key, nonce))
    }

    /// The buffer xored with another; the shorter one is repeated.
    pub fn xor(&self, rhs: &Self) -> (r: Self)
        ensures
            r@ == cyclic_xor(self@, rhs@),
    {
        let la: usize = self.0.len();
        let lb: usize = rhs.0.len();
        let mut out: Vec<u8> = Vec::new();
        if la == 0 || lb == 0 {
            return Buffer(out);
        }
        let new_buffer_size: usize = if la >= lb {
            la
        } else {
            lb
        };
        let mut i: usize = 0;
        while i < new_buffer_size
            invariant
                la == self@.len(),
                lb == rhs@.len(),
                la > 0,
                lb > 0,
                i <= new_buffer_size,
                out@.len() == i,
                forall|j: int| 0 <= j < i ==> out@[j] == self@[j % la as int] ^ rhs@[j % lb as int],
            decreases new_buffer_size - i,
        {
            out.push(self.0[i % la] ^ rhs.0[i % lb]);
            i += 1;
        }
        assert(out@ =~= cyclic_xor(self@, rhs@));
        Buffer(out)
    }

    /// The number of bits in which the buffer differs from another, up to
    /// the end of the shorter one.
    pub fn hamming_distance(&self, rhs: &Self) -> (d: usize)
        requires
            8 * min_len(self@, rhs@) <= usize::MAX,
        ensures
            d == hamming_spec(self@, rhs@, min_len(self@, rhs@)),
    {
        hamming_distance(self.0.as_slice(), rhs.0.as_slice())
    }

    /// The number of pairs of neighbouring chunks of `size` bytes in the
    /// buffer, and the number of bits in which the two chunks of a pair
    /// differ, summed over all pairs.
    pub fn chunk_pair_distance(&self, size: usize) -> (r: (usize, usize))
        requires
            size > 0,
            2 * size <= usize::MAX,
            8 * self@.len() <= usize::MAX,
        ensures
            r.0 == self@.len() as int / (2 * size),
            r.1 == pair_distance_sum(self@, size as int, r.0 as int),
    {
        let mut pairs = ChunkPairIter::new(self.0.as_slice(), size);
        let pair_count: usize = pairs.pair_count();
        let mut sum: usize = 0;
        let ghost mut k: int = 0;
        proof {
            lemma_pairs_fit(self@.len() as int, size as int);
        }
        loop
            invariant
                pairs.wf(),
                size > 0,
                pairs.buffer() == self@,
                pairs.size() == size,
                pairs.pairs() == pair_count,
                pair_count * (2 * size) <= self@.len(),
                8 * self@.len() <= usize::MAX,
                0 <= k <= pair_count,
                pairs.pairs_left() == pair_count - k,
                sum == pair_distance_sum(self@, size as int, k),
                sum <= 8 * (k * size),
            ensures
                k == pair_count,
                sum == pair_distance_sum(self@, size as int, k),
            decreases pairs.pairs_left(),
        {
            match pairs.next() {
                Some((a, b)) => {
                    proof {
                        assert(8 * ((k + 1) * size) <= 8 * (pair_count * size)) by (nonlinear_arith)
                            requires
                                k + 1 <= pair_count,
                                size > 0,
                        ;
                        assert(8 * ((k + 1) * size) == 8 * (k * size) + 8 * size)
                            by (nonlinear_arith);
                        assert(pair_count * (2 * size) == 2 * (pair_count * size))
                            by (nonlinear_arith);
                    }
                    let d = hamming_distance(a, b);
                    proof {
                        lemma_hamming_bound(a@, b@, size as int);
                    }
                    sum = sum + d;
                    proof {
                        k = k + 1;
                    }
                },
                None => {
                    break ;
                },
            }
        }
        (pair_count, sum)
    }

    /// The buffer dealt out into `size` buffers: byte `i` goes to buffer
    /// `i % size`.
    pub fn transpose(&self, size: usize) -> (t: Vec<Self>)
        ensures
            t@.len() == size,
            forall|k: int| 0 <= k < size ==> (#[trigger] t@[k])@ == column(
                self@,
                size as int,
                k,
                self@.len() as int,
            ),
    {
        let len: usize = self.0.len();
        let mut t: Vec<Self> = Vec::new();
        let mut k: usize = 0;
        while k < size
            invariant
                k <= size,
                t@.len() == k,
                forall|c: int| 0 <= c < k ==> (#[trigger] t@[c])@ == Seq::<u8>::empty(),
            decreases size - k,
        {
            t.push(Buffer(Vec::new()));
            k += 1;
        }
        if size == 0 {
            return t;
        }
        let mut i: usize = 0;
        while i < len
            invariant
                size > 0,
                len == self@.len(),
                i <= len,
                t@.len() == size,
                forall|c: int| 0 <= c < size ==> (#[trigger] t@[c])@ == column(
                    self@,
                    size as int,
                    c,
                    i as int,
                ),
            decreases len - i,
        {
            let into: usize = i % size;
            let ghost before = t@;
            t[into].0.push(self.0[i]);
            proof {
                assert forall|c: int| 0 <= c < size implies (#[trigger] t@[c])@ == column(
                    self@,
                    size as int,
                    c,
                    i + 1,
                ) by {
                    if c != into {
                        assert(t@[c] == before[c]);
                    }
                }
            }
            i += 1;
        }
        t
    }

    /// The first place where a block of `block_size` bytes is followed by an
    /// equal block.
    pub fn repeated_block_start(&self, block_size: usize) -> (r: Option<usize>)
        requires
            self@.len() + 2 * block_size <= usize::MAX,
        ensures
            match r {
                Some(start) => start < self@.len() && repeats_at(
                    self@,
                    block_size as int,
                    start as int,
                ) && forall|s: int| 0 <= s < start ==> !repeats_at(self@, block_size as int, s),
                None => forall|s: int| 0 <= s < self@.len() ==> !repeats_at(self@, block_size as int, s),
            },
    {
        let len: usize = self.0.len();
        let mut start: usize = 0;
        while start < len
            invariant
                len == self@.len(),
                len + 2 * block_size <= usize::MAX,
                start <= len,
                forall|s: int| 0 <= s < start ==> !repeats_at(self@, block_size as int, s),
            decreases len - start,
        {
            if start + 2 * block_size > len {
                return None;
            }
            if blocks_equal(self.0.as_slice(), start, start + block_size, block_size) {
                return Some(start);
            }
            start += 1;
        }
        None
    }

    /// The last place before the end at which the sequence stands in the
    /// buffer. The place at which the sequence would end the buffer is not
    /// looked at.
    pub fn rfind(&self, sequence: &[u8]) -> (r: Option<usize>)
        ensures
            match r {
                Some(start) => start + sequence@.len() < self@.len() && occurs_at(
                    self@,
                    sequence@,
                    start as int,
                ) && forall|s: int|
                    start < s && s + sequence@.len() < self@.len() ==> !occurs_at(
                        self@,
                        sequence@,
                        s,
                    ),
                None => forall|s: int|
                    0 <= s && s + sequence@.len() < self@.len() ==> !occurs_at(self@, sequence@, s),
            },
    {
        if sequence.len() > self.0.len() {
            return None;
        }
        let mut start: usize = self.0.len() - sequence.len();
        while start > 0
            invariant
                sequence@.len() <= self@.len(),
                start + sequence@.len() <= self@.len(),
                forall|s: int|
                    start <= s && s + sequence@.len() < self@.len() ==> !occurs_at(
                        self@,
                        sequence@,
                        s,
                    ),
            decreases start,
        {
            start -= 1;
            if matches_at(self.0.as_slice(), sequence, start) {
                return Some(start);
            }
        }
        None
    }

    /// The bytes of the buffer.
    pub fn as_ref(&self) -> (r: &[u8])
        ensures
            r@ == self@,
    {
        self.0.as_slice()
    }

    /// A buffer with a copy of the bytes.
    pub fn from(value: &[u8]) -> (r: Self)
        ensures
            r@ == value@,
    {
        Buffer(vstd::slice::slice_to_vec(value))
    }
}

} // verus!
