//! PKCS7 padding: every pad byte holds the number of pad bytes.

use vstd::prelude::*;

verus! {

/// The number of bytes that padding to a multiple of `block_size` appends:
/// between one and `block_size`, a whole block where the data is aligned.
pub open spec fn pad_count(len: nat, block_size: nat) -> nat {
    (block_size - len % block_size) as nat
}

/// The data followed by its padding: `pad_count` bytes that each hold that
/// count (its low eight bits).
pub open spec fn pad_spec(data: Seq<u8>, block_size: nat) -> Seq<u8> {
    let count = pad_count(data.len(), block_size);
    data + Seq::new(count, |i: int| count as u8)
}

/// The data ends in `n` bytes that all hold `n`, for its last byte `n >= 1`.
pub open spec fn valid_padding(data: Seq<u8>) -> bool {
    &&& data.len() > 0
    &&& 1 <= data.last() <= data.len()
    &&& forall|i: int| data.len() - data.last() <= i < data.len() ==> data[i] == data.last()
}

/// The length of the data without its padding; the full length where the
/// padding is not valid.
pub open spec fn unpad_length_spec(data: Seq<u8>) -> nat {
    if valid_padding(data) {
        (data.len() - data.last()) as nat
    } else {
        data.len()
    }
}

/// Fills the buffer from position `from` to its end with the number of bytes
/// filled (its low eight bits).
pub fn pad_inplace(input: &mut [u8], from: usize)
    requires
        from <= old(input)@.len(),
    ensures
        final(input)@.len() == old(input)@.len(),
        forall|i: int| 0 <= i < from ==> final(input)@[i] == old(input)@[i],
        forall|i: int|
            from <= i < old(input)@.len() ==> final(input)@[i] == (old(input)@.len() - from) as u8,
{
    let n: usize = input.len();
    let pad_length: usize = n - from;
    let pad_byte: u8 = #[verifier::truncate]
    (pad_length as u8);
    let mut i: usize = from;
    while i < n
        invariant
            from <= i <= n,
            n == input@.len(),
            n == old(input)@.len(),
            pad_byte == (n - from) as u8,
            forall|j: int| 0 <= j < from ==> input@[j] == old(input)@[j],
            forall|j: int| from <= j < i ==> input@[j] == pad_byte,
        decreases n - i,
    {
        input[i] = pad_byte;
        i += 1;
    }
}

/// The length of the data once its padding is taken off. Where the data does
/// not end in valid padding, the full length comes back.
pub fn unpad_length(input: &[u8]) -> (r: usize)
    ensures
        r == unpad_length_spec(input@),
        r <= input@.len(),
        r == input@.len() <==> !valid_padding(input@),
{
    let len: usize = input.len();
    if len == 0 {
        return 0;
    }
    let last_byte: u8 = input[len - 1];
    let n: usize = last_byte as usize;
    if n == 0 || n > len {
        return len;
    }
    let mut i: usize = len - n;
    while i < len
        invariant
            len == input@.len(),
            1 <= n <= len,
            n == last_byte,
            last_byte == input@.last(),
            len - n <= i <= len,
            forall|j: int| len - n <= j < i ==> input@[j] == last_byte,
        decreases len - i,
    {
        if input[i] != last_byte {
            return len;
        }
        i += 1;
    }
    len - n
}

/// Pads the data to the next multiple of `block_size`; aligned data gets a
/// whole block of padding.
pub fn pad(input: &[u8], block_size: usize) -> (r: Vec<u8>)
    requires
        block_size > 0,
    ensures
        r@ == pad_spec(input@, block_size as nat),
{
    let pad_byte_count: usize = block_size - input.len() % block_size;
    let pad_byte: u8 = #[verifier::truncate]
    (pad_byte_count as u8);
    let mut out: Vec<u8> = Vec::new();
    let mut i: usize = 0;
    while i < input.len()
        invariant
            i <= input@.len(),
            out@ == input@.subrange(0, i as int),
        decreases input@.len() - i,
    {
        out.push(input[i]);
        assert(input@.subrange(0, i + 1) =~= input@.subrange(0, i as int).push(input@[i as int]));
        i += 1;
    }
    assert(input@.subrange(0, input@.len() as int) =~= input@);
    let mut k: usize = 0;
    while k < pad_byte_count
        invariant
            k <= pad_byte_count,
            pad_byte_count == pad_count(input@.len(), block_size as nat),
            pad_byte == pad_byte_count as u8,
            out@ == input@ + Seq::new(k as nat, |i: int| pad_byte),
        decreases pad_byte_count - k,
    {
        out.push(pad_byte);
        assert(Seq::new((k + 1) as nat, |i: int| pad_byte) =~= Seq::new(k as nat, |i: int| pad_byte).push(
            pad_byte,
        ));
        assert(out@ =~= input@ + Seq::new((k + 1) as nat, |i: int| pad_byte));
        k += 1;
    }
    assert(out@ =~= pad_spec(input@, block_size as nat));
    out
}

/// The data without its padding; all of it where the padding is not valid.
pub fn unpad(input: &[u8]) -> (r: Vec<u8>)
    ensures
        r@ == input@.subrange(0, unpad_length_spec(input@) as int),
{
    let end: usize = unpad_length(input);
    let mut out: Vec<u8> = Vec::new();
    let mut i: usize = 0;
    while i < end
        invariant
            i <= end <= input@.len(),
            out@ == input@.subrange(0, i as int),
        decreases end - i,
    {
        out.push(input[i]);
        assert(input@.subrange(0, i + 1) =~= input@.subrange(0, i as int).push(input@[i as int]));
        i += 1;
    }
    out
}

/// Unpadding undoes padding: for a block size that fits in a byte, the
/// length of the data comes back, and it is below the padded length.
pub proof fn lemma_unpad_of_pad(data: Seq<u8>, block_size: nat)
    requires
        1 <= block_size <= 255,
    ensures
        valid_padding(pad_spec(data, block_size)),
        unpad_length_spec(pad_spec(data, block_size)) == data.len(),
        pad_spec(data, block_size).subrange(0, data.len() as int) == data,
        pad_spec(data, block_size).len() % block_size == 0,
        data.len() < pad_spec(data, block_size).len() <= data.len() + block_size,
{
    let count = pad_count(data.len(), block_size);
    let p = pad_spec(data, block_size);
    assert(0 <= data.len() % block_size < block_size) by (nonlinear_arith)
        requires
            block_size >= 1,
    ;
    assert(1 <= count <= block_size);
    assert(p.len() == data.len() + count);
    assert(p.last() == count as u8);
    assert(count as u8 == count);
    assert(p.subrange(0, data.len() as int) =~= data);
    assert((data.len() + count) % block_size == 0) by (nonlinear_arith)
        requires
            block_size >= 1,
            count == block_size - data.len() % block_size,
    ;
}

} // verus!
