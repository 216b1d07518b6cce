//! Message authentication codes built on SHA-1: the keyed prefix digest and
//! HMAC.

use vstd::prelude::*;
use crate::aes::key::AesKey;
use crate::sha::{digestible, sha1_digest, sha1_spec};

verus! {

/// The key of an HMAC as a block of 64 bytes: a key of up to 64 bytes is
/// followed by zeros, a longer key is replaced by its digest first.
pub open spec fn hmac_block_key(key: Seq<u8>) -> Seq<u8> {
    let k = if key.len() > 64 {
        sha1_spec(key, None, 0)
    } else {
        key
    };
    Seq::new(
        64,
        |i: int|
            if i < k.len() {
                k[i]
            } else {
                0u8
            },
    )
}

/// The block key xored with one byte value.
pub open spec fn hmac_pad(key: Seq<u8>, pad: u8) -> Seq<u8> {
    Seq::new(64, |i: int| pad ^ hmac_block_key(key)[i])
}

/// HMAC with SHA-1: the digest of the outer pad and of the digest of the
/// inner pad and the message.
pub open spec fn hmac_sha1_spec(key: Seq<u8>, input: Seq<u8>) -> Seq<u8> {
    sha1_spec(hmac_pad(key, 0x5c) + sha1_spec(hmac_pad(key, 0x36) + input, None, 0), None, 0)
}

/// The number of bytes at the start of two sequences that are equal pair by
/// pair, up to `n`.
pub open spec fn matching_prefix(a: Seq<u8>, b: Seq<u8>, n: int) -> int
    decreases n,
{
    if n <= 0 {
        0
    } else if matching_prefix(a, b, n - 1) == n - 1 && a[n - 1] == b[n - 1] {
        n
    } else {
        matching_prefix(a, b, n - 1)
    }
}

/// Two buffers one after the other.
pub fn joined(a: &[u8], b: &[u8]) -> (r: Vec<u8>)
    ensures
        r@ == a@ + b@,
{
    let mut out: Vec<u8> = Vec::new();
    out.extend_from_slice(a);
    out.extend_from_slice(b);
    assert(out@ =~= a@ + b@);
    out
}

/// The digest of the key followed by the message.
pub fn sha1_mac(key: &AesKey, input: &[u8]) -> (mac: [u8; 20])
    requires
        digestible(key@.len() + input@.len(), 0),
    ensures
        mac@ == sha1_spec(key@ + input@, None, 0),
{
    let message = joined(key.as_ref(), input);
    sha1_digest(message.as_slice())
}

/// The HMAC of a message under a key, with SHA-1.
pub fn hmac_sha1(key: &AesKey, input: &[u8]) -> (mac: [u8; 20])
    requires
        digestible(64 + input@.len(), 0),
    ensures
        mac@ == hmac_sha1_spec(key@, input@),
{
    let mut opad: [u8; 64] = [0x5c; 64];
    let mut ipad: [u8; 64] = [0x36; 64];
    let mut dkey: [u8; 64] = [0; 64];
    let key_bytes = key.as_ref();
    proof {
        key.lemma_valid_len();
    }
    if key_bytes.len() > 64 {
        let key_hash = sha1_digest(key_bytes);
        let mut i: usize = 0;
        while i < 20
            invariant
                i <= 20,
                forall|j: int| 0 <= j < i ==> dkey@[j] == key_hash@[j],
                forall|j: int| i <= j < 64 ==> dkey@[j] == 0,
            decreases 20 - i,
        {
            dkey[i] = key_hash[i];
            i += 1;
        }
    } else {
        let mut i: usize = 0;
        while i < key_bytes.len()
            invariant
                i <= key_bytes@.len() <= 64,
                forall|j: int| 0 <= j < i ==> dkey@[j] == key_bytes@[j],
                forall|j: int| i <= j < 64 ==> dkey@[j] == 0,
            decreases key_bytes@.len() - i,
        {
            dkey[i] = key_bytes[i];
            i += 1;
        }
    }
    assert(dkey@ =~= hmac_block_key(key@));
    let mut i: usize = 0;
    while i < 64
        invariant
            i <= 64,
            dkey@ == hmac_block_key(key@),
            forall|j: int| 0 <= j < i ==> opad@[j] == 0x5c ^ dkey@[j],
            forall|j: int| 0 <= j < i ==> ipad@[j] == 0x36 ^ dkey@[j],
            forall|j: int| i <= j < 64 ==> opad@[j] == 0x5c,
            forall|j: int| i <= j < 64 ==> ipad@[j] == 0x36,
        decreases 64 - i,
    {
        opad[i] = opad[i] ^ dkey[i];
        ipad[i] = ipad[i] ^ dkey[i];
        i += 1;
    }
    assert(opad@ =~= hmac_pad(key@, 0x5c));
    assert(ipad@ =~= hmac_pad(key@, 0x36));
    let inner = joined(ipad.as_slice(), input);
    let inner_hash = sha1_digest(inner.as_slice());
    let outer = joined(opad.as_slice(), inner_hash.as_slice());
    sha1_digest(outer.as_slice())
}

/// The number of bytes at the start of the HMAC of a message that equal the
/// bytes of a supplied code; twenty where the code is the HMAC.
pub fn hmac_sha1_matching_bytes(key: &AesKey, input: &[u8], supplied_hmac: &[u8; 20]) -> (n: usize)
    requires
        digestible(64 + input@.len(), 0),
    ensures
        n == matching_prefix(hmac_sha1_spec(key@, input@), supplied_hmac@, 20),
        n <= 20,
        n == 20 <==> hmac_sha1_spec(key@, input@) == supplied_hmac@,
{
    let computed_hmac = hmac_sha1(key, input);
    let mut i: usize = 0;
    while i < 20
        invariant
            i <= 20,
            computed_hmac@ == hmac_sha1_spec(key@, input@),
            matching_prefix(computed_hmac@, supplied_hmac@, i as int) == i,
            forall|j: int| 0 <= j < i ==> computed_hmac@[j] == supplied_hmac@[j],
        decreases 20 - i,
    {
        if computed_hmac[i] != supplied_hmac[i] {
            proof {
                lemma_matching_prefix_stops(computed_hmac@, supplied_hmac@, i as int, 20);
            }
            return i;
        }
        i += 1;
    }
    assert(computed_hmac@ =~= supplied_hmac@);
    i
}

/// Once a pair of bytes differs, the count of matching bytes stays where it
/// is.
pub proof fn lemma_matching_prefix_stops(a: Seq<u8>, b: Seq<u8>, i: int, n: int)
    requires
        0 <= i < n,
        matching_prefix(a, b, i) == i,
        a[i] != b[i],
    ensures
        matching_prefix(a, b, n) == i,
    decreases n,
{
    if n > i + 1 {
        lemma_matching_prefix_stops(a, b, i, n - 1);
    }
}

} // verus!
