//! Base64 encoding and decoding with the standard alphabet and `=` padding.

use vstd::prelude::*;
use vstd::string::StringSliceAdditionalSpecFns;
use crate::sextet_iter::{byte_or_zero, sextet_at, sextet_count, SextetIter};

verus! {

/// The alphabet: the character for each sextet value.
pub const BASE64_ALPHABET: [char; 64] = [
    'A', 'B', 'C', 'D', 'E', 'F', 'G', 'H', 'I', 'J', 'K', 'L', 'M', 'N', 'O', 'P',
    'Q', 'R', 'S', 'T', 'U', 'V', 'W', 'X', 'Y', 'Z', 'a', 'b', 'c', 'd', 'e', 'f',
    'g', 'h', 'i', 'j', 'k', 'l', 'm', 'n', 'o', 'p', 'q', 'r', 's', 't', 'u', 'v',
    'w', 'x', 'y', 'z', '0', '1', '2', '3', '4', '5', '6', '7', '8', '9', '+', '/',
];

/// The character that stands for a sextet.
pub open spec fn base64_char(sextet: u8) -> char {
    BASE64_ALPHABET@[sextet as int]
}

/// The character belongs to the alphabet.
pub open spec fn is_base64_char(ch: char) -> bool {
    ('A' <= ch && ch <= 'Z') || ('a' <= ch && ch <= 'z') || ('0' <= ch && ch <= '9') || ch == '+'
        || ch == '/'
}

/// The number of `=` characters that end the encoding of `len` bytes.
pub open spec fn padding_count(len: nat) -> nat {
    ((3 - len % 3) % 3) as nat
}

/// The encoding of a buffer: the characters of its sextets, then the padding.
pub open spec fn base64_spec(bytes: Seq<u8>) -> Seq<char> {
    Seq::new(sextet_count(bytes.len()), |k: int| base64_char(sextet_at(bytes, k))) + Seq::new(
        padding_count(bytes.len()),
        |k: int| '=',
    )
}

/// The character of a sextet.
pub fn sextet_to_base64(sextet: u8) -> (ch: char)
    requires
        sextet < 64,
    ensures
        ch == base64_char(sextet),
        is_base64_char(ch),
{
    if sextet <= 25 {
        (('A' as u8) + sextet) as char
    } else if sextet <= 51 {
        (('a' as u8) + sextet - 26) as char
    } else if sextet <= 61 {
        (('0' as u8) + sextet - 52) as char
    } else if sextet == 62 {
        '+'
    } else {
        '/'
    }
}

/// The place of a character in the alphabet.
pub open spec fn char_sextet(ch: char) -> u8 {
    if 'A' <= ch && ch <= 'Z' {
        (ch as u8 - 'A' as u8) as u8
    } else if 'a' <= ch && ch <= 'z' {
        (ch as u8 - 'a' as u8 + 26) as u8
    } else if '0' <= ch && ch <= '9' {
        (ch as u8 - '0' as u8 + 52) as u8
    } else if ch == '+' {
        62
    } else {
        63
    }
}

/// The sextet of a character of the alphabet.
pub fn base64_to_sextet(ch: char) -> (sextet: u8)
    requires
        is_base64_char(ch),
    ensures
        sextet == char_sextet(ch),
        sextet < 64,
        base64_char(sextet) == ch,
{
    if 'A' <= ch && ch <= 'Z' {
        (ch as u8) - ('A' as u8)
    } else if 'a' <= ch && ch <= 'z' {
        (ch as u8) - ('a' as u8) + 26
    } else if '0' <= ch && ch <= '9' {
        (ch as u8) - ('0' as u8) + 52
    } else if ch == '+' {
        62
    } else {
        63
    }
}

/// `String::push`: the character is appended to the string, which is
/// otherwise unchanged.
#[verifier::external_body]
fn string_push(s: &mut String, ch: char)
    ensures
        final(s)@ == old(s)@.push(ch),
{
    s.push(ch);
}

/// Encodes a buffer.
pub fn bytes_to_base64(bytes: &[u8]) -> (r: String)
    ensures
        r@ == base64_spec(bytes@),
{
    let mut out = String::new();
    let mut sextets = SextetIter::new(bytes);
    let ghost total = sextet_count(bytes@.len());
    loop
        invariant
            sextets.wf(),
            sextets.source() == bytes@,
            total == sextet_count(bytes@.len()),
            0 <= sextets.produced() <= total,
            out@ == Seq::new(sextets.produced() as nat, |k: int| base64_char(sextet_at(bytes@, k))),
        ensures
            sextets.produced() == total,
        decreases total - sextets.produced(),
    {
        let ghost done = sextets.produced();
        match sextets.next() {
            Some(sextet) => {
                proof {
                    lemma_sextet_below_64(bytes@, done);
                }
                string_push(&mut out, sextet_to_base64(sextet));
                assert(out@ =~= Seq::new(
                    (done + 1) as nat,
                    |k: int| base64_char(sextet_at(bytes@, k)),
                ));
            },
            None => {
                break ;
            },
        }
    }
    let padding: usize = (3 - bytes.len() % 3) % 3;
    let mut i: usize = 0;
    while i < padding
        invariant
            i <= padding,
            padding == padding_count(bytes@.len()),
            out@ == Seq::new(total, |k: int| base64_char(sextet_at(bytes@, k))) + Seq::new(
                i as nat,
                |k: int| '=',
            ),
        decreases padding - i,
    {
        string_push(&mut out, '=');
        assert(out@ =~= Seq::new(total, |k: int| base64_char(sextet_at(bytes@, k))) + Seq::new(
            (i + 1) as nat,
            |k: int| '=',
        ));
        i += 1;
    }
    out
}

/// The sextets of a text: the values of its bytes that are characters of
/// the alphabet, in order. All other bytes are skipped.
pub open spec fn base64_sextets(text: Seq<u8>) -> Seq<u8>
    decreases text.len(),
{
    if text.len() == 0 {
        Seq::empty()
    } else if is_base64_char(text[0] as char) {
        seq![char_sextet(text[0] as char)] + base64_sextets(text.drop_first())
    } else {
        base64_sextets(text.drop_first())
    }
}

/// Sextet `i` of a sequence; zero past its end.
pub open spec fn sextet_or_zero(s: Seq<u8>, i: int) -> u8 {
    if 0 <= i < s.len() {
        s[i]
    } else {
        0
    }
}

/// The number of bytes that `n` sextets decode to: three for every four
/// sextets, one for two left over, two for three.
pub open spec fn decoded_len(n: nat) -> nat {
    if n % 4 == 0 {
        3 * (n / 4)
    } else {
        (3 * (n / 4) + n % 4 - 1) as nat
    }
}

/// The first byte that four sextets hold.
pub open spec fn group_byte0(s0: u8, s1: u8) -> u8 {
    (s0 << 2) | (s1 >> 4)
}

/// The second byte that four sextets hold.
pub open spec fn group_byte1(s1: u8, s2: u8) -> u8 {
    (s1 << 4) | (s2 >> 2)
}

/// The third byte that four sextets hold.
pub open spec fn group_byte2(s2: u8, s3: u8) -> u8 {
    (s2 << 6) | s3
}

/// Byte `k` of the bytes that a sequence of sextets decodes to.
pub open spec fn decoded_byte(s: Seq<u8>, k: int) -> u8 {
    let g = k / 3;
    if k % 3 == 0 {
        group_byte0(sextet_or_zero(s, 4 * g), sextet_or_zero(s, 4 * g + 1))
    } else if k % 3 == 1 {
        group_byte1(sextet_or_zero(s, 4 * g + 1), sextet_or_zero(s, 4 * g + 2))
    } else {
        group_byte2(sextet_or_zero(s, 4 * g + 2), sextet_or_zero(s, 4 * g + 3))
    }
}

/// The bytes that a sequence of sextets decodes to.
pub open spec fn decode_sextets(s: Seq<u8>) -> Seq<u8> {
    Seq::new(decoded_len(s.len()), |k: int| decoded_byte(s, k))
}

/// The bytes that a text decodes to.
pub open spec fn base64_decode_spec(text: Seq<u8>) -> Seq<u8> {
    decode_sextets(base64_sextets(text))
}

/// A text can be decoded unless one sextet is left over after the groups of
/// four.
pub open spec fn decodable(text: Seq<u8>) -> bool {
    base64_sextets(text).len() % 4 != 1
}

/// Four sextets in front of a sequence decode to three bytes in front of
/// what the rest decodes to.
pub proof fn lemma_decode_group(s0: u8, s1: u8, s2: u8, s3: u8, rest: Seq<u8>)
    ensures
        decode_sextets(seq![s0, s1, s2, s3] + rest) == seq![
            group_byte0(s0, s1),
            group_byte1(s1, s2),
            group_byte2(s2, s3),
        ] + decode_sextets(rest),
{
    let s = seq![s0, s1, s2, s3] + rest;
    let front = seq![group_byte0(s0, s1), group_byte1(s1, s2), group_byte2(s2, s3)];
    let d = decode_sextets(s);
    let e = front + decode_sextets(rest);
    assert(s.len() == rest.len() + 4);
    assert(d.len() == e.len());
    assert forall|k: int| 0 <= k < d.len() implies d[k] == e[k] by {
        if k >= 3 {
            let g = k / 3;
            assert((k - 3) / 3 == g - 1);
            assert((k - 3) % 3 == k % 3);
            assert(sextet_or_zero(s, 4 * g) == sextet_or_zero(rest, 4 * (g - 1)));
            assert(sextet_or_zero(s, 4 * g + 1) == sextet_or_zero(rest, 4 * (g - 1) + 1));
            assert(sextet_or_zero(s, 4 * g + 2) == sextet_or_zero(rest, 4 * (g - 1) + 2));
            assert(sextet_or_zero(s, 4 * g + 3) == sextet_or_zero(rest, 4 * (g - 1) + 3));
        }
    }
    assert(d =~= e);
}

/// Walks over the bytes that a text decodes to.
pub struct EncodingIter<'a> {
    encoding: &'a [u8],
    pos: usize,
    head: [u8; 3],
    bytes_in_head: usize,
    byte_index: usize,
}

impl<'a> EncodingIter<'a> {
    /// The part of the text that is not read yet.
    pub closed spec fn rest(&self) -> Seq<u8> {
        self.encoding@.subrange(self.pos as int, self.encoding@.len() as int)
    }

    /// The bytes that are still to come.
    pub closed spec fn pending(&self) -> Seq<u8> {
        self.head@.subrange(self.byte_index as int, self.bytes_in_head as int) + base64_decode_spec(
            self.rest(),
        )
    }

    /// The cursor lies inside the text and the head.
    pub closed spec fn wf(&self) -> bool {
        &&& self.pos <= self.encoding@.len()
        &&& self.byte_index <= self.bytes_in_head <= 3
    }

    /// A walk over the bytes that `text` decodes to.
    pub fn new(text: &'a [u8]) -> (it: Self)
        ensures
            it.wf(),
            it.rest() == text@,
            it.pending() == base64_decode_spec(text@),
    {
        let it = Self { encoding: text, pos: 0, head: [0u8; 3], bytes_in_head: 0, byte_index: 0 };
        proof {
            assert(it.rest() =~= text@);
            assert(it.pending() =~= base64_decode_spec(text@));
        }
        it
    }

    /// The sextet of the next character of the alphabet in the text; bytes
    /// that are no such character are passed over.
    fn find_sextet(&mut self) -> (r: Option<u8>)
        requires
            old(self).wf(),
        ensures
            final(self).wf(),
            final(self).encoding == old(self).encoding,
            final(self).head == old(self).head,
            final(self).bytes_in_head == old(self).bytes_in_head,
            final(self).byte_index == old(self).byte_index,
            r is Some ==> base64_sextets(old(self).rest()) == seq![r->Some_0] + base64_sextets(
                final(self).rest(),
            ),
            r is None ==> base64_sextets(old(self).rest()).len() == 0 && base64_sextets(
                final(self).rest(),
            ).len() == 0,
    {
        let len: usize = self.encoding.len();
        while self.pos < len
            invariant
                len == self.encoding@.len(),
                self.wf(),
                self.encoding == old(self).encoding,
                self.head == old(self).head,
                self.bytes_in_head == old(self).bytes_in_head,
                self.byte_index == old(self).byte_index,
                base64_sextets(old(self).rest()) == base64_sextets(self.rest()),
            decreases len - self.pos,
        {
            let ch: char = self.encoding[self.pos] as char;
            let ghost before = self.rest();
            self.pos += 1;
            proof {
                assert(before.drop_first() =~= self.rest());
            }
            if ('A' <= ch && ch <= 'Z') || ('a' <= ch && ch <= 'z') || ('0' <= ch && ch <= '9')
                || ch == '+' || ch == '/' {
                return Some(base64_to_sextet(ch));
            }
        }
        None
    }

    /// Reads up to four characters of the alphabet into the head as bytes.
    fn convert_available_chars(&mut self)
        requires
            old(self).wf(),
            old(self).byte_index == old(self).bytes_in_head,
            decodable(old(self).rest()),
        ensures
            final(self).wf(),
            decodable(final(self).rest()),
            final(self).pending() == old(self).pending(),
            final(self).byte_index == 0,
            final(self).bytes_in_head == 0 ==> final(self).pending().len() == 0,
    {
        let ghost all = base64_sextets(self.rest());
        let mut sextets: [u8; 4] = [0u8; 4];
        let mut valid_slots: usize = 0;
        let mut i: usize = 0;
        while i < 4
            invariant
                i <= 4,
                self.wf(),
                valid_slots <= i,
                self.byte_index == self.bytes_in_head,
                valid_slots < i ==> base64_sextets(self.rest()).len() == 0,
                all == sextets@.subrange(0, valid_slots as int) + base64_sextets(self.rest()),
                forall|j: int| valid_slots <= j < 4 ==> sextets@[j] == 0,
            decreases 4 - i,
        {
            let ghost taken = sextets@.subrange(0, valid_slots as int);
            match self.find_sextet() {
                Some(sextet) => {
                    sextets[valid_slots] = sextet;
                    valid_slots += 1;
                    proof {
                        assert(sextets@.subrange(0, valid_slots as int) =~= taken + seq![sextet]);
                        assert(all =~= sextets@.subrange(0, valid_slots as int) + base64_sextets(
                            self.rest(),
                        ));
                    }
                },
                None => {
                    proof {
                        assert(sextets@.subrange(0, valid_slots as int) =~= taken);
                    }
                },
            }
            i += 1;
        }
        self.head[0] = (sextets[0] << 2) | (sextets[1] >> 4);
        self.head[1] = (sextets[1] << 4) | (sextets[2] >> 2);
        self.head[2] = (sextets[2] << 6) | sextets[3];
        self.bytes_in_head = if valid_slots == 0 {
            0
        } else {
            valid_slots - 1
        };
        self.byte_index = 0;
        proof {
            let rest = base64_sextets(self.rest());
            let front = self.head@.subrange(0, self.bytes_in_head as int);
            if valid_slots == 4 {
                assert(sextets@.subrange(0, 4) =~= seq![
                    sextets@[0],
                    sextets@[1],
                    sextets@[2],
                    sextets@[3],
                ]);
                lemma_decode_group(sextets@[0], sextets@[1], sextets@[2], sextets@[3], rest);
                assert(front =~= seq![self.head@[0], self.head@[1], self.head@[2]]);
            } else {
                assert(rest.len() == 0);
                assert(all =~= sextets@.subrange(0, valid_slots as int));
                assert(decode_sextets(rest) =~= Seq::<u8>::empty());
                assert(decode_sextets(all) =~= front);
            }
            assert(self.pending() =~= decode_sextets(all));
            assert(old(self).pending() =~= decode_sextets(all));
        }
    }

    /// The next decoded byte, if one is left.
    pub fn next(&mut self) -> (r: Option<u8>)
        requires
            old(self).wf(),
            decodable(old(self).rest()),
        ensures
            final(self).wf(),
            decodable(final(self).rest()),
            old(self).pending().len() == 0 ==> r is None && final(self).pending().len() == 0,
            old(self).pending().len() > 0 ==> r == Some(old(self).pending()[0])
                && final(self).pending() == old(self).pending().drop_first(),
    {
        if self.byte_index == self.bytes_in_head {
            self.convert_available_chars();
        }
        if self.byte_index == self.bytes_in_head {
            return None;
        }
        let byte = self.head[self.byte_index];
        let ghost before = self.pending();
        self.byte_index += 1;
        proof {
            assert(self.pending() =~= before.drop_first());
        }
        Some(byte)
    }
}

/// Decodes a text. Characters outside the alphabet, such as line breaks and
/// the padding, are skipped.
pub fn base64_to_bytes(encoding: &str) -> (r: Vec<u8>)
    requires
        decodable(encoding.spec_bytes()),
    ensures
        r@ == base64_decode_spec(encoding.spec_bytes()),
{
    let mut bytes = EncodingIter::new(encoding.as_bytes());
    let mut out: Vec<u8> = Vec::new();
    let ghost all = base64_decode_spec(encoding.spec_bytes());
    loop
        invariant
            bytes.wf(),
            decodable(bytes.rest()),
            out@ + bytes.pending() == all,
        ensures
            out@ == all,
        decreases bytes.pending().len(),
    {
        let ghost before = bytes.pending();
        match bytes.next() {
            Some(byte) => {
                out.push(byte);
                proof {
                    assert(out@ + bytes.pending() =~= all);
                }
            },
            None => {
                proof {
                    assert(out@ =~= all);
                }
                break ;
            },
        }
    }
    out
}

/// Whether a text can be decoded: it can unless one sextet is left over
/// after the groups of four.
pub fn is_decodable(encoding: &str) -> (r: bool)
    ensures
        r == decodable(encoding.spec_bytes()),
{
    let text = encoding.as_bytes();
    let mut count: usize = 0;
    let mut i: usize = 0;
    let len: usize = text.len();
    proof {
        assert(text@.subrange(0, len as int) =~= text@);
    }
    while i < len
        invariant
            len == text@.len(),
            i <= len,
            count < 4,
            (count + base64_sextets(text@.subrange(i as int, len as int)).len()) % 4
                == base64_sextets(text@).len() % 4,
        decreases len - i,
    {
        let ch: char = text[i] as char;
        proof {
            assert(text@.subrange(i as int, len as int).drop_first() =~= text@.subrange(
                i + 1,
                len as int,
            ));
        }
        if ('A' <= ch && ch <= 'Z') || ('a' <= ch && ch <= 'z') || ('0' <= ch && ch <= '9') || ch
            == '+' || ch == '/' {
            count = (count + 1) % 4;
        }
        i += 1;
    }
    proof {
        assert(text@.subrange(len as int, len as int).len() == 0);
    }
    count != 1
}

/// Decodes a text where it can be decoded.
pub fn try_base64_to_bytes(encoding: &str) -> (r: Option<Vec<u8>>)
    ensures
        r is Some <==> decodable(encoding.spec_bytes()),
        r is Some ==> r->Some_0@ == base64_decode_spec(encoding.spec_bytes()),
{
    if is_decodable(encoding) {
        Some(base64_to_bytes(encoding))
    } else {
        None
    }
}

proof fn lemma_sextet_bits(a: u8, b: u8)
    by (bit_vector)
    ensures
        (a >> 2) < 64,
        (((a << 4) & 0x30) | (b >> 4)) < 64,
        (((a << 2) & 0x3c) | (b >> 6)) < 64,
        (a & 0x3f) < 64,
{
}

/// Every sextet is below 64.
pub proof fn lemma_sextet_below_64(bytes: Seq<u8>, k: int)
    ensures
        sextet_at(bytes, k) < 64,
{
    let g = k / 4;
    let b0 = byte_or_zero(bytes, 3 * g);
    let b1 = byte_or_zero(bytes, 3 * g + 1);
    let b2 = byte_or_zero(bytes, 3 * g + 2);
    lemma_sextet_bits(b0, b1);
    lemma_sextet_bits(b1, b2);
    lemma_sextet_bits(b2, b0);
}

/// The bytes of a text that holds characters of one byte each.
pub open spec fn text_bytes(text: Seq<char>) -> Seq<u8> {
    Seq::new(text.len(), |i: int| text[i] as u8)
}

/// The place of the character of a sextet in the alphabet is the sextet.
pub proof fn lemma_char_sextet_of_base64_char(sextet: u8)
    requires
        sextet < 64,
    ensures
        is_base64_char(base64_char(sextet)),
        char_sextet(base64_char(sextet)) == sextet,
        (base64_char(sextet) as u8) as char == base64_char(sextet),
{
}

/// The sextets of two texts one after the other.
pub proof fn lemma_base64_sextets_concat(a: Seq<u8>, b: Seq<u8>)
    ensures
        base64_sextets(a + b) == base64_sextets(a) + base64_sextets(b),
    decreases a.len(),
{
    if a.len() == 0 {
        assert(a + b =~= b);
        assert(base64_sextets(a) + base64_sextets(b) =~= base64_sextets(b));
    } else {
        assert((a + b).drop_first() =~= a.drop_first() + b);
        assert((a + b)[0] == a[0]);
        lemma_base64_sextets_concat(a.drop_first(), b);
        let rest = base64_sextets(a.drop_first());
        if is_base64_char(a[0] as char) {
            let head = seq![char_sextet(a[0] as char)];
            assert(head + (rest + base64_sextets(b)) =~= (head + rest) + base64_sextets(b));
        }
    }
}

/// A text made of characters of the alphabet holds the sextets of its
/// characters.
pub proof fn lemma_base64_sextets_of_chars(sextets: Seq<u8>)
    requires
        forall|i: int| 0 <= i < sextets.len() ==> sextets[i] < 64,
    ensures
        base64_sextets(Seq::new(sextets.len(), |i: int| base64_char(sextets[i]) as u8)) == sextets,
    decreases sextets.len(),
{
    let text = Seq::new(sextets.len(), |i: int| base64_char(sextets[i]) as u8);
    if sextets.len() == 0 {
        assert(base64_sextets(text) =~= sextets);
    } else {
        let rest = sextets.drop_first();
        let rest_text = Seq::new(rest.len(), |i: int| base64_char(rest[i]) as u8);
        assert(text.drop_first() =~= rest_text);
        lemma_base64_sextets_of_chars(rest);
        lemma_char_sextet_of_base64_char(sextets[0]);
        assert(seq![sextets[0]] + rest =~= sextets);
    }
}

/// A text made of padding characters holds no sextets.
pub proof fn lemma_base64_sextets_of_padding(n: nat)
    ensures
        base64_sextets(Seq::new(n, |i: int| '=' as u8)).len() == 0,
    decreases n,
{
    let text = Seq::new(n, |i: int| '=' as u8);
    if n > 0 {
        assert(text.drop_first() =~= Seq::new((n - 1) as nat, |i: int| '=' as u8));
        lemma_base64_sextets_of_padding((n - 1) as nat);
    }
}

proof fn lemma_group_bytes(b0: u8, b1: u8, b2: u8)
    by (bit_vector)
    ensures
        group_byte0(b0 >> 2, ((b0 << 4) & 0x30) | (b1 >> 4)) == b0,
        group_byte1(((b0 << 4) & 0x30) | (b1 >> 4), ((b1 << 2) & 0x3c) | (b2 >> 6)) == b1,
        group_byte2(((b1 << 2) & 0x3c) | (b2 >> 6), b2 & 0x3f) == b2,
{
}

/// The sextets of a buffer decode to the buffer.
pub proof fn lemma_decode_of_sextets(bytes: Seq<u8>)
    ensures
        decode_sextets(Seq::new(sextet_count(bytes.len()), |k: int| sextet_at(bytes, k))) == bytes,
{
    let sextets = Seq::new(sextet_count(bytes.len()), |k: int| sextet_at(bytes, k));
    let d = decode_sextets(sextets);
    assert(d.len() == bytes.len());
    assert forall|k: int| 0 <= k < bytes.len() implies d[k] == bytes[k] by {
        let g = k / 3;
        let b0 = byte_or_zero(bytes, 3 * g);
        let b1 = byte_or_zero(bytes, 3 * g + 1);
        let b2 = byte_or_zero(bytes, 3 * g + 2);
        lemma_group_bytes(b0, b1, b2);
        assert((4 * g) / 4 == g && (4 * g + 1) / 4 == g && (4 * g + 2) / 4 == g && (4 * g + 3)
            / 4 == g);
        assert((4 * g) % 4 == 0 && (4 * g + 1) % 4 == 1 && (4 * g + 2) % 4 == 2 && (4 * g + 3)
            % 4 == 3);
        if k % 3 == 0 {
            assert(sextet_or_zero(sextets, 4 * g) == sextet_at(bytes, 4 * g));
            assert(sextet_or_zero(sextets, 4 * g + 1) == sextet_at(bytes, 4 * g + 1));
        } else if k % 3 == 1 {
            assert(sextet_or_zero(sextets, 4 * g + 1) == sextet_at(bytes, 4 * g + 1));
            assert(sextet_or_zero(sextets, 4 * g + 2) == sextet_at(bytes, 4 * g + 2));
        } else {
            assert(sextet_or_zero(sextets, 4 * g + 2) == sextet_at(bytes, 4 * g + 2));
            assert(sextet_or_zero(sextets, 4 * g + 3) == sextet_at(bytes, 4 * g + 3));
        }
    }
    assert(d =~= bytes);
}

/// Decoding undoes encoding: the text that a buffer encodes to can be
/// decoded, and it decodes to the buffer.
pub proof fn lemma_base64_round_trip(bytes: Seq<u8>)
    ensures
        decodable(text_bytes(base64_spec(bytes))),
        base64_decode_spec(text_bytes(base64_spec(bytes))) == bytes,
{
    let sextets = Seq::new(sextet_count(bytes.len()), |k: int| sextet_at(bytes, k));
    let body = Seq::new(sextets.len(), |i: int| base64_char(sextets[i]) as u8);
    let padding = Seq::new(padding_count(bytes.len()), |i: int| '=' as u8);
    assert forall|i: int| 0 <= i < sextets.len() implies sextets[i] < 64 by {
        lemma_sextet_below_64(bytes, i);
    }
    assert(text_bytes(base64_spec(bytes)) =~= body + padding);
    lemma_base64_sextets_concat(body, padding);
    lemma_base64_sextets_of_chars(sextets);
    lemma_base64_sextets_of_padding(padding_count(bytes.len()));
    assert(base64_sextets(body + padding) =~= sextets);
    lemma_decode_of_sextets(bytes);
}

} // verus!
