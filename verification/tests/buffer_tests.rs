use cryptokit::aes::key::AesKey;
use cryptokit::buffer::{count_bits, hamming_distance, Buffer};
use cryptokit::hexcodec::is_hex_text;
use cryptokit::key_value::{split, KeyValue};
use cryptokit::mac::{joined, hmac_sha1, hmac_sha1_matching_bytes, sha1_mac};
use cryptokit::sha::sha1_digest;
use cryptokit::urandom::{coin_flip, range};

#[test]
fn from_hex_decodes_both_cases() {
    assert_eq!(Buffer::from_hex("00ff10aB").0, vec![0x00, 0xff, 0x10, 0xab]);
    assert_eq!(Buffer::from_hex("").0, Vec::<u8>::new());
}

#[test]
fn to_hex_writes_lower_case() {
    assert_eq!(Buffer(vec![0x00, 0xff, 0x10, 0xab]).to_hex(), "00ff10ab");
    assert_eq!(Buffer(vec![]).to_hex(), "");
}

#[test]
fn hex_round_trip() {
    let data: Vec<u8> = (0..=255u8).collect();
    assert_eq!(Buffer::from_hex(&Buffer(data.clone()).to_hex()).0, data);
}

#[test]
fn is_hex_text_tells_hex_from_the_rest() {
    assert!(is_hex_text(""));
    assert!(is_hex_text("0aF9"));
    assert!(!is_hex_text("0aF"));
    assert!(!is_hex_text("0g"));
    assert!(!is_hex_text("0x10"));
}

#[test]
fn base64_of_a_buffer() {
    assert_eq!(Buffer::from(b"foobar").to_base64(), "Zm9vYmFy");
    assert_eq!(Buffer::from_base64("Zm9vYmE=").0, b"fooba".to_vec());
}

#[test]
fn hex_to_base64() {
    let b = Buffer::from_hex(
        "49276d206b696c6c696e6720796f757220627261696e206c696b65206120706f69736f6e6f7573206d757368726f6f6d",
    );
    assert_eq!(b.to_base64(), "SSdtIGtpbGxpbmcgeW91ciBicmFpbiBsaWtlIGEgcG9pc29ub3VzIG11c2hyb29t");
}

#[test]
fn xor_of_equal_lengths() {
    let a = Buffer::from_hex("1c0111001f010100061a024b53535009181c");
    let b = Buffer::from_hex("686974207468652062756c6c277320657965");
    assert_eq!(a.xor(&b).to_hex(), "746865206b696420646f6e277420706c6179");
}

#[test]
fn xor_repeats_the_shorter_buffer() {
    let text = Buffer::from(
        b"Burning 'em, if you ain't quick and nimble\nI go crazy when I hear a cymbal",
    );
    let key = Buffer::from(b"ICE");
    assert_eq!(
        text.xor(&key).to_hex(),
        "0b3637272a2b2e63622c2e69692a23693a2a3c6324202d623d63343c2a26226324272765272a282b2f20430a652e2c652a3124333a653e2b2027630c692b20283165286326302e27282f"
    );
    assert_eq!(key.xor(&text).0, text.xor(&key).0);
}

#[test]
fn xor_with_an_empty_buffer_is_empty() {
    let a = Buffer::from(b"abc");
    let e = Buffer(vec![]);
    assert!(a.xor(&e).0.is_empty());
    assert!(e.xor(&a).0.is_empty());
}

#[test]
fn count_bits_of_bytes() {
    assert_eq!(count_bits(0), 0);
    assert_eq!(count_bits(0xff), 8);
    assert_eq!(count_bits(0x80), 1);
    for b in 0..=255u8 {
        assert_eq!(count_bits(b), b.count_ones() as usize);
    }
}

#[test]
fn hamming_distance_of_the_reference_strings() {
    assert_eq!(hamming_distance(b"this is a test", b"wokka wokka!!!"), 37);
    let a = Buffer::from(b"this is a test");
    let b = Buffer::from(b"wokka wokka!!!");
    assert_eq!(a.hamming_distance(&b), 37);
}

#[test]
fn hamming_distance_stops_at_the_shorter_buffer() {
    assert_eq!(hamming_distance(&[0xff, 0xff, 0xff], &[0x00]), 8);
    assert_eq!(hamming_distance(&[], &[1, 2, 3]), 0);
}

#[test]
fn transpose_deals_bytes_out() {
    let b = Buffer(vec![0, 1, 2, 3, 4, 5, 6, 7]);
    let t = b.transpose(3);
    assert_eq!(t.len(), 3);
    assert_eq!(t[0].0, vec![0, 3, 6]);
    assert_eq!(t[1].0, vec![1, 4, 7]);
    assert_eq!(t[2].0, vec![2, 5]);
}

#[test]
fn transpose_into_no_buffers() {
    assert!(Buffer(vec![1, 2, 3]).transpose(0).is_empty());
}

#[test]
fn transpose_into_more_buffers_than_bytes() {
    let t = Buffer(vec![1, 2]).transpose(4);
    assert_eq!(t.len(), 4);
    assert_eq!(t[0].0, vec![1]);
    assert_eq!(t[1].0, vec![2]);
    assert!(t[2].0.is_empty());
    assert!(t[3].0.is_empty());
}

#[test]
fn repeated_block_start_finds_the_first_repeat() {
    let b = Buffer(vec![9, 1, 2, 1, 2, 1, 2]);
    assert_eq!(b.repeated_block_start(2), Some(1));
    assert_eq!(b.repeated_block_start(3), None);
    assert_eq!(Buffer(vec![1, 2, 3, 4]).repeated_block_start(2), None);
    assert_eq!(Buffer(vec![7, 7]).repeated_block_start(1), Some(0));
}

#[test]
fn repeated_block_start_edge_cases() {
    assert_eq!(Buffer(vec![]).repeated_block_start(1), None);
    assert_eq!(Buffer(vec![1]).repeated_block_start(0), Some(0));
    assert_eq!(Buffer(vec![1, 1]).repeated_block_start(2), None);
}

#[test]
fn rfind_finds_the_last_place_before_the_end() {
    let b = Buffer(vec![1, 2, 3, 1, 2, 3, 1, 2]);
    assert_eq!(b.rfind(&[1, 2, 3]), Some(3));
    assert_eq!(b.rfind(&[3, 1]), Some(5));
    assert_eq!(b.rfind(&[9]), None);
}

#[test]
fn rfind_does_not_look_at_the_very_end() {
    let b = Buffer(vec![1, 2, 3, 4]);
    assert_eq!(b.rfind(&[3, 4]), None);
    assert_eq!(b.rfind(&[2, 3]), Some(1));
    assert_eq!(b.rfind(&[1, 2, 3, 4]), None);
    assert_eq!(b.rfind(&[1, 2, 3, 4, 5]), None);
}

#[test]
fn buffer_aes_ctr_round_trip() {
    let key = AesKey::from(b"YELLOW SUBMARINE").unwrap();
    let b = Buffer::from(b"some text that is longer than one block");
    let c = b.aes_ctr(&key, 3);
    assert_ne!(c.0, b.0);
    assert_eq!(c.aes_ctr(&key, 3).0, b.0);
    assert_eq!(b.as_ref(), &b.0[..]);
}

#[test]
fn sha1_mac_is_the_digest_of_key_and_message() {
    let key = AesKey::from(b"YELLOW SUBMARINE").unwrap();
    assert_eq!(sha1_mac(&key, b" and more"), sha1_digest(b"YELLOW SUBMARINE and more"));
    assert_eq!(joined(b"ab", b"cd"), b"abcd".to_vec());
}

#[test]
fn hmac_sha1_rfc2202_like_vector() {
    let key = AesKey::from(&[0x0bu8; 16]).unwrap();
    let mac = hmac_sha1(&key, b"Hi There");
    let mut ipad = [0x36u8; 64];
    let mut opad = [0x5cu8; 64];
    for i in 0..16 {
        ipad[i] ^= 0x0b;
        opad[i] ^= 0x0b;
    }
    let mut inner = ipad.to_vec();
    inner.extend_from_slice(b"Hi There");
    let mut outer = opad.to_vec();
    outer.extend_from_slice(&sha1_digest(&inner));
    assert_eq!(mac, sha1_digest(&outer));
}

#[test]
fn hmac_sha1_known_value() {
    let key = AesKey::from(b"keykeykeykeykeyk").unwrap();
    let mac = hmac_sha1(&key, b"The quick brown fox jumps over the lazy dog");
    assert_eq!(hex::encode(mac), "eac180c2a4eca5ac1fe93878f4421a610fa21020");
}

#[test]
fn hmac_matching_bytes_counts_the_equal_prefix() {
    let key = AesKey::from(b"YELLOW SUBMARINE").unwrap();
    let mac = hmac_sha1(&key, b"file");
    assert_eq!(hmac_sha1_matching_bytes(&key, b"file", &mac), 20);
    let mut wrong = mac;
    wrong[7] ^= 1;
    assert_eq!(hmac_sha1_matching_bytes(&key, b"file", &wrong), 7);
    wrong[0] ^= 1;
    assert_eq!(hmac_sha1_matching_bytes(&key, b"file", &wrong), 0);
    let mut last = mac;
    last[19] ^= 0x80;
    assert_eq!(hmac_sha1_matching_bytes(&key, b"file", &last), 19);
}

#[test]
fn range_of_equal_bounds_is_the_bound() {
    assert_eq!(range(5, 5, 0xdead_beef), 5);
}

#[test]
fn range_takes_the_bounds_in_either_order() {
    assert_eq!(range(10, 20, 7), 17);
    assert_eq!(range(20, 10, 7), 17);
    assert_eq!(range(10, 20, 25), 15);
}

#[test]
fn range_halves_a_word_above_the_top() {
    let span = 3_000_000_000u32;
    let top = (u32::MAX / span) * span;
    assert_eq!(top, 3_000_000_000);
    assert_eq!(range(0, span, 4_000_000_000), 2_000_000_000);
    assert_eq!(range(0, span, top), 0);
    assert_eq!(range(0, span, top - 1), top - 1);
}

#[test]
fn range_stays_inside() {
    for r in [0u32, 1, 99, 100, 12345, u32::MAX, u32::MAX - 1] {
        let v = range(100, 200, r);
        assert!((100..200).contains(&v));
    }
}

#[test]
fn coin_flip_reads_the_lowest_bit() {
    assert!(!coin_flip(0));
    assert!(coin_flip(1));
    assert!(!coin_flip(0xfe));
    assert!(coin_flip(0xff));
}

#[test]
fn key_value_parse_pairs() {
    let kv = KeyValue::parse("foo=bar&baz=qux&zap=zazzle");
    assert_eq!(
        kv.0,
        vec![
            ("foo".to_string(), "bar".to_string()),
            ("baz".to_string(), "qux".to_string()),
            ("zap".to_string(), "zazzle".to_string()),
        ]
    );
}

#[test]
fn key_value_parse_cuts_at_both_separators() {
    let kv = KeyValue::parse("a&b=c=d");
    assert_eq!(
        kv.0,
        vec![("a".to_string(), "b".to_string()), ("c".to_string(), "d".to_string())]
    );
}

#[test]
fn key_value_parse_drops_a_piece_without_partner() {
    assert!(KeyValue::parse("alone").0.is_empty());
    assert!(KeyValue::parse("").0.is_empty());
    assert_eq!(KeyValue::parse("k=v&rest").0, vec![("k".to_string(), "v".to_string())]);
    assert_eq!(KeyValue::parse("k=").0, vec![("k".to_string(), "".to_string())]);
}

#[test]
fn key_value_parse_keeps_characters_of_any_width() {
    let kv = KeyValue::parse("n\u{e4}me=v\u{4e2d}l");
    assert_eq!(kv.0, vec![("n\u{e4}me".to_string(), "v\u{4e2d}l".to_string())]);
}

#[test]
fn split_keeps_empty_pieces() {
    assert_eq!(split("a==b&"), vec!["a", "", "b", ""]);
    assert_eq!(split(""), vec![""]);
}

#[test]
fn key_value_from_and_to_string() {
    let kv = KeyValue::from(&[("email", "foo@bar.com"), ("uid", "10"), ("role", "user")]);
    assert_eq!(kv.to_string(), "email=foo@bar.com&uid=10&role=user");
    assert_eq!(KeyValue::from(&[]).to_string(), "");
    assert_eq!(KeyValue::from(&[("a", "b")]).to_string(), "a=b");
}

#[test]
fn key_value_text_round_trip() {
    let text = "email=foo@bar.com&uid=10&role=user";
    assert_eq!(KeyValue::parse(text).to_string(), text);
}

#[test]
fn chunk_pair_distance_sums_over_the_pairs() {
    let b = Buffer(vec![0x00, 0xff, 0x0f, 0x0f, 0x01, 0x03, 0x77]);
    assert_eq!(b.chunk_pair_distance(1), (3, 8 + 0 + 1));
    assert_eq!(b.chunk_pair_distance(2), (1, 4 + 4));
    assert_eq!(b.chunk_pair_distance(3), (1, 4 + 7 + 2));
    assert_eq!(b.chunk_pair_distance(4), (0, 0));
}

#[test]
fn chunk_pair_distance_of_the_reference_strings() {
    let mut bytes = b"this is a test".to_vec();
    bytes.extend_from_slice(b"wokka wokka!!!");
    assert_eq!(Buffer(bytes).chunk_pair_distance(14), (1, 37));
}
