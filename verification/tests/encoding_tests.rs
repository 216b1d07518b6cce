use cryptokit::base64::{
    base64_to_bytes, base64_to_sextet, bytes_to_base64, is_decodable, sextet_to_base64,
    try_base64_to_bytes, EncodingIter,
};
use cryptokit::sextet_iter::SextetIter;

#[test]
fn sextets_of_three_bytes() {
    let mut it = SextetIter::new(b"Man");
    assert_eq!(it.next(), Some(19));
    assert_eq!(it.next(), Some(22));
    assert_eq!(it.next(), Some(5));
    assert_eq!(it.next(), Some(46));
    assert_eq!(it.next(), None);
    assert_eq!(it.next(), None);
}

#[test]
fn sextets_of_one_and_two_bytes() {
    let mut it = SextetIter::new(b"M");
    assert_eq!(it.next(), Some(19));
    assert_eq!(it.next(), Some(16));
    assert_eq!(it.next(), None);
    let mut it = SextetIter::new(b"Ma");
    assert_eq!(it.next(), Some(19));
    assert_eq!(it.next(), Some(22));
    assert_eq!(it.next(), Some(4));
    assert_eq!(it.next(), None);
}

#[test]
fn sextets_of_nothing() {
    let mut it = SextetIter::new(b"");
    assert_eq!(it.next(), None);
}

#[test]
fn sextet_count_follows_length() {
    for len in 0..20usize {
        let data = vec![0xa5u8; len];
        let mut it = SextetIter::new(&data);
        let mut n = 0;
        while let Some(s) = it.next() {
            assert!(s < 64);
            n += 1;
        }
        assert_eq!(n, (len * 8 + 5) / 6);
    }
}

#[test]
fn alphabet_ends() {
    assert_eq!(sextet_to_base64(0), 'A');
    assert_eq!(sextet_to_base64(25), 'Z');
    assert_eq!(sextet_to_base64(26), 'a');
    assert_eq!(sextet_to_base64(51), 'z');
    assert_eq!(sextet_to_base64(52), '0');
    assert_eq!(sextet_to_base64(61), '9');
    assert_eq!(sextet_to_base64(62), '+');
    assert_eq!(sextet_to_base64(63), '/');
}

#[test]
fn alphabet_round_trip() {
    for s in 0..64u8 {
        assert_eq!(base64_to_sextet(sextet_to_base64(s)), s);
    }
}

#[test]
fn encode_rfc4648_vectors() {
    assert_eq!(bytes_to_base64(b""), "");
    assert_eq!(bytes_to_base64(b"f"), "Zg==");
    assert_eq!(bytes_to_base64(b"fo"), "Zm8=");
    assert_eq!(bytes_to_base64(b"foo"), "Zm9v");
    assert_eq!(bytes_to_base64(b"foob"), "Zm9vYg==");
    assert_eq!(bytes_to_base64(b"fooba"), "Zm9vYmE=");
    assert_eq!(bytes_to_base64(b"foobar"), "Zm9vYmFy");
}

#[test]
fn encode_hex_challenge_string() {
    let bytes = hex::decode(
        "49276d206b696c6c696e6720796f757220627261696e206c696b65206120706f69736f6e6f7573206d757368726f6f6d",
    )
    .unwrap();
    assert_eq!(
        bytes_to_base64(&bytes),
        "SSdtIGtpbGxpbmcgeW91ciBicmFpbiBsaWtlIGEgcG9pc29ub3VzIG11c2hyb29t"
    );
}

#[test]
fn decode_rfc4648_vectors() {
    assert_eq!(base64_to_bytes(""), b"".to_vec());
    assert_eq!(base64_to_bytes("Zg=="), b"f".to_vec());
    assert_eq!(base64_to_bytes("Zm8="), b"fo".to_vec());
    assert_eq!(base64_to_bytes("Zm9v"), b"foo".to_vec());
    assert_eq!(base64_to_bytes("Zm9vYg=="), b"foob".to_vec());
    assert_eq!(base64_to_bytes("Zm9vYmE="), b"fooba".to_vec());
    assert_eq!(base64_to_bytes("Zm9vYmFy"), b"foobar".to_vec());
}

#[test]
fn decode_skips_what_is_outside_the_alphabet() {
    assert_eq!(base64_to_bytes("Zm9v\nYmFy\n"), b"foobar".to_vec());
    assert_eq!(base64_to_bytes(" Z m 9 v "), b"foo".to_vec());
    assert_eq!(base64_to_bytes("Zm\u{e9}9v"), b"foo".to_vec());
}

#[test]
fn decode_without_padding() {
    assert_eq!(base64_to_bytes("Zg"), b"f".to_vec());
    assert_eq!(base64_to_bytes("Zm8"), b"fo".to_vec());
}

#[test]
fn decode_undoes_encode() {
    for len in 0..40usize {
        let data: Vec<u8> = (0..len).map(|i| (i * 37 + 11) as u8).collect();
        assert_eq!(base64_to_bytes(&bytes_to_base64(&data)), data);
    }
}

#[test]
fn one_sextet_left_over_cannot_be_decoded() {
    assert!(!is_decodable("Z"));
    assert!(!is_decodable("Zm9vY"));
    assert!(is_decodable("Zm9v"));
    assert!(is_decodable(""));
    assert!(is_decodable("=="));
    assert_eq!(try_base64_to_bytes("Zm9vY"), None);
    assert_eq!(try_base64_to_bytes("Zm9v"), Some(b"foo".to_vec()));
}

#[test]
fn encoding_iter_gives_bytes_one_by_one() {
    let mut it = EncodingIter::new(b"Zm9vYg==");
    assert_eq!(it.next(), Some(b'f'));
    assert_eq!(it.next(), Some(b'o'));
    assert_eq!(it.next(), Some(b'o'));
    assert_eq!(it.next(), Some(b'b'));
    assert_eq!(it.next(), None);
    assert_eq!(it.next(), None);
}
