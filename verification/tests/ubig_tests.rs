use cryptokit::dh::{nist_dh_p, nist_dh_public, nist_dh_secret};
use cryptokit::ubig::compare::LeadingZeroRevIter;
use cryptokit::ubig::{reverse, Ubig};
use std::cmp::Ordering;

fn n(bytes: &[u8]) -> Ubig {
    Ubig::from(bytes)
}

#[test]
fn new_reads_hex_most_significant_first() {
    assert_eq!(Ubig::new("0102ff").0, vec![0xff, 0x02, 0x01]);
    assert_eq!(Ubig::new("").0, Vec::<u8>::new());
    assert_eq!(Ubig::new("AbCd").0, vec![0xcd, 0xab]);
}

#[test]
fn to_string_writes_hex_most_significant_first() {
    assert_eq!(n(&[0xff, 0x02, 0x01]).to_string(), "0102ff");
    assert_eq!(n(&[]).to_string(), "0");
    assert_eq!(n(&[0x00]).to_string(), "00");
    assert_eq!(Ubig::new("00ab10").to_string(), "00ab10");
}

#[test]
fn bytes_go_in_and_out() {
    let x = n(&[1, 2, 3]);
    assert_eq!(x.as_ref(), &[1, 2, 3]);
    assert_eq!(x.clone().into_bytes(), vec![1, 2, 3]);
    assert_eq!(reverse(&[1, 2, 3]), vec![3, 2, 1]);
}

#[test]
fn not_zero_and_is_one() {
    assert!(!n(&[]).not_zero());
    assert!(!n(&[0, 0, 0]).not_zero());
    assert!(n(&[0, 0, 1]).not_zero());
    assert!(n(&[1]).is_one());
    assert!(n(&[1, 0, 0]).is_one());
    assert!(!n(&[]).is_one());
    assert!(!n(&[0]).is_one());
    assert!(!n(&[2]).is_one());
    assert!(!n(&[1, 1]).is_one());
    assert!(!n(&[0, 1]).is_one());
}

#[test]
fn significant_bytes_leaves_zeros_at_the_end_out() {
    assert_eq!(n(&[]).significant_bytes(), 0);
    assert_eq!(n(&[0, 0]).significant_bytes(), 0);
    assert_eq!(n(&[1, 0, 2, 0, 0]).significant_bytes(), 3);
    assert_eq!(n(&[1]).significant_bytes(), 1);
}

#[test]
fn eq_does_not_count_zeros_at_the_end() {
    assert!(n(&[1, 2]).eq(&n(&[1, 2, 0, 0])));
    assert!(n(&[]).eq(&n(&[0])));
    assert!(!n(&[1, 2]).eq(&n(&[1, 3])));
    assert!(!n(&[1, 2]).eq(&n(&[1, 2, 1])));
}

#[test]
fn compare_and_partial_cmp_go_by_the_number() {
    assert_eq!(n(&[0, 1]).compare(&n(&[0xff])), 1);
    assert_eq!(n(&[0xff]).compare(&n(&[0, 1])), -1);
    assert_eq!(n(&[5, 0, 0]).compare(&n(&[5])), 0);
    assert_eq!(n(&[1, 2, 3]).compare(&n(&[2, 2, 3])), -1);
    assert_eq!(n(&[0, 1]).partial_cmp(&n(&[0xff])), Some(Ordering::Greater));
    assert_eq!(n(&[0xff]).partial_cmp(&n(&[0, 1])), Some(Ordering::Less));
    assert_eq!(n(&[]).partial_cmp(&n(&[0, 0])), Some(Ordering::Equal));
}

#[test]
fn leading_zero_iter_walks_down_from_the_top() {
    let bytes = [1u8, 2, 3];
    let mut it = LeadingZeroRevIter::new(&bytes, 5);
    assert_eq!(it.next(), Some(0));
    assert_eq!(it.next(), Some(0));
    assert_eq!(it.next(), Some(3));
    assert_eq!(it.next(), Some(2));
    assert_eq!(it.next(), Some(1));
    assert_eq!(it.next(), None);
    assert_eq!(it.next(), None);
}

#[test]
fn add_with_carry() {
    assert_eq!(n(&[0xff]).add(n(&[0x01])).0, vec![0x00, 0x01]);
    assert_eq!(n(&[0xff, 0xff]).add(n(&[0xff, 0xff])).0, vec![0xfe, 0xff, 0x01]);
    assert_eq!(n(&[1]).add(n(&[2, 3])).0, vec![3, 3]);
    assert_eq!(n(&[]).add(n(&[7])).0, vec![7]);
}

#[test]
fn add_repeats_a_shorter_right_side() {
    assert_eq!(n(&[1, 1, 1]).add(n(&[2])).0, vec![3, 3, 3]);
    assert_eq!(n(&[1, 1, 1]).add(n(&[1, 2])).0, vec![2, 3, 2]);
    assert_eq!(n(&[1, 1, 1]).add(n(&[])).0, Vec::<u8>::new());
}

#[test]
fn mul_is_the_product() {
    assert_eq!(n(&[0xff]).mul(n(&[0xff])).0, vec![0x01, 0xfe]);
    assert_eq!(n(&[0x10, 0x27]).mul(n(&[0x10, 0x27])).0, vec![0x00, 0xe1, 0xf5, 0x05]);
    assert_eq!(n(&[3]).mul(n(&[0, 0, 1])).0, vec![0, 0, 3]);
    assert_eq!(n(&[7, 7]).mul(n(&[0])).0, Vec::<u8>::new());
    assert_eq!(n(&[]).mul(n(&[9])).0, Vec::<u8>::new());
    assert_eq!(n(&[0xff, 0xff, 0xff]).mul(n(&[0xff, 0xff, 0xff])).0, vec![0x01, 0x00, 0x00, 0xfe, 0xff, 0xff]);
}

#[test]
fn rem_is_the_remainder() {
    assert_eq!(n(&[100]).rem(&n(&[7])).0, vec![2]);
    assert_eq!(n(&[0x00, 0x01]).rem(&n(&[0x00, 0x01])).0, Vec::<u8>::new());
    assert_eq!(n(&[0x39, 0x30]).rem(&n(&[0xe8, 0x03])).0, vec![0x59, 0x01]);
    assert_eq!(n(&[5]).rem(&n(&[0, 1])).0, vec![5]);
    assert_eq!(n(&[]).rem(&n(&[3])).0, Vec::<u8>::new());
}

#[test]
fn rem_by_zero_gives_the_number_back() {
    assert_eq!(n(&[0x39, 0x30, 0x00]).rem(&n(&[])).0, vec![0x39, 0x30]);
    assert_eq!(n(&[9]).rem(&n(&[0, 0])).0, vec![9]);
}

#[test]
fn shl_assign_multiplies_by_a_power_of_two() {
    let mut x = n(&[0x81]);
    x.shl_assign(1);
    assert_eq!(x.0, vec![0x02, 0x01]);
    let mut x = n(&[0x01]);
    x.shl_assign(8);
    assert_eq!(x.0, vec![0x00, 0x01]);
    let mut x = n(&[0xff, 0x01]);
    x.shl_assign(12);
    assert_eq!(x.0, vec![0x00, 0xf0, 0x1f]);
    let mut x = n(&[0x12, 0x34]);
    x.shl_assign(0);
    assert_eq!(x.0, vec![0x12, 0x34]);
}

#[test]
fn shr_assign_divides_by_a_power_of_two() {
    let mut x = n(&[0x02, 0x01]);
    x.shr_assign(1);
    assert_eq!(x.0, vec![0x81]);
    let mut x = n(&[0x00, 0xf0, 0x1f]);
    x.shr_assign(12);
    assert_eq!(x.0, vec![0xff, 0x01]);
    let mut x = n(&[0x01]);
    x.shr_assign(1);
    assert_eq!(x.0, Vec::<u8>::new());
    let mut x = n(&[0x34, 0x12, 0x00]);
    x.shr_assign(0);
    assert_eq!(x.0, vec![0x34, 0x12]);
    let mut x = n(&[0xab, 0xcd]);
    x.shr_assign(16);
    assert_eq!(x.0, Vec::<u8>::new());
}

#[test]
fn sub_assign_takes_off() {
    let mut x = n(&[0x00, 0x01]);
    x.sub_assign(&n(&[0x01]));
    assert_eq!(x.0, vec![0xff, 0x00]);
    let mut x = n(&[0x05, 0x05]);
    x.sub_assign(&n(&[0x05, 0x05, 0x00]));
    assert_eq!(x.0, vec![0x00, 0x00]);
}

#[test]
fn sub_assign_wraps_round_below_zero() {
    let mut x = n(&[0x01]);
    x.sub_assign(&n(&[0x02]));
    assert_eq!(x.0, vec![0xff]);
    let mut x = n(&[0x00, 0x00]);
    x.sub_assign(&n(&[0x01]));
    assert_eq!(x.0, vec![0xff, 0xff]);
}

#[test]
fn modexp_small_numbers() {
    assert_eq!(Ubig::modexp(n(&[4]), n(&[13]), n(&[0xf1, 0x01])).0, vec![0xbd, 0x01]);
    assert_eq!(Ubig::modexp(n(&[2]), n(&[10]), n(&[0xe8, 0x03])).0, vec![24]);
    assert_eq!(Ubig::modexp(n(&[3]), n(&[200]), n(&[13])).0, vec![9]);
    assert_eq!(Ubig::modexp(n(&[7]), n(&[1]), n(&[5])).0, vec![2]);
}

#[test]
fn modexp_edge_cases() {
    assert_eq!(Ubig::modexp(n(&[5]), n(&[]), n(&[7])).0, vec![1]);
    assert_eq!(Ubig::modexp(n(&[5]), n(&[0]), n(&[1])).0, vec![1]);
    assert_eq!(Ubig::modexp(n(&[5]), n(&[3]), n(&[1])).0, Vec::<u8>::new());
    assert_eq!(Ubig::modexp(n(&[0]), n(&[3]), n(&[7])).0, Vec::<u8>::new());
    assert_eq!(Ubig::modexp(n(&[14]), n(&[2]), n(&[7])).0, Vec::<u8>::new());
}

#[test]
fn nist_prime_ends_in_ff_bytes() {
    let p = nist_dh_p();
    assert_eq!(p.0.len(), 192);
    assert_eq!(&p.0[..8], &[0xff; 8]);
    assert_eq!(&p.0[184..], &[0xff; 8]);
    assert_eq!(p.0[8], 0x27);
}

#[test]
fn dh_public_of_small_private_values() {
    assert_eq!(nist_dh_public(&[]), vec![1]);
    assert_eq!(nist_dh_public(&[1]), vec![2]);
    assert_eq!(nist_dh_public(&[10]), vec![0x00, 0x04]);
}

#[test]
fn dh_public_known_value() {
    let private: Vec<u8> = (1..21).collect();
    assert_eq!(hex::encode(nist_dh_public(&private)), "afbbd0160edcea75f097df9049398fd042d496e81131ca594b645a17d1ecaf797e02fffb63693a3e5cff50d9f57db1497bb97719281336493434dae94576d09a68ae90eb691453536b2cb9b7b7d1c315caec0614e683a0ea4a1e75199b656a8bda89536fc2e0df1978199a7aeb64dca95a2704aa1c98a47a324215fa3989ee8f1541683b40b37b925ece2958427569773bccc43456d9939f954f6127aad346e38210108f43586354973540f44d231b24f7f24af48dd6e7d94b14f4c135af191b");
}

#[test]
fn dh_both_sides_share_one_secret() {
    let a: Vec<u8> = (1..21).collect();
    let b: Vec<u8> = (101..121).collect();
    let pa = nist_dh_public(&a);
    let pb = nist_dh_public(&b);
    let sa = nist_dh_secret(&pb, &a);
    let sb = nist_dh_secret(&pa, &b);
    assert_eq!(sa, sb);
    assert_eq!(hex::encode(&sa), "e30bf41a09ee6f4c890b7e826e950b416de4f04e5e9f54b0e298a4b9fe56af52664fe952c004c649d6a1bde3e7988d68dee63352851ab1948319e6cd056864abc4ceca52f8218c3addecf06129c3980f1151624cc47c8f950a9017c1a3972811d958eec9cf9c6b013c26c7969c34aa66b342d64d25e241073393594a3aa955efbb2437e0fb317f2f8d755ed1659b90ecf162eb9cadcc1fbab16f7c015fecb1ed57ea832b42a94aeea31073f07ac9ee165aedd04f7c0b5398fb4f9b696964e7f7");
}

#[test]
fn dh_secret_of_degenerate_public_values() {
    let a: Vec<u8> = (1..21).collect();
    assert_eq!(nist_dh_secret(&[1], &a), vec![1]);
    assert_eq!(nist_dh_secret(nist_dh_p().as_ref(), &a), Vec::<u8>::new());
}
