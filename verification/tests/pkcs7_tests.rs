use cryptokit::pkcs7::{pad, pad_inplace, unpad, unpad_length};

#[test]
fn pad_appends_the_missing_count() {
    assert_eq!(pad(b"YELLOW SUBMARINE", 20), b"YELLOW SUBMARINE\x04\x04\x04\x04".to_vec());
    assert_eq!(pad(b"abc", 8), b"abc\x05\x05\x05\x05\x05".to_vec());
}

#[test]
fn pad_of_aligned_data_appends_a_whole_block() {
    let out = pad(&[7u8; 16], 16);
    assert_eq!(out.len(), 32);
    assert_eq!(&out[..16], &[7u8; 16]);
    assert_eq!(&out[16..], &[16u8; 16]);
}

#[test]
fn pad_of_empty_data_is_one_block() {
    assert_eq!(pad(&[], 4), vec![4u8; 4]);
}

#[test]
fn pad_never_appends_nothing() {
    for len in 0..40usize {
        let data = vec![0u8; len];
        let out = pad(&data, 16);
        assert!(out.len() > len);
        assert_eq!(out.len() % 16, 0);
        assert_eq!(*out.last().unwrap() as usize, out.len() - len);
    }
}

#[test]
fn pad_inplace_fills_the_tail() {
    let mut block = [1u8; 16];
    pad_inplace(&mut block, 10);
    assert_eq!(block, [1, 1, 1, 1, 1, 1, 1, 1, 1, 1, 6, 6, 6, 6, 6, 6]);
}

#[test]
fn pad_inplace_from_the_end_changes_nothing() {
    let mut block = [1u8; 4];
    pad_inplace(&mut block, 4);
    assert_eq!(block, [1u8; 4]);
}

#[test]
fn pad_inplace_from_the_start_fills_everything() {
    let mut block = [0u8; 16];
    pad_inplace(&mut block, 0);
    assert_eq!(block, [16u8; 16]);
}

#[test]
fn unpad_length_of_valid_padding() {
    assert_eq!(unpad_length(b"ICE ICE BABY\x04\x04\x04\x04"), 12);
    assert_eq!(unpad_length(&[16u8; 16]), 0);
    assert_eq!(unpad_length(b"abc\x01"), 3);
}

#[test]
fn unpad_length_reads_the_last_n_bytes_only() {
    assert_eq!(unpad_length(&[4u8, 4, 4, 4, 4]), 1);
    assert_eq!(unpad_length(b"ab\x01\x01"), 3);
}

#[test]
fn unpad_length_signals_invalid_padding_by_full_length() {
    assert_eq!(unpad_length(b"ICE ICE BABY\x05\x05\x05\x05"), 16);
    assert_eq!(unpad_length(b"ICE ICE BABY\x01\x02\x03\x04"), 16);
    assert_eq!(unpad_length(b"ICE ICE BABY!!!\x00"), 16);
    assert_eq!(unpad_length(&[9u8, 9, 9]), 3);
}

#[test]
fn unpad_length_of_empty_input_is_zero() {
    assert_eq!(unpad_length(&[]), 0);
}

#[test]
fn unpad_takes_valid_padding_off() {
    assert_eq!(unpad(b"ICE ICE BABY\x04\x04\x04\x04"), b"ICE ICE BABY".to_vec());
}

#[test]
fn unpad_keeps_data_with_invalid_padding() {
    assert_eq!(unpad(b"ICE ICE BABY\x01\x02\x03\x04"), b"ICE ICE BABY\x01\x02\x03\x04".to_vec());
}

#[test]
fn unpad_undoes_pad() {
    for len in 0..50usize {
        let data: Vec<u8> = (0..len).map(|i| (i % 5) as u8).collect();
        for bs in [1usize, 8, 16, 255] {
            assert_eq!(unpad(&pad(&data, bs)), data);
        }
    }
}
