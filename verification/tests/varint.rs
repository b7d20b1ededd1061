use sqlite_schema::error::DecodeError;
use sqlite_schema::varint::{decode_varint, encode_varint, encoded_len};

#[test]
fn decodes_a_single_byte() {
    assert_eq!(decode_varint(&[0x05]), Ok((5, 1)));
}

#[test]
fn decodes_two_bytes() {
    assert_eq!(decode_varint(&[0x81, 0x00]), Ok((128, 2)));
}

#[test]
fn decodes_zero() {
    assert_eq!(decode_varint(&[0x00]), Ok((0, 1)));
}

#[test]
fn decodes_the_largest_single_byte() {
    assert_eq!(decode_varint(&[0x7f]), Ok((127, 1)));
}

#[test]
fn decodes_three_bytes() {
    // 0x84 0x95 0x26: (4 << 14) | (0x15 << 7) | 0x26
    assert_eq!(decode_varint(&[0x84, 0x95, 0x26]), Ok((68_262, 3)));
}

#[test]
fn stops_at_the_terminal_byte() {
    assert_eq!(decode_varint(&[0x05, 0xff, 0xff]), Ok((5, 1)));
    assert_eq!(decode_varint(&[0x81, 0x00, 0x81]), Ok((128, 2)));
}

#[test]
fn empty_input_is_truncated() {
    assert_eq!(decode_varint(&[]), Err(DecodeError::Truncated));
}

#[test]
fn input_that_ends_inside_the_integer_is_truncated() {
    assert_eq!(decode_varint(&[0x81]), Err(DecodeError::Truncated));
    assert_eq!(decode_varint(&[0xff, 0xff, 0xff]), Err(DecodeError::Truncated));
    assert_eq!(decode_varint(&[0x80; 8]), Err(DecodeError::Truncated));
}

#[test]
fn eight_bytes_carry_fifty_six_bits() {
    let bytes = [0xff, 0xff, 0xff, 0xff, 0xff, 0xff, 0xff, 0x7f];
    assert_eq!(decode_varint(&bytes), Ok((0x00ff_ffff_ffff_ffff, 8)));
}

#[test]
fn the_ninth_byte_carries_eight_bits() {
    let bytes = [0x80, 0x80, 0x80, 0x80, 0x80, 0x80, 0x80, 0x80, 0xff];
    assert_eq!(decode_varint(&bytes), Ok((255, 9)));
    let bytes = [0x80, 0x80, 0x80, 0x80, 0x80, 0x80, 0x80, 0x81, 0x80];
    assert_eq!(decode_varint(&bytes), Ok((0x180, 9)));
}

#[test]
fn nine_bytes_reach_the_largest_value() {
    assert_eq!(decode_varint(&[0xff; 9]), Ok((u64::MAX, 9)));
}

#[test]
fn never_reads_a_tenth_byte() {
    assert_eq!(decode_varint(&[0xff; 12]), Ok((u64::MAX, 9)));
}

#[test]
fn encodes_small_values_in_one_byte() {
    assert_eq!(encode_varint(0), vec![0x00]);
    assert_eq!(encode_varint(5), vec![0x05]);
    assert_eq!(encode_varint(127), vec![0x7f]);
}

#[test]
fn encodes_with_continuation_bytes() {
    assert_eq!(encode_varint(128), vec![0x81, 0x00]);
    assert_eq!(encode_varint(16_383), vec![0xff, 0x7f]);
    assert_eq!(encode_varint(16_384), vec![0x81, 0x80, 0x00]);
    assert_eq!(encode_varint(68_262), vec![0x84, 0x95, 0x26]);
}

#[test]
fn encodes_large_values_in_nine_bytes() {
    assert_eq!(
        encode_varint(0x00ff_ffff_ffff_ffff),
        vec![0xff, 0xff, 0xff, 0xff, 0xff, 0xff, 0xff, 0x7f]
    );
    assert_eq!(
        encode_varint(0x0100_0000_0000_0000),
        vec![0x80, 0xc0, 0x80, 0x80, 0x80, 0x80, 0x80, 0x80, 0x00]
    );
    assert_eq!(encode_varint(u64::MAX), vec![0xff; 9]);
}

#[test]
fn encoded_len_grows_every_seven_bits() {
    assert_eq!(encoded_len(0), 1);
    assert_eq!(encoded_len(0x7f), 1);
    assert_eq!(encoded_len(0x80), 2);
    assert_eq!(encoded_len(0x3fff), 2);
    assert_eq!(encoded_len(0x4000), 3);
    assert_eq!(encoded_len(0x1f_ffff), 3);
    assert_eq!(encoded_len(0x20_0000), 4);
    assert_eq!(encoded_len(0xfff_ffff), 4);
    assert_eq!(encoded_len(0x1000_0000), 5);
    assert_eq!(encoded_len(0x7_ffff_ffff), 5);
    assert_eq!(encoded_len(0x8_0000_0000), 6);
    assert_eq!(encoded_len(0x3ff_ffff_ffff), 6);
    assert_eq!(encoded_len(0x400_0000_0000), 7);
    assert_eq!(encoded_len(0x1_ffff_ffff_ffff), 7);
    assert_eq!(encoded_len(0x2_0000_0000_0000), 8);
    assert_eq!(encoded_len(0xff_ffff_ffff_ffff), 8);
    assert_eq!(encoded_len(0x100_0000_0000_0000), 9);
    assert_eq!(encoded_len(u64::MAX), 9);
}

#[test]
fn decoding_gives_back_what_was_encoded() {
    let mut values: Vec<u64> = vec![0, 1, 5, 127, 128, 255, 256, 16_383, 16_384, u64::MAX];
    for shift in 0..64 {
        let power: u64 = 1 << shift;
        values.push(power);
        values.push(power - 1);
        values.push(power + 1);
        values.push(power | 0x55);
    }
    for value in values {
        let bytes = encode_varint(value);
        assert_eq!(bytes.len(), encoded_len(value));
        assert!(bytes.len() >= 1 && bytes.len() <= 9);
        assert_eq!(decode_varint(&bytes), Ok((value, bytes.len())));
    }
}

#[test]
fn decoding_ignores_what_follows_an_encoding() {
    for value in [0u64, 300, 1 << 40, u64::MAX] {
        let mut bytes = encode_varint(value);
        let len = bytes.len();
        bytes.extend_from_slice(&[0xff, 0x00, 0x81]);
        assert_eq!(decode_varint(&bytes), Ok((value, len)));
    }
}
