use amia::decoder::{decode_varint, decode_zigzag};
use amia::encoder::{encode_varint, encode_zigzag, size_of_varint, zigzag_encode};
use amia::reader::Reader;
use amia::ErrorKind;

fn varint(value: u64) -> Vec<u8> {
    let mut out = Vec::new();
    encode_varint(value, &mut out);
    out
}

#[test]
fn varint_zero_is_one_byte() {
    assert_eq!(varint(0), vec![0x00]);
    assert_eq!(size_of_varint(0), 1);
}

#[test]
fn varint_exact_bytes() {
    assert_eq!(varint(1), vec![0x01]);
    assert_eq!(varint(127), vec![0x7f]);
    assert_eq!(varint(128), vec![0x80, 0x01]);
    assert_eq!(varint(300), vec![0xac, 0x02]);
    assert_eq!(varint(16383), vec![0xff, 0x7f]);
    assert_eq!(varint(16384), vec![0x80, 0x80, 0x01]);
}

#[test]
fn varint_largest_values() {
    let top = varint(u64::MAX);
    assert_eq!(top.len(), 10);
    assert_eq!(top, vec![0xff, 0xff, 0xff, 0xff, 0xff, 0xff, 0xff, 0xff, 0xff, 0x01]);
    assert_eq!(varint(1u64 << 63).len(), 10);
    assert_eq!(varint((1u64 << 63) - 1).len(), 9);
    assert_eq!(size_of_varint(u64::MAX), 10);
    assert_eq!(size_of_varint((1u64 << 63) - 1), 9);
}

#[test]
fn varint_size_matches_encoding() {
    let mut value: u64 = 1;
    for _ in 0..64 {
        assert_eq!(size_of_varint(value), varint(value).len());
        assert_eq!(size_of_varint(value - 1), varint(value - 1).len());
        value = value.wrapping_mul(2);
        if value == 0 {
            break;
        }
    }
}

#[test]
fn varint_round_trip() {
    for value in [0u64, 1, 127, 128, 300, 1 << 32, (1 << 63) - 1, 1 << 63, u64::MAX] {
        let bytes = varint(value);
        let mut reader = Reader::new(&bytes);
        assert_eq!(decode_varint(&mut reader).unwrap(), value);
        assert_eq!(reader.position(), bytes.len());
    }
}

#[test]
fn varint_stops_at_its_last_byte() {
    let bytes = [0xac, 0x02, 0x05];
    let mut reader = Reader::new(&bytes);
    assert_eq!(decode_varint(&mut reader).unwrap(), 300);
    assert_eq!(reader.position(), 2);
    assert_eq!(decode_varint(&mut reader).unwrap(), 5);
    assert_eq!(reader.remaining_len(), 0);
}

#[test]
fn varint_eleven_continuation_bytes_is_invalid() {
    let bytes = [0x80u8; 11];
    let mut reader = Reader::new(&bytes);
    let err = decode_varint(&mut reader).unwrap_err();
    assert_eq!(err.kind(), ErrorKind::InvalidVarint);
}

#[test]
fn varint_ten_continuation_bytes_is_invalid() {
    let bytes = [0x80u8; 10];
    let mut reader = Reader::new(&bytes);
    let err = decode_varint(&mut reader).unwrap_err();
    assert_eq!(err.kind(), ErrorKind::InvalidVarint);
}

#[test]
fn varint_cut_short_is_unexpected_eof() {
    let bytes = [0x80u8, 0x80];
    let mut reader = Reader::new(&bytes);
    assert_eq!(decode_varint(&mut reader).unwrap_err().kind(), ErrorKind::UnexpectedEof);
    let empty: [u8; 0] = [];
    let mut reader = Reader::new(&empty);
    assert_eq!(decode_varint(&mut reader).unwrap_err().kind(), ErrorKind::UnexpectedEof);
}

#[test]
fn zigzag_known_values() {
    assert_eq!(zigzag_encode(0), 0);
    assert_eq!(zigzag_encode(-1), 1);
    assert_eq!(zigzag_encode(1), 2);
    assert_eq!(zigzag_encode(-2), 3);
    assert_eq!(zigzag_encode(i64::MAX), u64::MAX - 1);
    assert_eq!(zigzag_encode(i64::MIN), u64::MAX);
    assert_eq!(decode_zigzag(0), 0);
    assert_eq!(decode_zigzag(1), -1);
    assert_eq!(decode_zigzag(2), 1);
    assert_eq!(decode_zigzag(3), -2);
    assert_eq!(decode_zigzag(u64::MAX), i64::MIN);
}

#[test]
fn zigzag_minus_one_is_the_smallest_varint() {
    let mut out = Vec::new();
    encode_zigzag(-1, &mut out);
    assert_eq!(out, vec![0x01]);
}

#[test]
fn zigzag_round_trip() {
    for n in [0i64, 1, -1, 2, -2, 63, -64, 64, -65, i64::MAX, i64::MIN, 123_456_789, -987_654_321] {
        assert_eq!(decode_zigzag(zigzag_encode(n)), n);
    }
}
