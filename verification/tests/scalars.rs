use amia::decoder::{
    decode_bool, decode_bool_field, decode_bytes, decode_bytes_field, decode_fixed32,
    decode_fixed32_field, decode_fixed64, decode_fixed64_field, decode_int32, decode_int32_field,
    decode_int64, decode_int64_field, decode_sfixed32, decode_sfixed32_field, decode_sfixed64,
    decode_sfixed64_field, decode_sint32, decode_sint32_field, decode_sint64, decode_sint64_field,
    decode_string, decode_string_field, decode_uint32, decode_uint32_field, decode_uint64,
    decode_uint64_field,
};
use amia::encoder::{
    encode_bool, encode_bytes, encode_double_bits, encode_fixed32, encode_fixed64,
    encode_float_bits, encode_int32, encode_int64, encode_length_delimited, encode_sfixed32,
    encode_sfixed64, encode_sint32, encode_sint64, encode_string, encode_uint32, encode_uint64,
    encode_varint,
};
use amia::reader::Reader;
use amia::{DecodeError, ErrorKind, WireType};

fn written<F: FnOnce(&mut Vec<u8>)>(write: F) -> Vec<u8> {
    let mut out = Vec::new();
    write(&mut out);
    out
}

#[test]
fn uint32_exact_bytes_and_round_trip() {
    assert_eq!(written(|w| encode_uint32(1, 150, w)), vec![0x08, 0x96, 0x01]);
    assert_eq!(written(|w| encode_uint32(1, 1, w)), vec![0x08, 0x01]);
    for value in [1u32, 127, 128, 150, 1 << 20, u32::MAX] {
        let bytes = written(|w| encode_uint32(7, value, w));
        let mut reader = Reader::new(&bytes);
        assert_eq!(decode_uint32_field(7, &mut reader).unwrap(), Some(value));
        assert_eq!(reader.remaining_len(), 0);
    }
}

#[test]
fn int32_exact_bytes_and_round_trip() {
    assert_eq!(written(|w| encode_int32(1, 1, w)), vec![0x08, 0x01]);
    assert_eq!(
        written(|w| encode_int32(1, -1, w)),
        vec![0x08, 0xff, 0xff, 0xff, 0xff, 0xff, 0xff, 0xff, 0xff, 0xff, 0x01]
    );
    for value in [1i32, -1, 300, -300, i32::MAX, i32::MIN] {
        let bytes = written(|w| encode_int32(2, value, w));
        let mut reader = Reader::new(&bytes);
        assert_eq!(decode_int32_field(2, &mut reader).unwrap(), Some(value));
        assert_eq!(reader.remaining_len(), 0);
    }
}

#[test]
fn int64_exact_bytes_and_round_trip() {
    assert_eq!(written(|w| encode_int64(1, 2, w)), vec![0x08, 0x02]);
    assert_eq!(
        written(|w| encode_int64(1, -2, w)),
        vec![0x08, 0xfe, 0xff, 0xff, 0xff, 0xff, 0xff, 0xff, 0xff, 0xff, 0x01]
    );
    for value in [1i64, -1, 1 << 40, -(1 << 40), i64::MAX, i64::MIN] {
        let bytes = written(|w| encode_int64(3, value, w));
        let mut reader = Reader::new(&bytes);
        assert_eq!(decode_int64_field(3, &mut reader).unwrap(), Some(value));
        assert_eq!(reader.remaining_len(), 0);
    }
}

#[test]
fn uint64_exact_bytes_and_round_trip() {
    assert_eq!(written(|w| encode_uint64(2, 300, w)), vec![0x10, 0xac, 0x02]);
    for value in [1u64, 300, 1 << 63, (1 << 63) - 1, u64::MAX] {
        let bytes = written(|w| encode_uint64(4, value, w));
        let mut reader = Reader::new(&bytes);
        assert_eq!(decode_uint64_field(4, &mut reader).unwrap(), Some(value));
        assert_eq!(reader.remaining_len(), 0);
    }
}

#[test]
fn sint32_exact_bytes_and_round_trip() {
    assert_eq!(written(|w| encode_sint32(1, -1, w)), vec![0x08, 0x01]);
    assert_eq!(written(|w| encode_sint32(1, 1, w)), vec![0x08, 0x02]);
    assert_eq!(written(|w| encode_sint32(1, -64, w)), vec![0x08, 0x7f]);
    for value in [1i32, -1, 64, -65, i32::MAX, i32::MIN] {
        let bytes = written(|w| encode_sint32(5, value, w));
        let mut reader = Reader::new(&bytes);
        assert_eq!(decode_sint32_field(5, &mut reader).unwrap(), Some(value));
        assert_eq!(reader.remaining_len(), 0);
    }
}

#[test]
fn sint64_exact_bytes_and_round_trip() {
    assert_eq!(written(|w| encode_sint64(1, -1, w)), vec![0x08, 0x01]);
    assert_eq!(written(|w| encode_sint64(1, -2, w)), vec![0x08, 0x03]);
    assert_eq!(
        written(|w| encode_sint64(1, i64::MIN, w)),
        vec![0x08, 0xff, 0xff, 0xff, 0xff, 0xff, 0xff, 0xff, 0xff, 0xff, 0x01]
    );
    for value in [1i64, -1, 1 << 40, -(1 << 40), i64::MAX, i64::MIN] {
        let bytes = written(|w| encode_sint64(6, value, w));
        let mut reader = Reader::new(&bytes);
        assert_eq!(decode_sint64_field(6, &mut reader).unwrap(), Some(value));
        assert_eq!(reader.remaining_len(), 0);
    }
}

#[test]
fn bool_exact_bytes_and_round_trip() {
    assert_eq!(written(|w| encode_bool(3, true, w)), vec![0x18, 0x01]);
    let bytes = written(|w| encode_bool(3, true, w));
    let mut reader = Reader::new(&bytes);
    assert_eq!(decode_bool_field(3, &mut reader).unwrap(), Some(true));
    let any_nonzero = [0x05];
    let mut reader = Reader::new(&any_nonzero);
    assert!(decode_bool(&mut reader).unwrap());
    let zero = [0x00];
    let mut reader = Reader::new(&zero);
    assert!(!decode_bool(&mut reader).unwrap());
}

#[test]
fn fixed32_exact_bytes_and_round_trip() {
    assert_eq!(written(|w| encode_fixed32(4, 1, w)), vec![0x25, 1, 0, 0, 0]);
    assert_eq!(
        written(|w| encode_fixed32(4, 0x1234_5678, w)),
        vec![0x25, 0x78, 0x56, 0x34, 0x12]
    );
    for value in [1u32, 0x1234_5678, u32::MAX] {
        let bytes = written(|w| encode_fixed32(9, value, w));
        let mut reader = Reader::new(&bytes);
        assert_eq!(decode_fixed32_field(9, &mut reader).unwrap(), Some(value));
        assert_eq!(reader.remaining_len(), 0);
    }
}

#[test]
fn fixed64_exact_bytes_and_round_trip() {
    assert_eq!(written(|w| encode_fixed64(4, 1, w)), vec![0x21, 1, 0, 0, 0, 0, 0, 0, 0]);
    assert_eq!(
        written(|w| encode_fixed64(4, 0x0102_0304_0506_0708, w)),
        vec![0x21, 8, 7, 6, 5, 4, 3, 2, 1]
    );
    for value in [1u64, 0x0102_0304_0506_0708, u64::MAX] {
        let bytes = written(|w| encode_fixed64(9, value, w));
        let mut reader = Reader::new(&bytes);
        assert_eq!(decode_fixed64_field(9, &mut reader).unwrap(), Some(value));
        assert_eq!(reader.remaining_len(), 0);
    }
}

#[test]
fn sfixed32_exact_bytes_and_round_trip() {
    assert_eq!(written(|w| encode_sfixed32(1, -1, w)), vec![0x0d, 0xff, 0xff, 0xff, 0xff]);
    assert_eq!(written(|w| encode_sfixed32(1, -2, w)), vec![0x0d, 0xfe, 0xff, 0xff, 0xff]);
    for value in [1i32, -1, i32::MAX, i32::MIN] {
        let bytes = written(|w| encode_sfixed32(9, value, w));
        let mut reader = Reader::new(&bytes);
        assert_eq!(decode_sfixed32_field(9, &mut reader).unwrap(), Some(value));
        assert_eq!(reader.remaining_len(), 0);
    }
}

#[test]
fn sfixed64_exact_bytes_and_round_trip() {
    assert_eq!(
        written(|w| encode_sfixed64(1, -1, w)),
        vec![0x09, 0xff, 0xff, 0xff, 0xff, 0xff, 0xff, 0xff, 0xff]
    );
    for value in [1i64, -1, i64::MAX, i64::MIN] {
        let bytes = written(|w| encode_sfixed64(9, value, w));
        let mut reader = Reader::new(&bytes);
        assert_eq!(decode_sfixed64_field(9, &mut reader).unwrap(), Some(value));
        assert_eq!(reader.remaining_len(), 0);
    }
}

#[test]
fn float_bits_exact_bytes_and_round_trip() {
    let one = 1.0f32.to_bits();
    assert_eq!(written(|w| encode_float_bits(1, one, w)), vec![0x0d, 0x00, 0x00, 0x80, 0x3f]);
    for value in [1.0f32, -1.5, f32::MAX, f32::MIN_POSITIVE, f32::INFINITY, f32::NAN] {
        let bytes = written(|w| encode_float_bits(9, value.to_bits(), w));
        assert_eq!(bytes.len(), 5);
        let mut reader = Reader::new(&bytes);
        let bits = decode_fixed32_field(9, &mut reader).unwrap().unwrap();
        assert_eq!(bits, value.to_bits());
    }
}

#[test]
fn double_bits_exact_bytes_and_round_trip() {
    let one = 1.0f64.to_bits();
    assert_eq!(
        written(|w| encode_double_bits(1, one, w)),
        vec![0x09, 0, 0, 0, 0, 0, 0, 0xf0, 0x3f]
    );
    for value in [1.0f64, -1.5, f64::MAX, f64::MIN_POSITIVE, f64::NEG_INFINITY, f64::NAN] {
        let bytes = written(|w| encode_double_bits(9, value.to_bits(), w));
        assert_eq!(bytes.len(), 9);
        let mut reader = Reader::new(&bytes);
        let bits = decode_fixed64_field(9, &mut reader).unwrap().unwrap();
        assert_eq!(bits, value.to_bits());
    }
}

#[test]
fn float_zero_of_either_sign_is_omitted() {
    assert!(written(|w| encode_float_bits(1, 0.0f32.to_bits(), w)).is_empty());
    assert!(written(|w| encode_float_bits(1, (-0.0f32).to_bits(), w)).is_empty());
    assert!(written(|w| encode_double_bits(1, 0.0f64.to_bits(), w)).is_empty());
    assert!(written(|w| encode_double_bits(1, (-0.0f64).to_bits(), w)).is_empty());
    assert_eq!(written(|w| encode_fixed32(1, 0x8000_0000, w)).len(), 5);
    assert_eq!(written(|w| encode_float_bits(1, 1, w)).len(), 5);
}

#[test]
fn string_exact_bytes_and_round_trip() {
    assert_eq!(written(|w| encode_string(1, "ok", w)), vec![0x0a, 0x02, b'o', b'k']);
    for value in ["ok", "héllo wörld", "日本語", "a"] {
        let bytes = written(|w| encode_string(2, value, w));
        let mut reader = Reader::new(&bytes);
        assert_eq!(decode_string_field(2, &mut reader).unwrap(), Some(value.to_string()));
        assert_eq!(reader.remaining_len(), 0);
    }
}

#[test]
fn string_length_counts_bytes() {
    let bytes = written(|w| encode_string(1, "é", w));
    assert_eq!(bytes, vec![0x0a, 0x02, 0xc3, 0xa9]);
}

#[test]
fn long_string_has_two_length_bytes() {
    let value = "x".repeat(200);
    let bytes = written(|w| encode_string(1, &value, w));
    assert_eq!(&bytes[..3], &[0x0a, 0xc8, 0x01]);
    assert_eq!(bytes.len(), 203);
    let mut reader = Reader::new(&bytes);
    assert_eq!(decode_string_field(1, &mut reader).unwrap(), Some(value));
}

#[test]
fn bytes_exact_bytes_and_round_trip() {
    assert_eq!(written(|w| encode_bytes(2, &[1, 2, 3], w)), vec![0x12, 3, 1, 2, 3]);
    let value = vec![0u8, 255, 128, 7];
    let bytes = written(|w| encode_bytes(2, &value, w));
    let mut reader = Reader::new(&bytes);
    assert_eq!(decode_bytes_field(2, &mut reader).unwrap(), Some(value));
    assert_eq!(reader.remaining_len(), 0);
}

#[test]
fn length_delimited_keeps_an_empty_payload() {
    assert_eq!(written(|w| encode_length_delimited(2, &[], w)), vec![0x12, 0]);
    assert_eq!(written(|w| encode_length_delimited(2, &[9, 8], w)), vec![0x12, 2, 9, 8]);
}

#[test]
fn default_values_are_omitted() {
    assert!(written(|w| encode_uint32(1, 0, w)).is_empty());
    assert!(written(|w| encode_int32(1, 0, w)).is_empty());
    assert!(written(|w| encode_int64(1, 0, w)).is_empty());
    assert!(written(|w| encode_uint64(1, 0, w)).is_empty());
    assert!(written(|w| encode_sint32(1, 0, w)).is_empty());
    assert!(written(|w| encode_sint64(1, 0, w)).is_empty());
    assert!(written(|w| encode_bool(1, false, w)).is_empty());
    assert!(written(|w| encode_fixed32(1, 0, w)).is_empty());
    assert!(written(|w| encode_fixed64(1, 0, w)).is_empty());
    assert!(written(|w| encode_sfixed32(1, 0, w)).is_empty());
    assert!(written(|w| encode_sfixed64(1, 0, w)).is_empty());
    assert!(written(|w| encode_string(1, "", w)).is_empty());
    assert!(written(|w| encode_bytes(1, &[], w)).is_empty());
}

#[test]
fn omitted_field_reads_as_absent() {
    let bytes = written(|w| encode_uint32(1, 0, w));
    let mut reader = Reader::new(&bytes);
    assert_eq!(decode_uint32_field(1, &mut reader).unwrap(), None);
    let mut reader = Reader::new(&bytes);
    assert_eq!(decode_string_field(1, &mut reader).unwrap(), None);
    let mut reader = Reader::new(&bytes);
    assert_eq!(decode_bool_field(1, &mut reader).unwrap(), None);
    let mut reader = Reader::new(&bytes);
    assert_eq!(decode_fixed64_field(1, &mut reader).unwrap(), None);
}

#[test]
fn encoders_append_to_what_is_there() {
    let mut out = vec![0xaa, 0xbb];
    encode_uint32(1, 1, &mut out);
    encode_bool(2, false, &mut out);
    encode_string(3, "a", &mut out);
    assert_eq!(out, vec![0xaa, 0xbb, 0x08, 0x01, 0x1a, 0x01, b'a']);
}

#[test]
fn another_field_number_reads_as_absent_after_its_tag() {
    let bytes = written(|w| encode_uint32(2, 7, w));
    let mut reader = Reader::new(&bytes);
    assert_eq!(decode_uint32_field(1, &mut reader).unwrap(), None);
    assert_eq!(reader.position(), 1);
    assert_eq!(decode_uint32(&mut reader).unwrap(), 7);
}

#[test]
fn wrong_wire_type_is_refused() {
    let bytes = written(|w| encode_fixed32(1, 7, w));
    let mut reader = Reader::new(&bytes);
    let err = decode_uint32_field(1, &mut reader).unwrap_err();
    assert_eq!(
        err.kind(),
        ErrorKind::UnexpectedWireType { expected: WireType::Varint, got: WireType::Fixed32 }
    );
    let bytes = written(|w| encode_uint32(1, 7, w));
    let mut reader = Reader::new(&bytes);
    let err = decode_string_field(1, &mut reader).unwrap_err();
    assert_eq!(
        err.kind(),
        ErrorKind::UnexpectedWireType {
            expected: WireType::LengthDelimited,
            got: WireType::Varint
        }
    );
    let mut reader = Reader::new(&bytes);
    let err = decode_fixed64_field(1, &mut reader).unwrap_err();
    assert_eq!(
        err.kind(),
        ErrorKind::UnexpectedWireType { expected: WireType::Fixed64, got: WireType::Varint }
    );
    let mut reader = Reader::new(&bytes);
    let err = decode_sfixed32_field(1, &mut reader).unwrap_err();
    assert_eq!(
        err.kind(),
        ErrorKind::UnexpectedWireType { expected: WireType::Fixed32, got: WireType::Varint }
    );
}

#[test]
fn narrow_integers_keep_the_low_bits() {
    let bytes = written(|w| encode_varint((1u64 << 32) + 5, w));
    let mut reader = Reader::new(&bytes);
    assert_eq!(decode_uint32(&mut reader).unwrap(), 5);
    let mut reader = Reader::new(&bytes);
    assert_eq!(decode_int32(&mut reader).unwrap(), 5);
    let bytes = written(|w| encode_varint(u64::MAX, w));
    let mut reader = Reader::new(&bytes);
    assert_eq!(decode_int32(&mut reader).unwrap(), -1);
    let mut reader = Reader::new(&bytes);
    assert_eq!(decode_int64(&mut reader).unwrap(), -1);
    let mut reader = Reader::new(&bytes);
    assert_eq!(decode_uint64(&mut reader).unwrap(), u64::MAX);
}

#[test]
fn zigzag_integers_from_raw_varints() {
    let bytes = [0x03];
    let mut reader = Reader::new(&bytes);
    assert_eq!(decode_sint32(&mut reader).unwrap(), -2);
    let mut reader = Reader::new(&bytes);
    assert_eq!(decode_sint64(&mut reader).unwrap(), -2);
}

#[test]
fn fixed_width_values_from_raw_bytes() {
    let bytes = [0x78, 0x56, 0x34, 0x12, 0xff, 0xff, 0xff, 0xff];
    let mut reader = Reader::new(&bytes);
    assert_eq!(decode_fixed32(&mut reader).unwrap(), 0x1234_5678);
    assert_eq!(decode_sfixed32(&mut reader).unwrap(), -1);
    let mut reader = Reader::new(&bytes);
    assert_eq!(decode_fixed64(&mut reader).unwrap(), 0xffff_ffff_1234_5678);
    let mut reader = Reader::new(&bytes);
    assert_eq!(decode_sfixed64(&mut reader).unwrap(), -0xedcb_a988i64);
}

#[test]
fn truncated_fixed_width_value_is_a_failed_read() {
    let bytes = [1u8, 2, 3];
    let mut reader = Reader::new(&bytes);
    let err = decode_fixed32(&mut reader).unwrap_err();
    assert_eq!(err.kind(), ErrorKind::Io);
    match err {
        DecodeError::IoError(e) => assert_eq!(e.kind(), std::io::ErrorKind::UnexpectedEof),
        other => panic!("unexpected error: {:?}", other),
    }
    assert_eq!(reader.remaining_len(), 0);
    let bytes = [1u8, 2, 3, 4, 5, 6, 7];
    let mut reader = Reader::new(&bytes);
    assert_eq!(decode_fixed64(&mut reader).unwrap_err().kind(), ErrorKind::Io);
}

#[test]
fn truncated_payload_is_a_failed_read() {
    let bytes = [0x05, b'a', b'b'];
    let mut reader = Reader::new(&bytes);
    let err = decode_bytes(&mut reader).unwrap_err();
    assert_eq!(err.kind(), ErrorKind::Io);
    match err {
        DecodeError::IoError(e) => assert_eq!(e.kind(), std::io::ErrorKind::UnexpectedEof),
        other => panic!("unexpected error: {:?}", other),
    }
    let mut reader = Reader::new(&bytes);
    assert_eq!(decode_string(&mut reader).unwrap_err().kind(), ErrorKind::Io);
}

#[test]
fn truncated_varint_value_is_unexpected_eof() {
    let bytes = [0x08, 0x80];
    let mut reader = Reader::new(&bytes);
    let err = decode_uint32_field(1, &mut reader).unwrap_err();
    assert_eq!(err.kind(), ErrorKind::UnexpectedEof);
}

#[test]
fn invalid_utf8_is_refused() {
    let bytes = [0x0a, 0x02, 0xff, 0xfe];
    let mut reader = Reader::new(&bytes);
    let err = decode_string_field(1, &mut reader).unwrap_err();
    assert_eq!(err.kind(), ErrorKind::InvalidUtf8);
    match err {
        DecodeError::InvalidUtf8(e) => assert_eq!(e.into_bytes(), vec![0xff, 0xfe]),
        other => panic!("unexpected error: {:?}", other),
    }
    let cut = [0x01, 0xc3];
    let mut reader = Reader::new(&cut);
    assert_eq!(decode_string(&mut reader).unwrap_err().kind(), ErrorKind::InvalidUtf8);
}

#[test]
fn bytes_may_hold_anything() {
    let bytes = [0x02, 0xff, 0xfe, 0x09];
    let mut reader = Reader::new(&bytes);
    assert_eq!(decode_bytes(&mut reader).unwrap(), vec![0xff, 0xfe]);
    assert_eq!(reader.position(), 3);
    let empty = [0x00];
    let mut reader = Reader::new(&empty);
    assert_eq!(decode_bytes(&mut reader).unwrap(), Vec::<u8>::new());
    let mut reader = Reader::new(&empty);
    assert_eq!(decode_string(&mut reader).unwrap(), String::new());
}

#[test]
fn error_conversions_keep_their_payload() {
    let io = std::io::Error::new(std::io::ErrorKind::Other, "boom");
    let err = DecodeError::from(io);
    assert_eq!(err.kind(), ErrorKind::Io);
    let utf8 = String::from_utf8(vec![0xff]).unwrap_err();
    let err = DecodeError::from(utf8);
    assert_eq!(err.kind(), ErrorKind::InvalidUtf8);
    assert_eq!(DecodeError::UnexpectedEof.kind(), ErrorKind::UnexpectedEof);
    assert_eq!(DecodeError::InvalidTag.kind(), ErrorKind::InvalidTag);
    assert_eq!(DecodeError::InvalidVarint.kind(), ErrorKind::InvalidVarint);
    assert_eq!(DecodeError::InvalidWireType(3).kind(), ErrorKind::InvalidWireType(3));
    assert_eq!(DecodeError::MalformedInput("x".to_string()).kind(), ErrorKind::MalformedInput);
}

#[test]
fn reader_moves_and_seeks() {
    let bytes = [1u8, 2, 3, 4, 5];
    let mut reader = Reader::new(&bytes);
    assert_eq!(reader.position(), 0);
    assert_eq!(reader.remaining_len(), 5);
    assert_eq!(reader.read_byte(), Some(1));
    assert_eq!(reader.read_exact(2).unwrap(), &[2, 3]);
    assert_eq!(reader.position(), 3);
    reader.seek_to(1);
    assert_eq!(reader.read_byte(), Some(2));
    assert!(reader.read_exact(9).is_err());
    assert_eq!(reader.position(), 5);
    assert_eq!(reader.read_byte(), None);
    assert_eq!(reader.read_exact(0).unwrap(), &[] as &[u8]);
}
