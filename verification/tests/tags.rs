use amia::decoder::{decode_tag, Tag};
use amia::encoder::{encode_tag, encode_varint, make_tag};
use amia::reader::Reader;
use amia::{ErrorKind, WireType};

const WIRE_TYPES: [WireType; 4] =
    [WireType::Varint, WireType::Fixed64, WireType::LengthDelimited, WireType::Fixed32];

fn tag_bytes(field_number: u32, wire_type: WireType) -> Vec<u8> {
    let mut out = Vec::new();
    encode_tag(field_number, wire_type, &mut out);
    out
}

#[test]
fn wire_type_codes() {
    assert_eq!(WireType::Varint.code(), 0);
    assert_eq!(WireType::Fixed64.code(), 1);
    assert_eq!(WireType::LengthDelimited.code(), 2);
    assert_eq!(WireType::Fixed32.code(), 5);
    for wire_type in WIRE_TYPES {
        assert_eq!(WireType::from_code(wire_type.code()), Some(wire_type));
    }
    assert_eq!(WireType::from_code(3), None);
    assert_eq!(WireType::from_code(4), None);
    assert_eq!(WireType::from_code(6), None);
    assert_eq!(WireType::from_code(7), None);
    assert_eq!(WireType::from_code(8), None);
}

#[test]
fn make_tag_packs_number_and_wire_type() {
    assert_eq!(make_tag(1, WireType::Varint), 8);
    assert_eq!(make_tag(1, WireType::Fixed64), 9);
    assert_eq!(make_tag(5, WireType::LengthDelimited), 42);
    assert_eq!(make_tag(16, WireType::Fixed32), 133);
    assert_eq!(make_tag((1 << 29) - 1, WireType::Varint), 0xffff_fff8);
}

#[test]
fn encode_tag_exact_bytes() {
    assert_eq!(tag_bytes(1, WireType::Varint), vec![0x08]);
    assert_eq!(tag_bytes(2, WireType::LengthDelimited), vec![0x12]);
    assert_eq!(tag_bytes(15, WireType::Fixed32), vec![0x7d]);
    assert_eq!(tag_bytes(16, WireType::Fixed32), vec![0x85, 0x01]);
    assert_eq!(
        tag_bytes((1 << 29) - 1, WireType::Fixed64),
        vec![0xf9, 0xff, 0xff, 0xff, 0x0f]
    );
}

#[test]
fn tag_round_trip() {
    for field_number in [1u32, 2, 15, 16, 2047, 2048, 1 << 20, (1 << 29) - 1] {
        for wire_type in WIRE_TYPES {
            let bytes = tag_bytes(field_number, wire_type);
            let mut reader = Reader::new(&bytes);
            let tag = decode_tag(&mut reader).unwrap().unwrap();
            assert_eq!(tag.field_number, field_number);
            assert_eq!(tag.wire_type, wire_type);
            assert_eq!(tag, Tag::new(field_number, wire_type));
            assert_eq!(reader.position(), bytes.len());
        }
    }
}

#[test]
fn tag_decode_is_decode_tag() {
    let bytes = [0x1a, 0x00];
    let mut first = Reader::new(&bytes);
    let mut second = Reader::new(&bytes);
    assert_eq!(Tag::decode(&mut first).unwrap(), decode_tag(&mut second).unwrap());
    assert_eq!(first.position(), second.position());
}

#[test]
fn group_wire_types_are_refused() {
    for code in [3u8, 4] {
        let bytes = [(1 << 3) | code];
        let mut reader = Reader::new(&bytes);
        let err = decode_tag(&mut reader).unwrap_err();
        assert_eq!(err.kind(), ErrorKind::InvalidWireType(code as u32));
    }
}

#[test]
fn unknown_wire_types_are_refused() {
    for code in [6u8, 7] {
        let bytes = [(9 << 3) | code];
        let mut reader = Reader::new(&bytes);
        let err = decode_tag(&mut reader).unwrap_err();
        assert_eq!(err.kind(), ErrorKind::InvalidWireType(code as u32));
    }
}

#[test]
fn zero_tag_is_end_of_fields() {
    let bytes = [0x00, 0x08];
    let mut reader = Reader::new(&bytes);
    assert_eq!(decode_tag(&mut reader).unwrap(), None);
    assert_eq!(reader.position(), 1);
}

#[test]
fn end_of_input_is_end_of_fields() {
    let bytes: [u8; 0] = [];
    let mut reader = Reader::new(&bytes);
    assert_eq!(decode_tag(&mut reader).unwrap(), None);
    let cut = [0x80u8];
    let mut reader = Reader::new(&cut);
    assert_eq!(decode_tag(&mut reader).unwrap(), None);
    assert_eq!(reader.remaining_len(), 0);
}

#[test]
fn field_number_zero_is_invalid_tag() {
    for code in [1u8, 2, 5, 3, 7] {
        let bytes = [code];
        let mut reader = Reader::new(&bytes);
        assert_eq!(decode_tag(&mut reader).unwrap_err().kind(), ErrorKind::InvalidTag);
    }
}

#[test]
fn field_number_beyond_32_bits_is_invalid_tag() {
    let mut bytes = Vec::new();
    encode_varint(1u64 << 35, &mut bytes);
    let mut reader = Reader::new(&bytes);
    assert_eq!(decode_tag(&mut reader).unwrap_err().kind(), ErrorKind::InvalidTag);
    let mut bytes = Vec::new();
    encode_varint(((u32::MAX as u64) << 3) | 2, &mut bytes);
    let mut reader = Reader::new(&bytes);
    let tag = decode_tag(&mut reader).unwrap().unwrap();
    assert_eq!(tag, Tag::new(u32::MAX, WireType::LengthDelimited));
}

#[test]
fn overlong_tag_is_invalid_varint() {
    let bytes = [0xffu8; 11];
    let mut reader = Reader::new(&bytes);
    assert_eq!(decode_tag(&mut reader).unwrap_err().kind(), ErrorKind::InvalidVarint);
}
