use std::collections::HashMap;

use amia::decoder::{
    decode_enum, decode_enum_field, decode_map, decode_map_entry, decode_map_field, decode_map_with,
    decode_message, decode_message_field, decode_packed, decode_packed_field, decode_sint32,
    decode_string, decode_tag, decode_uint32, decode_uint32_field, decode_uint64,
};
use amia::encoder::{
    encode_enum, encode_fixed32, encode_map, encode_map_entry, encode_map_message_entry,
    encode_message, encode_packed, encode_repeated, encode_sint32, encode_string, encode_uint32,
    encode_varint, encode_zigzag, size_of_varint,
};
use amia::reader::Reader;
use amia::{DecodeError, DecodeResult, ErrorKind, Protobuf, WireType};

#[derive(Debug, Default, Clone, PartialEq)]
struct Point {
    x: u32,
    y: i32,
    label: String,
}

impl Protobuf for Point {
    fn encode_to_writer(&self, writer: &mut Vec<u8>) {
        encode_uint32(1, self.x, writer);
        encode_sint32(2, self.y, writer);
        encode_string(3, &self.label, writer);
    }

    fn encoded_len(&self) -> usize {
        let mut len = 0;
        if self.x != 0 {
            len += 1 + size_of_varint(self.x as u64);
        }
        if self.y != 0 {
            let image = ((self.y << 1) ^ (self.y >> 31)) as u32;
            len += 1 + size_of_varint(image as u64);
        }
        if !self.label.is_empty() {
            len += 1 + size_of_varint(self.label.len() as u64) + self.label.len();
        }
        len
    }

    fn decode_from_reader(reader: &mut Reader) -> DecodeResult<Self> {
        let mut point = Point::default();
        while let Some(tag) = decode_tag(reader)? {
            match tag.field_number {
                1 => point.x = decode_uint32(reader)?,
                2 => point.y = decode_sint32(reader)?,
                3 => point.label = decode_string(reader)?,
                _ => match tag.wire_type {
                    WireType::Varint => {
                        decode_uint64(reader)?;
                    }
                    WireType::Fixed32 => {
                        amia::decoder::decode_fixed32(reader)?;
                    }
                    WireType::Fixed64 => {
                        amia::decoder::decode_fixed64(reader)?;
                    }
                    WireType::LengthDelimited => {
                        amia::decoder::decode_bytes(reader)?;
                    }
                },
            }
        }
        Ok(point)
    }
}

#[derive(Debug, Clone, Copy, PartialEq)]
enum Color {
    Red,
    Green,
    Blue,
}

impl From<Color> for i32 {
    fn from(color: Color) -> i32 {
        match color {
            Color::Red => 0,
            Color::Green => 1,
            Color::Blue => 2,
        }
    }
}

fn color_of(value: i32) -> Option<Color> {
    match value {
        0 => Some(Color::Red),
        1 => Some(Color::Green),
        2 => Some(Color::Blue),
        _ => None,
    }
}

fn put_uint32(field_number: u32, value: &u32, writer: &mut Vec<u8>) {
    encode_uint32(field_number, *value, writer)
}

fn put_string(field_number: u32, value: &String, writer: &mut Vec<u8>) {
    encode_string(field_number, value, writer)
}

fn sample() -> Point {
    Point { x: 150, y: -3, label: "p".to_string() }
}

#[test]
fn message_encodes_itself() {
    let point = sample();
    let bytes = point.encode_to_vec();
    assert_eq!(bytes, vec![0x08, 0x96, 0x01, 0x10, 0x05, 0x1a, 0x01, b'p']);
    assert_eq!(point.encoded_len(), bytes.len());
    assert_eq!(Point::decode_from_slice(&bytes).unwrap(), point);
}

#[test]
fn message_skips_unknown_fields() {
    let mut bytes = Vec::new();
    encode_uint32(9, 4, &mut bytes);
    encode_uint32(1, 7, &mut bytes);
    encode_string(12, "later", &mut bytes);
    encode_fixed32(13, 5, &mut bytes);
    encode_string(3, "q", &mut bytes);
    let point = Point::decode_from_slice(&bytes).unwrap();
    assert_eq!(point, Point { x: 7, y: 0, label: "q".to_string() });
}

#[test]
fn default_message_is_empty() {
    let point = Point::default();
    assert!(point.encode_to_vec().is_empty());
    assert_eq!(Point::decode_from_slice(&[]).unwrap(), point);
}

#[test]
fn embedded_message_exact_bytes() {
    let mut bytes = Vec::new();
    encode_message(4, &sample(), &mut bytes);
    assert_eq!(bytes, vec![0x22, 0x08, 0x08, 0x96, 0x01, 0x10, 0x05, 0x1a, 0x01, b'p']);
}

#[test]
fn embedded_message_round_trip() {
    let mut bytes = Vec::new();
    encode_message(4, &sample(), &mut bytes);
    encode_uint32(5, 1, &mut bytes);
    let mut reader = Reader::new(&bytes);
    let point: Option<Point> = decode_message_field(4, &mut reader).unwrap();
    assert_eq!(point, Some(sample()));
    assert_eq!(decode_uint32_field(5, &mut reader).unwrap(), Some(1));
}

#[test]
fn embedded_message_stays_within_its_length() {
    let bytes = [0x02, 0x08, 0x07, 0x10, 0x05];
    let mut reader = Reader::new(&bytes);
    let point: Point = decode_message(&mut reader).unwrap();
    assert_eq!(point, Point { x: 7, y: 0, label: String::new() });
    assert_eq!(reader.position(), 3);
}

#[test]
fn embedded_message_absent_or_mistyped() {
    let mut bytes = Vec::new();
    encode_uint32(4, 1, &mut bytes);
    let mut reader = Reader::new(&bytes);
    let absent: Option<Point> = decode_message_field(5, &mut reader).unwrap();
    assert_eq!(absent, None);
    let mut reader = Reader::new(&bytes);
    let err = decode_message_field::<Point>(4, &mut reader).unwrap_err();
    assert_eq!(
        err.kind(),
        ErrorKind::UnexpectedWireType {
            expected: WireType::LengthDelimited,
            got: WireType::Varint
        }
    );
}

#[test]
fn embedded_message_cut_short_is_a_failed_read() {
    let bytes = [0x05, 0x08, 0x07];
    let mut reader = Reader::new(&bytes);
    let err = decode_message::<Point>(&mut reader).unwrap_err();
    assert_eq!(err.kind(), ErrorKind::Io);
}

#[test]
fn embedded_message_fault_is_passed_on() {
    let bytes = [0x01, 0x0b];
    let mut reader = Reader::new(&bytes);
    let err = decode_message::<Point>(&mut reader).unwrap_err();
    assert_eq!(err.kind(), ErrorKind::InvalidWireType(3));
}

#[test]
fn enum_round_trip() {
    let mut bytes = Vec::new();
    encode_enum(1, Color::Blue, &mut bytes);
    assert_eq!(bytes, vec![0x08, 0x02]);
    let mut reader = Reader::new(&bytes);
    assert_eq!(decode_enum_field(1, &mut reader, color_of).unwrap(), Some(Color::Blue));
    let mut bytes = Vec::new();
    encode_enum(1, Color::Green, &mut bytes);
    let mut reader = Reader::new(&bytes);
    assert_eq!(decode_enum_field(1, &mut reader, color_of).unwrap(), Some(Color::Green));
}

#[test]
fn enum_zero_is_omitted() {
    let mut bytes = Vec::new();
    encode_enum(1, Color::Red, &mut bytes);
    assert!(bytes.is_empty());
    let mut reader = Reader::new(&bytes);
    assert_eq!(decode_enum_field(1, &mut reader, color_of).unwrap(), None);
}

#[test]
fn unknown_enum_value_is_malformed_input() {
    let bytes = [0x07];
    let mut reader = Reader::new(&bytes);
    match decode_enum(&mut reader, color_of).unwrap_err() {
        DecodeError::MalformedInput(message) => assert_eq!(message, "Invalid enum value: 7"),
        other => panic!("unexpected error: {:?}", other),
    }
    let mut bytes = Vec::new();
    encode_varint(-12i64 as u64, &mut bytes);
    let mut reader = Reader::new(&bytes);
    match decode_enum(&mut reader, color_of).unwrap_err() {
        DecodeError::MalformedInput(message) => assert_eq!(message, "Invalid enum value: -12"),
        other => panic!("unexpected error: {:?}", other),
    }
    let mut bytes = Vec::new();
    encode_varint(i32::MIN as i64 as u64, &mut bytes);
    let mut reader = Reader::new(&bytes);
    match decode_enum(&mut reader, color_of).unwrap_err() {
        DecodeError::MalformedInput(message) => {
            assert_eq!(message, "Invalid enum value: -2147483648")
        }
        other => panic!("unexpected error: {:?}", other),
    }
}

#[test]
fn enum_field_absent_or_mistyped() {
    let mut bytes = Vec::new();
    encode_string(1, "x", &mut bytes);
    let mut reader = Reader::new(&bytes);
    assert_eq!(decode_enum_field(2, &mut reader, color_of).unwrap(), None);
    let mut reader = Reader::new(&bytes);
    let err = decode_enum_field(1, &mut reader, color_of).unwrap_err();
    assert_eq!(
        err.kind(),
        ErrorKind::UnexpectedWireType {
            expected: WireType::Varint,
            got: WireType::LengthDelimited
        }
    );
}

#[test]
fn repeated_writes_each_value_as_its_own_field() {
    let mut bytes = Vec::new();
    encode_repeated(4, &[1u32, 0, 300], &mut bytes, put_uint32);
    assert_eq!(bytes, vec![0x20, 0x01, 0x20, 0xac, 0x02]);
    let mut reader = Reader::new(&bytes);
    assert_eq!(decode_uint32_field(4, &mut reader).unwrap(), Some(1));
    assert_eq!(decode_uint32_field(4, &mut reader).unwrap(), Some(300));
    assert_eq!(decode_uint32_field(4, &mut reader).unwrap(), None);
}

#[test]
fn repeated_of_nothing_writes_nothing() {
    let mut bytes = Vec::new();
    let none: [u32; 0] = [];
    encode_repeated(4, &none, &mut bytes, put_uint32);
    assert!(bytes.is_empty());
}

#[test]
fn packed_exact_bytes() {
    let mut bytes = Vec::new();
    encode_packed(4, &[3u64, 270, 86942], &mut bytes, |v: &u64, w: &mut Vec<u8>| {
        encode_varint(*v, w)
    });
    assert_eq!(bytes, vec![0x22, 0x06, 0x03, 0x8e, 0x02, 0x9e, 0xa7, 0x05]);
}

#[test]
fn packed_round_trip() {
    let values = [0u32, 1, 127, 128, u32::MAX];
    let mut bytes = Vec::new();
    encode_packed(6, &values, &mut bytes, |v: &u32, w: &mut Vec<u8>| {
        encode_varint(*v as u64, w)
    });
    let mut reader = Reader::new(&bytes);
    let back = decode_packed_field(6, &mut reader, decode_uint32).unwrap();
    assert_eq!(back, Some(values.to_vec()));
    assert_eq!(reader.remaining_len(), 0);
}

#[test]
fn packed_zigzag_round_trip() {
    let values = [0i64, -1, 1, i64::MIN, i64::MAX];
    let mut bytes = Vec::new();
    encode_packed(6, &values, &mut bytes, |v: &i64, w: &mut Vec<u8>| encode_zigzag(*v, w));
    let mut reader = Reader::new(&bytes);
    let back = decode_packed_field(6, &mut reader, amia::decoder::decode_sint64).unwrap();
    assert_eq!(back, Some(values.to_vec()));
}

#[test]
fn packed_of_nothing_is_omitted() {
    let mut bytes = Vec::new();
    let none: [u32; 0] = [];
    encode_packed(6, &none, &mut bytes, |v: &u32, w: &mut Vec<u8>| {
        encode_varint(*v as u64, w)
    });
    assert!(bytes.is_empty());
    let mut reader = Reader::new(&bytes);
    assert_eq!(decode_packed_field(6, &mut reader, decode_uint32).unwrap(), None);
}

#[test]
fn packed_reads_only_its_payload() {
    let bytes = [0x02, 0x01, 0x02, 0x03];
    let mut reader = Reader::new(&bytes);
    assert_eq!(decode_packed(&mut reader, decode_uint32).unwrap(), vec![1, 2]);
    assert_eq!(reader.position(), 3);
    let empty = [0x00, 0x01];
    let mut reader = Reader::new(&empty);
    assert_eq!(decode_packed(&mut reader, decode_uint32).unwrap(), Vec::<u32>::new());
    assert_eq!(reader.position(), 1);
}

#[test]
fn packed_item_fault_is_passed_on() {
    let bytes = [0x02, 0x01, 0x80];
    let mut reader = Reader::new(&bytes);
    let err = decode_packed(&mut reader, decode_uint32).unwrap_err();
    assert_eq!(err.kind(), ErrorKind::UnexpectedEof);
    let cut = [0x05, 0x01];
    let mut reader = Reader::new(&cut);
    assert_eq!(decode_packed(&mut reader, decode_uint32).unwrap_err().kind(), ErrorKind::Io);
}

#[test]
fn packed_field_absent_or_mistyped() {
    let mut bytes = Vec::new();
    encode_uint32(6, 1, &mut bytes);
    let mut reader = Reader::new(&bytes);
    assert_eq!(decode_packed_field(7, &mut reader, decode_uint32).unwrap(), None);
    let mut reader = Reader::new(&bytes);
    let err = decode_packed_field(6, &mut reader, decode_uint32).unwrap_err();
    assert_eq!(
        err.kind(),
        ErrorKind::UnexpectedWireType {
            expected: WireType::LengthDelimited,
            got: WireType::Varint
        }
    );
}

#[test]
fn map_entry_exact_bytes() {
    let mut bytes = Vec::new();
    encode_map_entry(3, &7u32, &"v".to_string(), &mut bytes, &put_uint32, &put_string);
    assert_eq!(bytes, vec![0x1a, 0x05, 0x08, 0x07, 0x12, 0x01, b'v']);
}

#[test]
fn map_entry_with_default_key_leaves_the_key_out() {
    let mut bytes = Vec::new();
    encode_map_entry(3, &0u32, &"v".to_string(), &mut bytes, &put_uint32, &put_string);
    assert_eq!(bytes, vec![0x1a, 0x03, 0x12, 0x01, b'v']);
}

#[test]
fn map_message_entry_exact_bytes() {
    let mut bytes = Vec::new();
    encode_map_message_entry(3, &7u32, &[0x08, 0x01], &mut bytes, &put_uint32);
    assert_eq!(bytes, vec![0x1a, 0x06, 0x08, 0x07, 0x12, 0x02, 0x08, 0x01]);
}

#[test]
fn map_writes_its_entries_in_order() {
    let pairs = vec![(1u32, "one".to_string()), (2u32, "two".to_string())];
    let mut bytes = Vec::new();
    encode_map(3, &pairs, &mut bytes, put_uint32, put_string);
    assert_eq!(
        bytes,
        vec![
            0x1a, 0x07, 0x08, 0x01, 0x12, 0x03, b'o', b'n', b'e', 0x1a, 0x07, 0x08, 0x02, 0x12,
            0x03, b't', b'w', b'o'
        ]
    );
}

#[test]
fn map_round_trip() {
    let pairs =
        vec![(1u32, "one".to_string()), (2u32, "two".to_string()), (70000u32, "x".to_string())];
    let mut bytes = Vec::new();
    encode_map(3, &pairs, &mut bytes, put_uint32, put_string);
    let mut reader = Reader::new(&bytes);
    let map: HashMap<u32, String> = decode_map(&mut reader, decode_uint32, decode_string).unwrap();
    let expected: HashMap<u32, String> = pairs.into_iter().collect();
    assert_eq!(map, expected);
    assert_eq!(reader.remaining_len(), 0);
}

#[test]
fn map_later_entry_replaces_earlier() {
    let pairs = vec![(1u32, "one".to_string()), (1u32, "uno".to_string())];
    let mut bytes = Vec::new();
    encode_map(3, &pairs, &mut bytes, put_uint32, put_string);
    let mut reader = Reader::new(&bytes);
    let map: HashMap<u32, String> = decode_map(&mut reader, decode_uint32, decode_string).unwrap();
    assert_eq!(map.len(), 1);
    assert_eq!(map[&1], "uno");
}

#[test]
fn map_of_nothing() {
    let bytes: [u8; 0] = [];
    let mut reader = Reader::new(&bytes);
    let map: HashMap<u32, String> = decode_map(&mut reader, decode_uint32, decode_string).unwrap();
    assert!(map.is_empty());
    let mut out = Vec::new();
    let none: [(u32, String); 0] = [];
    encode_map(3, &none, &mut out, put_uint32, put_string);
    assert!(out.is_empty());
}

#[test]
fn map_entry_reads_key_then_value() {
    let entry = [0x08, 0x07, 0x12, 0x01, b'v'];
    let pair: (u32, String) = decode_map_entry(&entry, &decode_uint32, &decode_string).unwrap();
    assert_eq!(pair, (7, "v".to_string()));
}

#[test]
fn swapped_map_entry_is_malformed_input() {
    let bytes = [0x1a, 0x04, 0x10, 0x07, 0x08, 0x09];
    let mut reader = Reader::new(&bytes);
    let err = decode_map(&mut reader, decode_uint32, decode_uint32).unwrap_err();
    assert_eq!(err.kind(), ErrorKind::MalformedInput);
    match err {
        DecodeError::MalformedInput(message) => {
            assert_eq!(message, "Expected field number 1 for key in map entry")
        }
        other => panic!("unexpected error: {:?}", other),
    }
    let mut reader = Reader::new(&bytes);
    let err = decode_map_field(3, &mut reader, decode_uint32, decode_uint32).unwrap_err();
    assert_eq!(err.kind(), ErrorKind::MalformedInput);
}

#[test]
fn map_entry_faults() {
    let missing_key: [u8; 0] = [];
    match decode_map_entry(&missing_key, &decode_uint32, &decode_uint32).unwrap_err() {
        DecodeError::MalformedInput(message) => assert_eq!(message, "Missing key in map entry"),
        other => panic!("unexpected error: {:?}", other),
    }
    let missing_value = [0x08, 0x07];
    match decode_map_entry(&missing_value, &decode_uint32, &decode_uint32).unwrap_err() {
        DecodeError::MalformedInput(message) => {
            assert_eq!(message, "Missing value in map entry")
        }
        other => panic!("unexpected error: {:?}", other),
    }
    let wrong_value = [0x08, 0x07, 0x18, 0x09];
    match decode_map_entry(&wrong_value, &decode_uint32, &decode_uint32).unwrap_err() {
        DecodeError::MalformedInput(message) => {
            assert_eq!(message, "Expected field number 2 for value in map entry")
        }
        other => panic!("unexpected error: {:?}", other),
    }
    let bad_tag = [0x0b];
    let err = decode_map_entry(&bad_tag, &decode_uint32, &decode_uint32).unwrap_err();
    assert_eq!(err.kind(), ErrorKind::InvalidWireType(3));
    let bad_key = [0x08, 0x80];
    let err = decode_map_entry(&bad_key, &decode_uint32, &decode_uint32).unwrap_err();
    assert_eq!(err.kind(), ErrorKind::UnexpectedEof);
}

#[test]
fn map_refuses_an_entry_that_is_not_length_delimited() {
    let bytes = [0x18, 0x01];
    let mut reader = Reader::new(&bytes);
    let err = decode_map(&mut reader, decode_uint32, decode_uint32).unwrap_err();
    assert_eq!(
        err.kind(),
        ErrorKind::UnexpectedWireType {
            expected: WireType::LengthDelimited,
            got: WireType::Varint
        }
    );
}

#[test]
fn map_field_stops_at_another_field_and_gives_its_tag_back() {
    let mut bytes = Vec::new();
    encode_uint32(1, 9, &mut bytes);
    let pairs = vec![(1u32, 10u32), (2u32, 20u32)];
    encode_map(3, &pairs, &mut bytes, put_uint32, put_uint32);
    encode_uint32(4, 5, &mut bytes);
    let mut reader = Reader::new(&bytes);
    assert_eq!(decode_uint32_field(1, &mut reader).unwrap(), Some(9));
    let map: HashMap<u32, u32> =
        decode_map_field(3, &mut reader, decode_uint32, decode_uint32).unwrap();
    let expected: HashMap<u32, u32> = pairs.into_iter().collect();
    assert_eq!(map, expected);
    assert_eq!(decode_uint32_field(4, &mut reader).unwrap(), Some(5));
    assert_eq!(reader.remaining_len(), 0);
}

#[test]
fn map_field_at_the_start_gives_the_tag_back() {
    let bytes = [0x18, 0x01];
    let mut reader = Reader::new(&bytes);
    let map: HashMap<u32, u32> =
        decode_map_field(7, &mut reader, decode_uint32, decode_uint32).unwrap();
    assert!(map.is_empty());
    assert_eq!(reader.position(), 0);
    assert_eq!(decode_uint32_field(3, &mut reader).unwrap(), Some(1));
    assert_eq!(reader.remaining_len(), 0);
}

#[test]
fn map_field_reads_to_the_end_of_input() {
    let mut bytes = Vec::new();
    let pairs = vec![(5u32, 50u32)];
    encode_map(3, &pairs, &mut bytes, put_uint32, put_uint32);
    let mut reader = Reader::new(&bytes);
    let map: HashMap<u32, u32> =
        decode_map_field(3, &mut reader, decode_uint32, decode_uint32).unwrap();
    assert_eq!(map.len(), 1);
    assert_eq!(map[&5], 50);
    assert_eq!(reader.remaining_len(), 0);
}

#[test]
fn map_with_filter_is_map_field() {
    let mut bytes = Vec::new();
    encode_uint32(1, 9, &mut bytes);
    encode_map(3, &[(1u32, 10u32)], &mut bytes, put_uint32, put_uint32);
    encode_uint32(4, 5, &mut bytes);
    let mut first = Reader::new(&bytes);
    let mut second = Reader::new(&bytes);
    first.seek_to(2);
    second.seek_to(2);
    let with: HashMap<u32, u32> =
        decode_map_with(Some(3), &mut first, decode_uint32, decode_uint32).unwrap();
    let field: HashMap<u32, u32> =
        decode_map_field(3, &mut second, decode_uint32, decode_uint32).unwrap();
    assert_eq!(with, field);
    assert_eq!(first.position(), second.position());
    assert_eq!(first.position(), bytes.len() - 2);
}
