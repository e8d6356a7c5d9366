use amia::decoder::Tag;
use amia::encoder::{
    encode_bytes, encode_fixed32, encode_fixed64, encode_sint64, encode_string, encode_uint32,
    encode_uint64,
};
use amia::scan::{FieldScan, Next, VarintProgress, VarintStep};
use amia::{ErrorKind, WireType};

fn scan(bytes: &[u8]) -> (usize, Next) {
    let mut state = FieldScan::start();
    for (index, byte) in bytes.iter().enumerate() {
        match state.step(*byte) {
            Next::Byte(next) => state = next,
            other => return (index + 1, other),
        }
    }
    (bytes.len(), Next::Byte(state))
}

fn remaining(bytes: &[u8]) -> (usize, u64) {
    match scan(bytes) {
        (used, Next::Bytes(n)) => (used, n),
        other => panic!("unexpected outcome: {:?}", other),
    }
}

#[test]
fn varint_progress_gathers_the_value() {
    let start = VarintProgress::start();
    let next = match start.step(0xac) {
        VarintStep::More(next) => next,
        other => panic!("unexpected step: {:?}", other),
    };
    match next.step(0x02) {
        VarintStep::Done(value) => assert_eq!(value, 300),
        other => panic!("unexpected step: {:?}", other),
    }
    match VarintProgress::start().step(0x00) {
        VarintStep::Done(value) => assert_eq!(value, 0),
        other => panic!("unexpected step: {:?}", other),
    }
}

#[test]
fn varint_progress_reads_the_largest_value() {
    let mut progress = VarintProgress::start();
    for _ in 0..9 {
        progress = match progress.step(0xff) {
            VarintStep::More(next) => next,
            other => panic!("unexpected step: {:?}", other),
        };
    }
    match progress.step(0x01) {
        VarintStep::Done(value) => assert_eq!(value, u64::MAX),
        other => panic!("unexpected step: {:?}", other),
    }
}

#[test]
fn varint_progress_gives_up_at_the_tenth_continuation_byte() {
    let mut progress = VarintProgress::start();
    for _ in 0..9 {
        progress = match progress.step(0x80) {
            VarintStep::More(next) => next,
            other => panic!("unexpected step: {:?}", other),
        };
    }
    assert!(matches!(progress.step(0x80), VarintStep::Invalid));
}

#[test]
fn tag_from_value() {
    assert_eq!(Tag::from_value(0).unwrap(), None);
    assert_eq!(Tag::from_value(8).unwrap(), Some(Tag::new(1, WireType::Varint)));
    assert_eq!(Tag::from_value(42).unwrap(), Some(Tag::new(5, WireType::LengthDelimited)));
    assert_eq!(Tag::from_value(5).unwrap_err().kind(), ErrorKind::InvalidTag);
    assert_eq!(Tag::from_value(11).unwrap_err().kind(), ErrorKind::InvalidWireType(3));
    assert_eq!(Tag::from_value(12).unwrap_err().kind(), ErrorKind::InvalidWireType(4));
    assert_eq!(Tag::from_value(1 << 35).unwrap_err().kind(), ErrorKind::InvalidTag);
}

#[test]
fn scan_of_a_varint_field() {
    assert_eq!(remaining(&[0x08, 0x96, 0x01, 0x7f]), (3, 0));
    assert_eq!(remaining(&[0x08, 0x01]), (2, 0));
}

#[test]
fn scan_of_fixed_width_fields() {
    assert_eq!(remaining(&[0x25, 1, 2, 3, 4]), (1, 4));
    assert_eq!(remaining(&[0x21, 1, 2, 3, 4, 5, 6, 7, 8]), (1, 8));
    assert_eq!(remaining(&[0x85, 0x01]), (2, 4));
}

#[test]
fn scan_of_length_delimited_fields() {
    assert_eq!(remaining(&[0x0a, 0x02, b'o', b'k']), (2, 2));
    assert_eq!(remaining(&[0x0a, 0xc8, 0x01]), (3, 200));
    assert_eq!(remaining(&[0x0a, 0x00]), (2, 0));
}

#[test]
fn scan_of_the_end_marker() {
    assert!(matches!(scan(&[0x00, 0x08]), (1, Next::End)));
}

#[test]
fn scan_is_unfinished_inside_a_field() {
    assert!(matches!(scan(&[]), (0, Next::Byte(FieldScan::Tag(_)))));
    assert!(matches!(scan(&[0x80]), (1, Next::Byte(FieldScan::Tag(_)))));
    assert!(matches!(scan(&[0x08]), (1, Next::Byte(FieldScan::Value(_)))));
    assert!(matches!(scan(&[0x08, 0x80]), (2, Next::Byte(FieldScan::Value(_)))));
    assert!(matches!(scan(&[0x0a]), (1, Next::Byte(FieldScan::Length(_)))));
    assert!(FieldScan::start().in_tag());
    match scan(&[0x08]) {
        (_, Next::Byte(state)) => assert!(!state.in_tag()),
        other => panic!("unexpected outcome: {:?}", other),
    }
}

#[test]
fn scan_faults() {
    match scan(&[0x0b]) {
        (1, Next::Fault(e)) => assert_eq!(e.kind(), ErrorKind::InvalidWireType(3)),
        other => panic!("unexpected outcome: {:?}", other),
    }
    match scan(&[0x01]) {
        (1, Next::Fault(e)) => assert_eq!(e.kind(), ErrorKind::InvalidTag),
        other => panic!("unexpected outcome: {:?}", other),
    }
    match scan(&[0x80; 11]) {
        (10, Next::Fault(e)) => assert_eq!(e.kind(), ErrorKind::InvalidVarint),
        other => panic!("unexpected outcome: {:?}", other),
    }
    let mut long_value = vec![0x08];
    long_value.extend([0xff; 10]);
    match scan(&long_value) {
        (11, Next::Fault(e)) => assert_eq!(e.kind(), ErrorKind::InvalidVarint),
        other => panic!("unexpected outcome: {:?}", other),
    }
}

#[test]
fn scan_finds_the_end_of_every_written_field() {
    let mut fields: Vec<Vec<u8>> = Vec::new();
    let mut push = |write: &dyn Fn(&mut Vec<u8>)| {
        let mut out = Vec::new();
        write(&mut out);
        fields.push(out);
    };
    push(&|w| encode_uint32(1, 150, w));
    push(&|w| encode_uint64(300, u64::MAX, w));
    push(&|w| encode_sint64(2, -1, w));
    push(&|w| encode_fixed32(3, 7, w));
    push(&|w| encode_fixed64(4, 7, w));
    push(&|w| encode_string(5, "hello", w));
    push(&|w| encode_bytes(70000, &[0u8; 300], w));
    for field in fields {
        let mut followed = field.clone();
        followed.extend([0xff, 0xff]);
        let (used, left) = remaining(&followed);
        assert_eq!(used + left as usize, field.len());
    }
}
