use amia::netpacket::{NetOperation, PacketError};

fn sample() -> NetOperation {
    NetOperation {
        head: 0x0102_0304,
        conv: 0xdead_beef,
        token: 1,
        data: 0,
        tail: 0xffff_ffff,
    }
}

const SAMPLE: [u8; 20] = [
    0x01, 0x02, 0x03, 0x04, 0xde, 0xad, 0xbe, 0xef, 0x00, 0x00, 0x00, 0x01, 0x00, 0x00, 0x00,
    0x00, 0xff, 0xff, 0xff, 0xff,
];

#[test]
fn operation_to_bytes() {
    assert_eq!(sample().to_bytes(), SAMPLE);
}

#[test]
fn operation_from_bytes() {
    assert_eq!(NetOperation::from_bytes(&SAMPLE), Ok(sample()));
}

#[test]
fn operation_words_are_big_endian() {
    let mut bytes = [0u8; 20];
    bytes[3] = 1;
    bytes[4] = 1;
    bytes[10] = 1;
    bytes[13] = 1;
    bytes[19] = 0x80;
    let op = NetOperation::from_bytes(&bytes).unwrap();
    assert_eq!(op.head, 1);
    assert_eq!(op.conv, 0x0100_0000);
    assert_eq!(op.token, 0x0000_0100);
    assert_eq!(op.data, 0x0001_0000);
    assert_eq!(op.tail, 0x80);
    assert_eq!(op.to_bytes(), bytes);
}

#[test]
fn operation_size_mismatch() {
    assert_eq!(NetOperation::from_bytes(&SAMPLE[..19]), Err(PacketError::SizeMismatch));
    assert_eq!(NetOperation::from_bytes(&[]), Err(PacketError::SizeMismatch));
    let mut long = SAMPLE.to_vec();
    long.push(0);
    assert_eq!(NetOperation::from_bytes(&long), Err(PacketError::SizeMismatch));
    assert_eq!(NetOperation::try_from(&SAMPLE[..4]), Err(PacketError::SizeMismatch));
}

#[test]
fn operation_conversions() {
    let op = NetOperation::try_from(&SAMPLE[..]).unwrap();
    assert_eq!(op, sample());
    let array: [u8; 20] = sample().into();
    assert_eq!(array, SAMPLE);
    let vec: Vec<u8> = sample().into();
    assert_eq!(vec, SAMPLE.to_vec());
    let boxed: Box<[u8]> = sample().into();
    assert_eq!(&boxed[..], &SAMPLE[..]);
}

#[test]
fn operation_round_trip() {
    for seed in [0u32, 1, 0x8000_0000, 0x1234_5678, u32::MAX] {
        let op = NetOperation {
            head: seed,
            conv: seed.rotate_left(8),
            token: seed.wrapping_mul(31),
            data: !seed,
            tail: seed ^ 0x5555_5555,
        };
        assert_eq!(NetOperation::from_bytes(&op.to_bytes()), Ok(op));
    }
}

#[test]
fn packet_errors_are_told_apart() {
    assert_ne!(PacketError::TooShort, PacketError::SizeMismatch);
    assert_ne!(PacketError::InvalidHeadMagic, PacketError::InvalidTailMagic);
    assert_eq!(format!("{:?}", PacketError::TooShort), "TooShort");
}
