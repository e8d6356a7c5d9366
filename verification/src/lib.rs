//! A binary wire-format engine for the proto3 encoding, with a Base64
//! transcoder and a small packet-header codec beside it.
//!
//! Every executable function carries a contract over the byte sequences it
//! reads or writes; the wire format itself is defined by the specification
//! functions of [`varint`], [`encoder`] and [`decoder`].

use vstd::prelude::*;

pub mod base64;
pub mod builder;
pub mod decoder;
pub mod encoder;
pub mod laws;
pub mod netpacket;
pub mod reader;
pub mod scan;
pub mod trace;
pub mod varint;

use crate::reader::Reader;

verus! {

/// The byte-layout family of a field, carried in the low three bits of its tag.
#[derive(Debug, Clone, Copy, PartialEq, Eq, Structural)]
pub enum WireType {
    Varint,
    Fixed64,
    LengthDelimited,
    Fixed32,
}

impl WireType {
    /// The three-bit code of this wire type as a mathematical integer.
    pub open spec fn spec_code(self) -> u32 {
        match self {
            WireType::Varint => 0,
            WireType::Fixed64 => 1,
            WireType::LengthDelimited => 2,
            WireType::Fixed32 => 5,
        }
    }

    /// The wire type a three-bit code stands for, if any.
    pub open spec fn spec_from_code(code: u32) -> Option<WireType> {
        if code == 0 {
            Some(WireType::Varint)
        } else if code == 1 {
            Some(WireType::Fixed64)
        } else if code == 2 {
            Some(WireType::LengthDelimited)
        } else if code == 5 {
            Some(WireType::Fixed32)
        } else {
            None
        }
    }

    /// The three-bit code written to the wire.
    #[verifier::when_used_as_spec(spec_code)]
    pub fn code(self) -> (c: u32)
        ensures
            c == self.spec_code(),
            c < 8,
    {
        match self {
            WireType::Varint => 0,
            WireType::Fixed64 => 1,
            WireType::LengthDelimited => 2,
            WireType::Fixed32 => 5,
        }
    }

    /// Reads a three-bit code back; the legacy group markers 3 and 4, and
    /// everything above 5, stand for no wire type.
    pub fn from_code(code: u32) -> (w: Option<WireType>)
        ensures
            w == Self::spec_from_code(code),
            w matches Some(t) ==> t.spec_code() == code,
    {
        if code == 0 {
            Some(WireType::Varint)
        } else if code == 1 {
            Some(WireType::Fixed64)
        } else if code == 2 {
            Some(WireType::LengthDelimited)
        } else if code == 5 {
            Some(WireType::Fixed32)
        } else {
            None
        }
    }
}

/// Declares `std::io::Error` to the verifier as an opaque type: values of it are
/// carried through, and nothing is known of what they hold.
#[verifier::external_type_specification]
#[verifier::external_body]
pub struct ExIoError(std::io::Error);

/// Declares `std::string::FromUtf8Error` to the verifier as an opaque type:
/// values of it are carried through, and nothing is known of what they hold.
#[verifier::external_type_specification]
#[verifier::external_body]
pub struct ExFromUtf8Error(std::string::FromUtf8Error);

/// Why a decode failed.
#[derive(Debug)]
pub enum DecodeError {
    /// A read from the byte source failed: among others, where the source ends
    /// inside a fixed-width value or a length-delimited payload.
    IoError(std::io::Error),
    /// The input ended inside a varint.
    UnexpectedEof,
    /// A tag carried a wire-type code that stands for no wire type.
    InvalidWireType(u32),
    /// A nonzero tag whose field number is zero or does not fit 32 bits.
    InvalidTag,
    /// A varint ran on past its tenth byte.
    InvalidVarint,
    /// A string field held bytes that are not UTF-8.
    InvalidUtf8(std::string::FromUtf8Error),
    /// A field was found with another wire type than its kind calls for.
    UnexpectedWireType { expected: WireType, got: WireType },
    /// Any other structural fault, with a description.
    MalformedInput(String),
}

/// A [`DecodeError`] without its opaque payloads: what contracts and callers compare.
#[derive(Debug, Clone, Copy, PartialEq, Eq, Structural)]
pub enum ErrorKind {
    Io,
    UnexpectedEof,
    InvalidWireType(u32),
    InvalidTag,
    InvalidVarint,
    InvalidUtf8,
    UnexpectedWireType { expected: WireType, got: WireType },
    MalformedInput,
}

impl DecodeError {
    /// The kind of this error.
    pub open spec fn spec_kind(&self) -> ErrorKind {
        match *self {
            DecodeError::IoError(_) => ErrorKind::Io,
            DecodeError::UnexpectedEof => ErrorKind::UnexpectedEof,
            DecodeError::InvalidWireType(code) => ErrorKind::InvalidWireType(code),
            DecodeError::InvalidTag => ErrorKind::InvalidTag,
            DecodeError::InvalidVarint => ErrorKind::InvalidVarint,
            DecodeError::InvalidUtf8(_) => ErrorKind::InvalidUtf8,
            DecodeError::UnexpectedWireType { expected, got } => ErrorKind::UnexpectedWireType {
                expected,
                got,
            },
            DecodeError::MalformedInput(_) => ErrorKind::MalformedInput,
        }
    }

    /// The kind of this error, for callers that want to compare errors.
    #[verifier::when_used_as_spec(spec_kind)]
    pub fn kind(&self) -> (k: ErrorKind)
        ensures
            k == self.spec_kind(),
    {
        match self {
            DecodeError::IoError(_) => ErrorKind::Io,
            DecodeError::UnexpectedEof => ErrorKind::UnexpectedEof,
            DecodeError::InvalidWireType(code) => ErrorKind::InvalidWireType(*code),
            DecodeError::InvalidTag => ErrorKind::InvalidTag,
            DecodeError::InvalidVarint => ErrorKind::InvalidVarint,
            DecodeError::InvalidUtf8(_) => ErrorKind::InvalidUtf8,
            DecodeError::UnexpectedWireType { expected, got } => ErrorKind::UnexpectedWireType {
                expected: *expected,
                got: *got,
            },
            DecodeError::MalformedInput(_) => ErrorKind::MalformedInput,
        }
    }
}

impl From<std::io::Error> for DecodeError {
    fn from(err: std::io::Error) -> (e: Self) {
        DecodeError::IoError(err)
    }
}

impl vstd::std_specs::convert::FromSpecImpl<std::io::Error> for DecodeError {
    open spec fn obeys_from_spec() -> bool {
        true
    }

    open spec fn from_spec(err: std::io::Error) -> Self {
        DecodeError::IoError(err)
    }
}

impl From<std::string::FromUtf8Error> for DecodeError {
    fn from(err: std::string::FromUtf8Error) -> (e: Self) {
        DecodeError::InvalidUtf8(err)
    }
}

impl vstd::std_specs::convert::FromSpecImpl<std::string::FromUtf8Error> for DecodeError {
    open spec fn obeys_from_spec() -> bool {
        true
    }

    open spec fn from_spec(err: std::string::FromUtf8Error) -> Self {
        DecodeError::InvalidUtf8(err)
    }
}

pub type DecodeResult<T> = Result<T, DecodeError>;

/// What every message type can do: write itself to a byte buffer, say how many
/// bytes that takes, and read itself back from a byte source.
///
/// The three methods that every implementation writes carry no contract of
/// their own. The two provided methods are stated over them, and the functions
/// of this crate that call any of them state their results through
/// `call_ensures`, so whatever an implementation proves of its methods reaches
/// the callers of those functions.
pub trait Protobuf: Sized + Default {
    /// Appends the encoding of `self` to `writer`.
    fn encode_to_writer(&self, writer: &mut Vec<u8>);

    /// The number of bytes `encode_to_writer` appends.
    fn encoded_len(&self) -> usize;

    /// The encoding of `self` in a buffer of its own: what `encode_to_writer`
    /// appends to an empty buffer.
    fn encode_to_vec(&self) -> (encoded: Vec<u8>)
        ensures
            exists|writer: &mut Vec<u8>|
                {
                    &&& writer@ == Seq::<u8>::empty()
                    &&& #[trigger] call_ensures(Self::encode_to_writer, (self, writer), ())
                    &&& encoded@ == final(writer)@
                },
    {
        let mut buffer = Vec::with_capacity(self.encoded_len());
        self.encode_to_writer(&mut buffer);
        buffer
    }

    /// Reads one message from `reader`, up to the end marker or the end of input.
    fn decode_from_reader(reader: &mut Reader) -> DecodeResult<Self>;

    /// Reads one message from the whole of `bytes`: what `decode_from_reader`
    /// makes of a reader at the start of `bytes`.
    fn decode_from_slice(bytes: &[u8]) -> (r: DecodeResult<Self>)
        ensures
            exists|reader: &mut Reader|
                {
                    &&& reader.source() == bytes@
                    &&& reader.spec_position() == 0
                    &&& #[trigger] call_ensures(Self::decode_from_reader, (reader,), r)
                },
    {
        let mut reader = Reader::new(bytes);
        Self::decode_from_reader(&mut reader)
    }
}

} // verus!
