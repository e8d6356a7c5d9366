//! Reading the wire format: tags, scalar values and fields, front to back from
//! a [`Reader`].
//!
//! Every decoder states what it returns, and how far the reader has moved,
//! through a specification function over the bytes that were left to read.
//!
//! A field decoder looks at the next tag only. Where that tag belongs to another
//! field it answers `None`, and the tag stays read: a caller that goes on to ask
//! for another field first moves the reader back to where the tag began.

use std::collections::HashMap;
use vstd::prelude::*;
use vstd::slice::slice_to_vec;
use vstd::std_specs::hash::obeys_key_model;
use vstd::string::StringExecFns;
use vstd::utf8::{decode_utf8, valid_utf8};

use crate::{DecodeError, DecodeResult, ErrorKind, Protobuf, WireType};
use crate::reader::{
    fails_with, lemma_advanced_remaining, lemma_advanced_twice, moved_on, Parse, Reader, reads,
    viewed, viewed_option, yields,
};
use crate::trace::within;
use crate::varint::{
    from_le_bytes32, from_le_bytes64, lemma_from_le_bytes32, lemma_join_halves, lemma_narrowing,
    lemma_narrowing_signed, lemma_parse_varint_bounds, lemma_pow128_values, lemma_reinterpret32,
    lemma_tag_parts, lemma_unzigzag_bits, lemma_varint_step, low32, parse_varint, parse_varint_from,
    pow128, signed32, signed64, unsigned64, unzigzag, varint_payload,
};

verus! {

/// The header of a field: its number and the layout of the value that follows.
#[derive(Debug, Clone, Copy, PartialEq, Eq, Structural)]
pub struct Tag {
    pub field_number: u32,
    pub wire_type: WireType,
}

/// What a tag value stands for: the end marker, a tag, or a fault.
///
/// Zero is the end marker. Otherwise the low three bits are the wire-type code
/// and the rest is the field number, which must be nonzero and fit 32 bits.
pub open spec fn tag_of_value(value: u64) -> Result<Option<Tag>, ErrorKind> {
    if value == 0 {
        Ok(None)
    } else if value / 8 == 0 {
        Err(ErrorKind::InvalidTag)
    } else {
        match WireType::spec_from_code((value % 8) as u32) {
            None => Err(ErrorKind::InvalidWireType((value % 8) as u32)),
            Some(wire_type) => if value / 8 > u32::MAX {
                Err(ErrorKind::InvalidTag)
            } else {
                Ok(Some(Tag { field_number: (value / 8) as u32, wire_type }))
            },
        }
    }
}

/// What reading a tag from the front of `s` gives. Input that ends before the
/// tag is complete reads as the end marker.
pub open spec fn parse_tag(s: Seq<u8>) -> Parse<Option<Tag>> {
    let p = parse_varint(s);
    match p.result {
        Ok(value) => Parse { result: tag_of_value(value), consumed: p.consumed },
        Err(ErrorKind::UnexpectedEof) => Parse::ok(None, p.consumed),
        Err(kind) => Parse::fail(kind, p.consumed),
    }
}

/// A parse with its value passed through `f`.
pub open spec fn map_parse<A, B>(p: Parse<A>, f: spec_fn(A) -> B) -> Parse<B> {
    match p.result {
        Ok(value) => Parse::ok(f(value), p.consumed),
        Err(kind) => Parse::fail(kind, p.consumed),
    }
}

/// What reading a `uint32` gives: the low 32 bits of a varint.
pub open spec fn parse_uint32(s: Seq<u8>) -> Parse<u32> {
    map_parse(parse_varint(s), |v: u64| low32(v))
}

/// What reading an `int32` gives: the low 32 bits of a varint, read as signed.
pub open spec fn parse_int32(s: Seq<u8>) -> Parse<i32> {
    map_parse(parse_varint(s), |v: u64| signed32(low32(v)))
}

/// What reading an `int64` gives: a varint read as signed.
pub open spec fn parse_int64(s: Seq<u8>) -> Parse<i64> {
    map_parse(parse_varint(s), |v: u64| signed64(v))
}

/// What reading a `sint32` gives: the low 32 bits of the zigzag preimage of a varint.
pub open spec fn parse_sint32(s: Seq<u8>) -> Parse<i32> {
    map_parse(parse_varint(s), |v: u64| signed32(low32(unsigned64(unzigzag(v) as int))))
}

/// What reading a `sint64` gives: the zigzag preimage of a varint.
pub open spec fn parse_sint64(s: Seq<u8>) -> Parse<i64> {
    map_parse(parse_varint(s), |v: u64| unzigzag(v))
}

/// What reading a `bool` gives: whether a varint is nonzero.
pub open spec fn parse_bool(s: Seq<u8>) -> Parse<bool> {
    map_parse(parse_varint(s), |v: u64| v != 0)
}

/// What reading a length-prefixed run of bytes gives. A length beyond the
/// input is a failed read, with all of the input used up.
pub open spec fn parse_bytes(s: Seq<u8>) -> Parse<Seq<u8>> {
    let p = parse_varint(s);
    match p.result {
        Err(kind) => Parse::fail(kind, p.consumed),
        Ok(length) => if length > s.len() - p.consumed {
            Parse::fail(ErrorKind::Io, s.len())
        } else {
            Parse::ok(
                s.subrange(p.consumed as int, p.consumed + length),
                p.consumed + length as nat,
            )
        },
    }
}

/// What reading a string gives: the characters of a length-prefixed run of
/// bytes, which must be UTF-8.
pub open spec fn parse_string(s: Seq<u8>) -> Parse<Seq<char>> {
    let p = parse_bytes(s);
    match p.result {
        Err(kind) => Parse::fail(kind, p.consumed),
        Ok(bytes) => if valid_utf8(bytes) {
            Parse::ok(decode_utf8(bytes), p.consumed)
        } else {
            Parse::fail(ErrorKind::InvalidUtf8, p.consumed)
        },
    }
}

/// What reading a `fixed32` gives: four bytes, least significant first. Fewer
/// bytes are a failed read.
pub open spec fn parse_fixed32(s: Seq<u8>) -> Parse<u32> {
    if s.len() < 4 {
        Parse::fail(ErrorKind::Io, s.len())
    } else {
        Parse::ok(from_le_bytes32(s), 4)
    }
}

/// What reading a `fixed64` gives: eight bytes, least significant first. Fewer
/// bytes are a failed read.
pub open spec fn parse_fixed64(s: Seq<u8>) -> Parse<u64> {
    if s.len() < 8 {
        Parse::fail(ErrorKind::Io, s.len())
    } else {
        Parse::ok(from_le_bytes64(s), 8)
    }
}

/// What reading an `sfixed32` gives.
pub open spec fn parse_sfixed32(s: Seq<u8>) -> Parse<i32> {
    map_parse(parse_fixed32(s), |v: u32| signed32(v))
}

/// What reading an `sfixed64` gives.
pub open spec fn parse_sfixed64(s: Seq<u8>) -> Parse<i64> {
    map_parse(parse_fixed64(s), |v: u64| signed64(v))
}

/// What looking for field `field_number` with wire type `expected` at the front
/// of `s` gives: `true` where the next tag is that field's, `false` where the
/// input has ended or the next tag belongs to another field, and a fault where
/// the tag is that field's but its wire type is not `expected`. The tag is used
/// up in every case.
pub open spec fn parse_field_header(s: Seq<u8>, field_number: u32, expected: WireType) -> Parse<
    bool,
> {
    let t = parse_tag(s);
    match t.result {
        Err(kind) => Parse::fail(kind, t.consumed),
        Ok(None) => Parse::ok(false, t.consumed),
        Ok(Some(tag)) => if tag.field_number != field_number {
            Parse::ok(false, t.consumed)
        } else if tag.wire_type != expected {
            Parse::fail(
                ErrorKind::UnexpectedWireType { expected, got: tag.wire_type },
                t.consumed,
            )
        } else {
            Parse::ok(true, t.consumed)
        },
    }
}

/// A field put together from its header and the parse of the bytes after it:
/// absent where the header says so, else the value, or the first fault.
pub open spec fn field_of<T>(header: Parse<bool>, value: Parse<T>) -> Parse<Option<T>> {
    match header.result {
        Err(kind) => Parse::fail(kind, header.consumed),
        Ok(false) => Parse::ok(None, header.consumed),
        Ok(true) => match value.result {
            Ok(v) => Parse::ok(Some(v), header.consumed + value.consumed),
            Err(kind) => Parse::fail(kind, header.consumed + value.consumed),
        },
    }
}

/// The bytes of `s` that follow a field's header.
pub open spec fn after_header(s: Seq<u8>, field_number: u32, expected: WireType) -> Seq<u8> {
    s.skip(parse_field_header(s, field_number, expected).consumed as int)
}

/// What reading field `field_number` as a `uint32` gives.
pub open spec fn parse_uint32_field(s: Seq<u8>, field_number: u32) -> Parse<Option<u32>> {
    field_of(
        parse_field_header(s, field_number, WireType::Varint),
        parse_uint32(after_header(s, field_number, WireType::Varint)),
    )
}

/// What reading field `field_number` as an `int32` gives.
pub open spec fn parse_int32_field(s: Seq<u8>, field_number: u32) -> Parse<Option<i32>> {
    field_of(
        parse_field_header(s, field_number, WireType::Varint),
        parse_int32(after_header(s, field_number, WireType::Varint)),
    )
}

/// What reading field `field_number` as an `int64` gives.
pub open spec fn parse_int64_field(s: Seq<u8>, field_number: u32) -> Parse<Option<i64>> {
    field_of(
        parse_field_header(s, field_number, WireType::Varint),
        parse_int64(after_header(s, field_number, WireType::Varint)),
    )
}

/// What reading field `field_number` as a `uint64` gives.
pub open spec fn parse_uint64_field(s: Seq<u8>, field_number: u32) -> Parse<Option<u64>> {
    field_of(
        parse_field_header(s, field_number, WireType::Varint),
        parse_varint(after_header(s, field_number, WireType::Varint)),
    )
}

/// What reading field `field_number` as a `sint32` gives.
pub open spec fn parse_sint32_field(s: Seq<u8>, field_number: u32) -> Parse<Option<i32>> {
    field_of(
        parse_field_header(s, field_number, WireType::Varint),
        parse_sint32(after_header(s, field_number, WireType::Varint)),
    )
}

/// What reading field `field_number` as a `sint64` gives.
pub open spec fn parse_sint64_field(s: Seq<u8>, field_number: u32) -> Parse<Option<i64>> {
    field_of(
        parse_field_header(s, field_number, WireType::Varint),
        parse_sint64(after_header(s, field_number, WireType::Varint)),
    )
}

/// What reading field `field_number` as a `bool` gives.
pub open spec fn parse_bool_field(s: Seq<u8>, field_number: u32) -> Parse<Option<bool>> {
    field_of(
        parse_field_header(s, field_number, WireType::Varint),
        parse_bool(after_header(s, field_number, WireType::Varint)),
    )
}

/// What reading field `field_number` as a `string` gives.
pub open spec fn parse_string_field(s: Seq<u8>, field_number: u32) -> Parse<Option<Seq<char>>> {
    field_of(
        parse_field_header(s, field_number, WireType::LengthDelimited),
        parse_string(after_header(s, field_number, WireType::LengthDelimited)),
    )
}

/// What reading field `field_number` as a `bytes` gives.
pub open spec fn parse_bytes_field(s: Seq<u8>, field_number: u32) -> Parse<Option<Seq<u8>>> {
    field_of(
        parse_field_header(s, field_number, WireType::LengthDelimited),
        parse_bytes(after_header(s, field_number, WireType::LengthDelimited)),
    )
}

/// What reading field `field_number` as a `fixed32` gives.
pub open spec fn parse_fixed32_field(s: Seq<u8>, field_number: u32) -> Parse<Option<u32>> {
    field_of(
        parse_field_header(s, field_number, WireType::Fixed32),
        parse_fixed32(after_header(s, field_number, WireType::Fixed32)),
    )
}

/// What reading field `field_number` as a `fixed64` gives.
pub open spec fn parse_fixed64_field(s: Seq<u8>, field_number: u32) -> Parse<Option<u64>> {
    field_of(
        parse_field_header(s, field_number, WireType::Fixed64),
        parse_fixed64(after_header(s, field_number, WireType::Fixed64)),
    )
}

/// What reading field `field_number` as an `sfixed32` gives.
pub open spec fn parse_sfixed32_field(s: Seq<u8>, field_number: u32) -> Parse<Option<i32>> {
    field_of(
        parse_field_header(s, field_number, WireType::Fixed32),
        parse_sfixed32(after_header(s, field_number, WireType::Fixed32)),
    )
}

/// What reading field `field_number` as an `sfixed64` gives.
pub open spec fn parse_sfixed64_field(s: Seq<u8>, field_number: u32) -> Parse<Option<i64>> {
    field_of(
        parse_field_header(s, field_number, WireType::Fixed64),
        parse_sfixed64(after_header(s, field_number, WireType::Fixed64)),
    )
}

/// Reads one varint.
pub fn decode_varint(reader: &mut Reader) -> (r: DecodeResult<u64>)
    ensures
        reads(*old(reader), *final(reader), r, parse_varint(old(reader).remaining())),
{
    let ghost s = reader.remaining();
    let mut result: u64 = 0;
    let mut shift: u32 = 0;
    let ghost mut i: nat = 0;
    proof {
        lemma_pow128_values();
    }
    loop
        invariant
            i <= 9,
            shift == 7 * i,
            i == 0 ==> *reader == *old(reader),
            i > 0 ==> reader.advanced(*old(reader), i),
            reader.remaining() == s.skip(i as int),
            s == old(reader).remaining(),
            i <= s.len(),
            result == varint_payload(s, i),
            result < pow128(i),
            parse_varint(s) == parse_varint_from(s, i),
        decreases 10 - i,
    {
        let ghost before = *reader;
        let byte: u8 = match reader.read_byte() {
            Some(b) => b,
            None => {
                return Err(DecodeError::UnexpectedEof);
            },
        };
        proof {
            lemma_advanced_remaining(*reader, before, 1);
            assert(reader.remaining() =~= s.skip(i as int + 1));
            lemma_varint_step(
                s,
                i,
                result,
                byte,
                shift,
                result | (((byte & 0x7F) as u64) << shift),
            );
        }
        result |= ((byte & 0x7F) as u64) << shift;
        if byte & 0x80 == 0 {
            return Ok(result);
        }
        shift += 7;
        if shift > 63 {
            return Err(DecodeError::InvalidVarint);
        }
        proof {
            i = i + 1;
        }
    }
}

impl Tag {
    /// A tag of the given number and wire type.
    pub fn new(field_number: u32, wire_type: WireType) -> (tag: Self)
        ensures
            tag == (Tag { field_number, wire_type }),
    {
        Self { field_number, wire_type }
    }

    /// The tag that a tag value stands for: `None` for the end marker zero, and
    /// a fault for a field number of zero or beyond 32 bits and for a
    /// wire-type code that stands for no wire type.
    pub fn from_value(value: u64) -> (r: DecodeResult<Option<Tag>>)
        ensures
            yields(r, tag_of_value(value)),
    {
        if value == 0 {
            return Ok(None);
        }
        proof {
            lemma_tag_parts(value);
        }
        let field_number: u64 = value >> 3;
        if field_number == 0 {
            return Err(DecodeError::InvalidTag);
        }
        let code: u32 = (value & 0x7) as u32;
        let wire_type = match WireType::from_code(code) {
            Some(wire_type) => wire_type,
            None => {
                return Err(DecodeError::InvalidWireType(code));
            },
        };
        if field_number > 0xFFFF_FFFF {
            return Err(DecodeError::InvalidTag);
        }
        Ok(Some(Tag { field_number: field_number as u32, wire_type }))
    }

    /// Reads the tag of the next field, or `None` at the end marker or the end
    /// of the input.
    pub fn decode(reader: &mut Reader) -> (r: DecodeResult<Option<Tag>>)
        ensures
            reads(*old(reader), *final(reader), r, parse_tag(old(reader).remaining())),
    {
        match decode_varint(reader) {
            Ok(value) => Tag::from_value(value),
            Err(e) => match e {
                DecodeError::UnexpectedEof => Ok(None),
                _ => Err(e),
            },
        }
    }
}

/// Reads the tag of the next field, or `None` at the end marker or the end of
/// the input.
pub fn decode_tag(reader: &mut Reader) -> (r: DecodeResult<Option<Tag>>)
    ensures
        reads(*old(reader), *final(reader), r, parse_tag(old(reader).remaining())),
{
    Tag::decode(reader)
}

/// The signed integer that `value` is the zigzag image of.
pub fn decode_zigzag(value: u64) -> (n: i64)
    ensures
        n == unzigzag(value),
{
    proof {
        lemma_unzigzag_bits(value);
    }
    let half: i64 = (value >> 1) as i64;
    let sign: i64 = -((value & 1) as i64);
    half ^ sign
}

/// Reads a `uint32`: a varint cut to its low 32 bits.
pub fn decode_uint32(reader: &mut Reader) -> (r: DecodeResult<u32>)
    ensures
        reads(*old(reader), *final(reader), r, parse_uint32(old(reader).remaining())),
{
    match decode_varint(reader) {
        Ok(value) => {
            proof {
                lemma_narrowing(value);
            }
            Ok(#[verifier::truncate] (value as u32))
        },
        Err(e) => Err(e),
    }
}

/// Reads an `int32`: a varint cut to its low 32 bits and read as signed.
pub fn decode_int32(reader: &mut Reader) -> (r: DecodeResult<i32>)
    ensures
        reads(*old(reader), *final(reader), r, parse_int32(old(reader).remaining())),
{
    match decode_varint(reader) {
        Ok(value) => {
            proof {
                lemma_narrowing(value);
            }
            Ok(#[verifier::truncate] (value as i32))
        },
        Err(e) => Err(e),
    }
}

/// Reads an `int64`: a varint read as signed.
pub fn decode_int64(reader: &mut Reader) -> (r: DecodeResult<i64>)
    ensures
        reads(*old(reader), *final(reader), r, parse_int64(old(reader).remaining())),
{
    match decode_varint(reader) {
        Ok(value) => {
            proof {
                lemma_narrowing(value);
            }
            Ok(#[verifier::truncate] (value as i64))
        },
        Err(e) => Err(e),
    }
}

/// Reads a `uint64`: a varint.
pub fn decode_uint64(reader: &mut Reader) -> (r: DecodeResult<u64>)
    ensures
        reads(*old(reader), *final(reader), r, parse_varint(old(reader).remaining())),
{
    decode_varint(reader)
}

/// Reads a `sint32`: the zigzag preimage of a varint, cut to 32 bits.
pub fn decode_sint32(reader: &mut Reader) -> (r: DecodeResult<i32>)
    ensures
        reads(*old(reader), *final(reader), r, parse_sint32(old(reader).remaining())),
{
    match decode_varint(reader) {
        Ok(value) => {
            let wide: i64 = decode_zigzag(value);
            proof {
                lemma_narrowing_signed(wide);
                lemma_narrowing(unsigned64(wide as int));
            }
            Ok(#[verifier::truncate] (wide as i32))
        },
        Err(e) => Err(e),
    }
}

/// Reads a `sint64`: the zigzag preimage of a varint.
pub fn decode_sint64(reader: &mut Reader) -> (r: DecodeResult<i64>)
    ensures
        reads(*old(reader), *final(reader), r, parse_sint64(old(reader).remaining())),
{
    match decode_varint(reader) {
        Ok(value) => Ok(decode_zigzag(value)),
        Err(e) => Err(e),
    }
}

/// Reads a `bool`: any nonzero varint is `true`.
pub fn decode_bool(reader: &mut Reader) -> (r: DecodeResult<bool>)
    ensures
        reads(*old(reader), *final(reader), r, parse_bool(old(reader).remaining())),
{
    match decode_varint(reader) {
        Ok(value) => Ok(value != 0),
        Err(e) => Err(e),
    }
}

/// Declares to the verifier what `String::from_utf8` of the standard library
/// does: it succeeds exactly on valid UTF-8, and the string then holds the
/// characters those bytes encode.
#[verifier::external_body]
pub(crate) fn string_from_utf8(bytes: Vec<u8>) -> (r: Result<String, std::string::FromUtf8Error>)
    ensures
        r is Ok <==> valid_utf8(bytes@),
        r matches Ok(s) ==> s@ == decode_utf8(bytes@),
{
    String::from_utf8(bytes)
}

/// Reads a length-prefixed run of bytes.
pub fn decode_bytes(reader: &mut Reader) -> (r: DecodeResult<Vec<u8>>)
    ensures
        reads(*old(reader), *final(reader), viewed(r), parse_bytes(old(reader).remaining())),
{
    let ghost s = reader.remaining();
    let length: u64 = match decode_varint(reader) {
        Ok(length) => length,
        Err(e) => {
            return Err(e);
        },
    };
    let ghost mid = *reader;
    let ghost used = parse_varint(s).consumed;
    match reader.read_exact(length) {
        Ok(bytes) => {
            proof {
                lemma_advanced_twice(*reader, mid, *old(reader), used, length as nat);
                lemma_advanced_remaining(*reader, *old(reader), used + length as nat);
                assert(bytes@ =~= s.subrange(used as int, used + length));
            }
            Ok(slice_to_vec(bytes))
        },
        Err(e) => {
            proof {
                lemma_advanced_twice(
                    *reader,
                    mid,
                    *old(reader),
                    used,
                    mid.remaining().len(),
                );
                lemma_advanced_remaining(*reader, *old(reader), s.len());
            }
            Err(DecodeError::IoError(e))
        },
    }
}

/// Reads a length-prefixed UTF-8 string.
pub fn decode_string(reader: &mut Reader) -> (r: DecodeResult<String>)
    ensures
        reads(*old(reader), *final(reader), viewed(r), parse_string(old(reader).remaining())),
{
    match decode_bytes(reader) {
        Ok(bytes) => match string_from_utf8(bytes) {
            Ok(s) => Ok(s),
            Err(e) => Err(DecodeError::InvalidUtf8(e)),
        },
        Err(e) => Err(e),
    }
}

/// Reads a `fixed32`: four bytes, least significant first.
pub fn decode_fixed32(reader: &mut Reader) -> (r: DecodeResult<u32>)
    ensures
        reads(*old(reader), *final(reader), r, parse_fixed32(old(reader).remaining())),
{
    match reader.read_exact(4) {
        Ok(bytes) => {
            proof {
                lemma_advanced_remaining(*reader, *old(reader), 4);
                lemma_from_le_bytes32(bytes@[0], bytes@[1], bytes@[2], bytes@[3]);
            }
            Ok(
                (bytes[0] as u32) | ((bytes[1] as u32) << 8) | ((bytes[2] as u32) << 16) | ((
                bytes[3] as u32) << 24),
            )
        },
        Err(e) => {
            proof {
                lemma_advanced_remaining(*reader, *old(reader), old(reader).remaining().len());
            }
            Err(DecodeError::IoError(e))
        },
    }
}

/// Reads a `fixed64`: eight bytes, least significant first.
pub fn decode_fixed64(reader: &mut Reader) -> (r: DecodeResult<u64>)
    ensures
        reads(*old(reader), *final(reader), r, parse_fixed64(old(reader).remaining())),
{
    match reader.read_exact(8) {
        Ok(bytes) => {
            proof {
                lemma_advanced_remaining(*reader, *old(reader), 8);
                lemma_from_le_bytes32(bytes@[0], bytes@[1], bytes@[2], bytes@[3]);
                lemma_from_le_bytes32(bytes@[4], bytes@[5], bytes@[6], bytes@[7]);
            }
            let low: u32 = (bytes[0] as u32) | ((bytes[1] as u32) << 8) | ((bytes[2] as u32)
                << 16) | ((bytes[3] as u32) << 24);
            let high: u32 = (bytes[4] as u32) | ((bytes[5] as u32) << 8) | ((bytes[6] as u32)
                << 16) | ((bytes[7] as u32) << 24);
            proof {
                lemma_join_halves(low, high);
            }
            Ok((low as u64) | ((high as u64) << 32))
        },
        Err(e) => {
            proof {
                lemma_advanced_remaining(*reader, *old(reader), old(reader).remaining().len());
            }
            Err(DecodeError::IoError(e))
        },
    }
}

/// Reads an `sfixed32`.
pub fn decode_sfixed32(reader: &mut Reader) -> (r: DecodeResult<i32>)
    ensures
        reads(*old(reader), *final(reader), r, parse_sfixed32(old(reader).remaining())),
{
    match decode_fixed32(reader) {
        Ok(bits) => {
            proof {
                lemma_reinterpret32(bits);
            }
            Ok(#[verifier::truncate] (bits as i32))
        },
        Err(e) => Err(e),
    }
}

/// Reads an `sfixed64`.
pub fn decode_sfixed64(reader: &mut Reader) -> (r: DecodeResult<i64>)
    ensures
        reads(*old(reader), *final(reader), r, parse_sfixed64(old(reader).remaining())),
{
    match decode_fixed64(reader) {
        Ok(bits) => {
            proof {
                lemma_narrowing(bits);
            }
            Ok(#[verifier::truncate] (bits as i64))
        },
        Err(e) => Err(e),
    }
}

/// Reads the next tag and says whether it opens field `field_number` with wire
/// type `expected`.
fn expect_field(field_number: u32, expected: WireType, reader: &mut Reader) -> (r: DecodeResult<
    bool,
>)
    ensures
        reads(
            *old(reader),
            *final(reader),
            r,
            parse_field_header(old(reader).remaining(), field_number, expected),
        ),
{
    let tag = match Tag::decode(reader) {
        Ok(Some(tag)) => tag,
        Ok(None) => {
            return Ok(false);
        },
        Err(e) => {
            return Err(e);
        },
    };
    if tag.field_number != field_number {
        return Ok(false);
    }
    if tag.wire_type != expected {
        return Err(DecodeError::UnexpectedWireType { expected, got: tag.wire_type });
    }
    Ok(true)
}

/// A value read right after a field's header makes the field.
pub proof fn lemma_field_read<T>(
    before: Reader,
    mid: Reader,
    after: Reader,
    header: Parse<bool>,
    value: Parse<T>,
    r: DecodeResult<T>,
)
    requires
        header.result == Ok::<bool, ErrorKind>(true),
        mid.advanced(before, header.consumed),
        reads(mid, after, r, value),
    ensures
        reads(
            before,
            after,
            match r {
                Ok(v) => Ok(Some(v)),
                Err(e) => Err(e),
            },
            field_of(header, value),
        ),
{
    lemma_advanced_twice(after, mid, before, header.consumed, value.consumed);
    lemma_advanced_remaining(after, before, header.consumed + value.consumed);
}

/// Reads field `field_number` as a `uint32` if it comes next; `None` where the
/// input has ended or another field comes next.
pub fn decode_uint32_field(field_number: u32, reader: &mut Reader) -> (r: DecodeResult<Option<u32>>)
    ensures
        reads(
            *old(reader),
            *final(reader),
            r,
            parse_uint32_field(old(reader).remaining(), field_number),
        ),
{
    let ghost s = reader.remaining();
    match expect_field(field_number, WireType::Varint, reader) {
        Err(e) => Err(e),
        Ok(false) => Ok(None),
        Ok(true) => {
            let ghost mid = *reader;
            let value = decode_uint32(reader);
            proof {
                lemma_field_read(
                    *old(reader),
                    mid,
                    *reader,
                    parse_field_header(s, field_number, WireType::Varint),
                    parse_uint32(mid.remaining()),
                    value,
                );
            }
            match value {
                Ok(v) => Ok(Some(v)),
                Err(e) => Err(e),
            }
        },
    }
}

/// Reads field `field_number` as an `int32` if it comes next; `None` where the
/// input has ended or another field comes next.
pub fn decode_int32_field(field_number: u32, reader: &mut Reader) -> (r: DecodeResult<Option<i32>>)
    ensures
        reads(
            *old(reader),
            *final(reader),
            r,
            parse_int32_field(old(reader).remaining(), field_number),
        ),
{
    let ghost s = reader.remaining();
    match expect_field(field_number, WireType::Varint, reader) {
        Err(e) => Err(e),
        Ok(false) => Ok(None),
        Ok(true) => {
            let ghost mid = *reader;
            let value = decode_int32(reader);
            proof {
                lemma_field_read(
                    *old(reader),
                    mid,
                    *reader,
                    parse_field_header(s, field_number, WireType::Varint),
                    parse_int32(mid.remaining()),
                    value,
                );
            }
            match value {
                Ok(v) => Ok(Some(v)),
                Err(e) => Err(e),
            }
        },
    }
}

/// Reads field `field_number` as an `int64` if it comes next; `None` where the
/// input has ended or another field comes next.
pub fn decode_int64_field(field_number: u32, reader: &mut Reader) -> (r: DecodeResult<Option<i64>>)
    ensures
        reads(
            *old(reader),
            *final(reader),
            r,
            parse_int64_field(old(reader).remaining(), field_number),
        ),
{
    let ghost s = reader.remaining();
    match expect_field(field_number, WireType::Varint, reader) {
        Err(e) => Err(e),
        Ok(false) => Ok(None),
        Ok(true) => {
            let ghost mid = *reader;
            let value = decode_int64(reader);
            proof {
                lemma_field_read(
                    *old(reader),
                    mid,
                    *reader,
                    parse_field_header(s, field_number, WireType::Varint),
                    parse_int64(mid.remaining()),
                    value,
                );
            }
            match value {
                Ok(v) => Ok(Some(v)),
                Err(e) => Err(e),
            }
        },
    }
}

/// Reads field `field_number` as a `uint64` if it comes next; `None` where the
/// input has ended or another field comes next.
pub fn decode_uint64_field(field_number: u32, reader: &mut Reader) -> (r: DecodeResult<Option<u64>>)
    ensures
        reads(
            *old(reader),
            *final(reader),
            r,
            parse_uint64_field(old(reader).remaining(), field_number),
        ),
{
    let ghost s = reader.remaining();
    match expect_field(field_number, WireType::Varint, reader) {
        Err(e) => Err(e),
        Ok(false) => Ok(None),
        Ok(true) => {
            let ghost mid = *reader;
            let value = decode_uint64(reader);
            proof {
                lemma_field_read(
                    *old(reader),
                    mid,
                    *reader,
                    parse_field_header(s, field_number, WireType::Varint),
                    parse_varint(mid.remaining()),
                    value,
                );
            }
            match value {
                Ok(v) => Ok(Some(v)),
                Err(e) => Err(e),
            }
        },
    }
}

/// Reads field `field_number` as a `sint32` if it comes next; `None` where the
/// input has ended or another field comes next.
pub fn decode_sint32_field(field_number: u32, reader: &mut Reader) -> (r: DecodeResult<Option<i32>>)
    ensures
        reads(
            *old(reader),
            *final(reader),
            r,
            parse_sint32_field(old(reader).remaining(), field_number),
        ),
{
    let ghost s = reader.remaining();
    match expect_field(field_number, WireType::Varint, reader) {
        Err(e) => Err(e),
        Ok(false) => Ok(None),
        Ok(true) => {
            let ghost mid = *reader;
            let value = decode_sint32(reader);
            proof {
                lemma_field_read(
                    *old(reader),
                    mid,
                    *reader,
                    parse_field_header(s, field_number, WireType::Varint),
                    parse_sint32(mid.remaining()),
                    value,
                );
            }
            match value {
                Ok(v) => Ok(Some(v)),
                Err(e) => Err(e),
            }
        },
    }
}

/// Reads field `field_number` as a `sint64` if it comes next; `None` where the
/// input has ended or another field comes next.
pub fn decode_sint64_field(field_number: u32, reader: &mut Reader) -> (r: DecodeResult<Option<i64>>)
    ensures
        reads(
            *old(reader),
            *final(reader),
            r,
            parse_sint64_field(old(reader).remaining(), field_number),
        ),
{
    let ghost s = reader.remaining();
    match expect_field(field_number, WireType::Varint, reader) {
        Err(e) => Err(e),
        Ok(false) => Ok(None),
        Ok(true) => {
            let ghost mid = *reader;
            let value = decode_sint64(reader);
            proof {
                lemma_field_read(
                    *old(reader),
                    mid,
                    *reader,
                    parse_field_header(s, field_number, WireType::Varint),
                    parse_sint64(mid.remaining()),
                    value,
                );
            }
            match value {
                Ok(v) => Ok(Some(v)),
                Err(e) => Err(e),
            }
        },
    }
}

/// Reads field `field_number` as a `bool` if it comes next; `None` where the
/// input has ended or another field comes next.
pub fn decode_bool_field(field_number: u32, reader: &mut Reader) -> (r: DecodeResult<Option<bool>>)
    ensures
        reads(
            *old(reader),
            *final(reader),
            r,
            parse_bool_field(old(reader).remaining(), field_number),
        ),
{
    let ghost s = reader.remaining();
    match expect_field(field_number, WireType::Varint, reader) {
        Err(e) => Err(e),
        Ok(false) => Ok(None),
        Ok(true) => {
            let ghost mid = *reader;
            let value = decode_bool(reader);
            proof {
                lemma_field_read(
                    *old(reader),
                    mid,
                    *reader,
                    parse_field_header(s, field_number, WireType::Varint),
                    parse_bool(mid.remaining()),
                    value,
                );
            }
            match value {
                Ok(v) => Ok(Some(v)),
                Err(e) => Err(e),
            }
        },
    }
}

/// Reads field `field_number` as a `string` if it comes next; `None` where the
/// input has ended or another field comes next.
pub fn decode_string_field(field_number: u32, reader: &mut Reader) -> (r: DecodeResult<
    Option<String>,
>)
    ensures
        reads(
            *old(reader),
            *final(reader),
            viewed_option(r),
            parse_string_field(old(reader).remaining(), field_number),
        ),
{
    let ghost s = reader.remaining();
    match expect_field(field_number, WireType::LengthDelimited, reader) {
        Err(e) => Err(e),
        Ok(false) => Ok(None),
        Ok(true) => {
            let ghost mid = *reader;
            let value = decode_string(reader);
            proof {
                lemma_field_read(
                    *old(reader),
                    mid,
                    *reader,
                    parse_field_header(s, field_number, WireType::LengthDelimited),
                    parse_string(mid.remaining()),
                    viewed(value),
                );
            }
            match value {
                Ok(v) => Ok(Some(v)),
                Err(e) => Err(e),
            }
        },
    }
}

/// Reads field `field_number` as a `bytes` if it comes next; `None` where the
/// input has ended or another field comes next.
pub fn decode_bytes_field(field_number: u32, reader: &mut Reader) -> (r: DecodeResult<
    Option<Vec<u8>>,
>)
    ensures
        reads(
            *old(reader),
            *final(reader),
            viewed_option(r),
            parse_bytes_field(old(reader).remaining(), field_number),
        ),
{
    let ghost s = reader.remaining();
    match expect_field(field_number, WireType::LengthDelimited, reader) {
        Err(e) => Err(e),
        Ok(false) => Ok(None),
        Ok(true) => {
            let ghost mid = *reader;
            let value = decode_bytes(reader);
            proof {
                lemma_field_read(
                    *old(reader),
                    mid,
                    *reader,
                    parse_field_header(s, field_number, WireType::LengthDelimited),
                    parse_bytes(mid.remaining()),
                    viewed(value),
                );
            }
            match value {
                Ok(v) => Ok(Some(v)),
                Err(e) => Err(e),
            }
        },
    }
}

/// Reads field `field_number` as a `fixed32` if it comes next; `None` where the
/// input has ended or another field comes next.
pub fn decode_fixed32_field(field_number: u32, reader: &mut Reader) -> (r: DecodeResult<
    Option<u32>,
>)
    ensures
        reads(
            *old(reader),
            *final(reader),
            r,
            parse_fixed32_field(old(reader).remaining(), field_number),
        ),
{
    let ghost s = reader.remaining();
    match expect_field(field_number, WireType::Fixed32, reader) {
        Err(e) => Err(e),
        Ok(false) => Ok(None),
        Ok(true) => {
            let ghost mid = *reader;
            let value = decode_fixed32(reader);
            proof {
                lemma_field_read(
                    *old(reader),
                    mid,
                    *reader,
                    parse_field_header(s, field_number, WireType::Fixed32),
                    parse_fixed32(mid.remaining()),
                    value,
                );
            }
            match value {
                Ok(v) => Ok(Some(v)),
                Err(e) => Err(e),
            }
        },
    }
}

/// Reads field `field_number` as a `fixed64` if it comes next; `None` where the
/// input has ended or another field comes next.
pub fn decode_fixed64_field(field_number: u32, reader: &mut Reader) -> (r: DecodeResult<
    Option<u64>,
>)
    ensures
        reads(
            *old(reader),
            *final(reader),
            r,
            parse_fixed64_field(old(reader).remaining(), field_number),
        ),
{
    let ghost s = reader.remaining();
    match expect_field(field_number, WireType::Fixed64, reader) {
        Err(e) => Err(e),
        Ok(false) => Ok(None),
        Ok(true) => {
            let ghost mid = *reader;
            let value = decode_fixed64(reader);
            proof {
                lemma_field_read(
                    *old(reader),
                    mid,
                    *reader,
                    parse_field_header(s, field_number, WireType::Fixed64),
                    parse_fixed64(mid.remaining()),
                    value,
                );
            }
            match value {
                Ok(v) => Ok(Some(v)),
                Err(e) => Err(e),
            }
        },
    }
}

/// Reads field `field_number` as an `sfixed32` if it comes next; `None` where the
/// input has ended or another field comes next.
pub fn decode_sfixed32_field(field_number: u32, reader: &mut Reader) -> (r: DecodeResult<
    Option<i32>,
>)
    ensures
        reads(
            *old(reader),
            *final(reader),
            r,
            parse_sfixed32_field(old(reader).remaining(), field_number),
        ),
{
    let ghost s = reader.remaining();
    match expect_field(field_number, WireType::Fixed32, reader) {
        Err(e) => Err(e),
        Ok(false) => Ok(None),
        Ok(true) => {
            let ghost mid = *reader;
            let value = decode_sfixed32(reader);
            proof {
                lemma_field_read(
                    *old(reader),
                    mid,
                    *reader,
                    parse_field_header(s, field_number, WireType::Fixed32),
                    parse_sfixed32(mid.remaining()),
                    value,
                );
            }
            match value {
                Ok(v) => Ok(Some(v)),
                Err(e) => Err(e),
            }
        },
    }
}

/// Reads field `field_number` as an `sfixed64` if it comes next; `None` where the
/// input has ended or another field comes next.
pub fn decode_sfixed64_field(field_number: u32, reader: &mut Reader) -> (r: DecodeResult<
    Option<i64>,
>)
    ensures
        reads(
            *old(reader),
            *final(reader),
            r,
            parse_sfixed64_field(old(reader).remaining(), field_number),
        ),
{
    let ghost s = reader.remaining();
    match expect_field(field_number, WireType::Fixed64, reader) {
        Err(e) => Err(e),
        Ok(false) => Ok(None),
        Ok(true) => {
            let ghost mid = *reader;
            let value = decode_sfixed64(reader);
            proof {
                lemma_field_read(
                    *old(reader),
                    mid,
                    *reader,
                    parse_field_header(s, field_number, WireType::Fixed64),
                    parse_sfixed64(mid.remaining()),
                    value,
                );
            }
            match value {
                Ok(v) => Ok(Some(v)),
                Err(e) => Err(e),
            }
        },
    }
}

/// Reads an embedded message: a length-prefixed run of bytes, handed as a whole
/// to the message type's own decoder. The reader moves past the run whatever
/// the decoder makes of it.
pub fn decode_message<M: Protobuf>(reader: &mut Reader) -> (r: DecodeResult<M>)
    ensures
        moved_on(*old(reader), *final(reader), parse_bytes(old(reader).remaining()).consumed),
        match parse_bytes(old(reader).remaining()).result {
            Err(kind) => fails_with(r, kind),
            Ok(payload) => exists|bytes: &[u8]|
                bytes@ == payload && #[trigger] call_ensures(M::decode_from_slice, (bytes,), r),
        },
{
    match decode_bytes(reader) {
        Ok(buffer) => {
            let decode = M::decode_from_slice;
            decode(buffer.as_slice())
        },
        Err(e) => Err(e),
    }
}

/// Reads field `field_number` as an embedded message if it comes next; `None`
/// where the input has ended or another field comes next.
pub fn decode_message_field<M: Protobuf>(field_number: u32, reader: &mut Reader) -> (r:
    DecodeResult<Option<M>>)
    ensures
        ({
            let s = old(reader).remaining();
            let h = parse_field_header(s, field_number, WireType::LengthDelimited);
            let p = parse_bytes(after_header(s, field_number, WireType::LengthDelimited));
            match h.result {
                Err(kind) => moved_on(*old(reader), *final(reader), h.consumed) && fails_with(
                    r,
                    kind,
                ),
                Ok(false) => moved_on(*old(reader), *final(reader), h.consumed) && r is Ok
                    && r->Ok_0 is None,
                Ok(true) => moved_on(*old(reader), *final(reader), h.consumed + p.consumed)
                    && match p.result {
                    Err(kind) => fails_with(r, kind),
                    Ok(payload) => exists|bytes: &[u8], inner: DecodeResult<M>|
                        bytes@ == payload && #[trigger] call_ensures(
                            M::decode_from_slice,
                            (bytes,),
                            inner,
                        ) && match inner {
                            Ok(message) => r == Ok::<Option<M>, DecodeError>(Some(message)),
                            Err(e) => r == Err::<Option<M>, DecodeError>(e),
                        },
                },
            }
        }),
{
    match expect_field(field_number, WireType::LengthDelimited, reader) {
        Err(e) => Err(e),
        Ok(false) => Ok(None),
        Ok(true) => {
            let ghost mid = *reader;
            let inner = decode_message::<M>(reader);
            proof {
                let p = parse_bytes(mid.remaining());
                lemma_advanced_twice(
                    *reader,
                    mid,
                    *old(reader),
                    parse_field_header(
                        old(reader).remaining(),
                        field_number,
                        WireType::LengthDelimited,
                    ).consumed,
                    p.consumed,
                );
                lemma_advanced_remaining(
                    *reader,
                    *old(reader),
                    parse_field_header(
                        old(reader).remaining(),
                        field_number,
                        WireType::LengthDelimited,
                    ).consumed + p.consumed,
                );
            }
            match inner {
                Ok(message) => Ok(Some(message)),
                Err(e) => Err(e),
            }
        },
    }
}

/// The character of one decimal digit.
pub open spec fn digit_char(digit: nat) -> char
    recommends
        digit < 10,
{
    if digit == 0 {
        '0'
    } else if digit == 1 {
        '1'
    } else if digit == 2 {
        '2'
    } else if digit == 3 {
        '3'
    } else if digit == 4 {
        '4'
    } else if digit == 5 {
        '5'
    } else if digit == 6 {
        '6'
    } else if digit == 7 {
        '7'
    } else if digit == 8 {
        '8'
    } else {
        '9'
    }
}

/// The decimal digits of `number`, most significant first.
pub open spec fn decimal_digits(number: nat) -> Seq<char>
    decreases number,
{
    if number < 10 {
        seq![digit_char(number)]
    } else {
        decimal_digits(number / 10).push(digit_char(number % 10))
    }
}

/// A number in decimal notation, with a minus sign where it is negative.
pub open spec fn decimal(value: int) -> Seq<char> {
    if value < 0 {
        seq!['-'] + decimal_digits((-value) as nat)
    } else {
        decimal_digits(value as nat)
    }
}

/// The description of an enum number that stands for no variant.
pub open spec fn invalid_enum_text(number: i32) -> Seq<char> {
    "Invalid enum value: "@ + decimal(number as int)
}

/// `r` fails as malformed input with the description `text`.
pub open spec fn malformed<T>(r: DecodeResult<T>, text: Seq<char>) -> bool {
    r matches Err(DecodeError::MalformedInput(message)) && message@ == text
}

/// The text of one decimal digit.
fn digit_text(digit: u64) -> (text: &'static str)
    requires
        digit < 10,
    ensures
        text@ == seq![digit_char(digit as nat)],
{
    proof {
        reveal_strlit("0");
        reveal_strlit("1");
        reveal_strlit("2");
        reveal_strlit("3");
        reveal_strlit("4");
        reveal_strlit("5");
        reveal_strlit("6");
        reveal_strlit("7");
        reveal_strlit("8");
        reveal_strlit("9");
    }
    let text = if digit == 0 {
        "0"
    } else if digit == 1 {
        "1"
    } else if digit == 2 {
        "2"
    } else if digit == 3 {
        "3"
    } else if digit == 4 {
        "4"
    } else if digit == 5 {
        "5"
    } else if digit == 6 {
        "6"
    } else if digit == 7 {
        "7"
    } else if digit == 8 {
        "8"
    } else {
        "9"
    };
    text
}

/// Appends the decimal digits of `number` to `text`.
fn append_decimal(number: u64, text: &mut String)
    ensures
        final(text)@ == old(text)@ + decimal_digits(number as nat),
    decreases number,
{
    if number >= 10 {
        append_decimal(number / 10, text);
    }
    text.append(digit_text(number % 10));
}

/// The description of an enum number that stands for no variant.
fn invalid_enum_message(value: i32) -> (text: String)
    ensures
        text@ == invalid_enum_text(value),
{
    let mut text = String::from_str("Invalid enum value: ");
    let wide: i64 = value as i64;
    if wide < 0 {
        proof {
            reveal_strlit("-");
        }
        text.append("-");
        append_decimal((-wide) as u64, &mut text);
    } else {
        append_decimal(wide as u64, &mut text);
    }
    text
}

/// Reads an enum value: an `int32`, turned into a variant by `converter`. A
/// number that `converter` maps to no variant is malformed input.
pub fn decode_enum<E, F>(reader: &mut Reader, converter: F) -> (r: DecodeResult<E>)
    where F: Fn(i32) -> Option<E>
    requires
        forall|number: i32| call_requires(converter, (number,)),
    ensures
        moved_on(*old(reader), *final(reader), parse_int32(old(reader).remaining()).consumed),
        match parse_int32(old(reader).remaining()).result {
            Err(kind) => fails_with(r, kind),
            Ok(number) => exists|variant: Option<E>| #[trigger]
                call_ensures(converter, (number,), variant) && match variant {
                    Some(e) => r == Ok::<E, DecodeError>(e),
                    None => malformed(r, invalid_enum_text(number)),
                },
        },
{
    match decode_int32(reader) {
        Ok(number) => match converter(number) {
            Some(e) => Ok(e),
            None => Err(DecodeError::MalformedInput(invalid_enum_message(number))),
        },
        Err(e) => Err(e),
    }
}

/// Reads field `field_number` as an enum value if it comes next; `None` where
/// the input has ended or another field comes next.
pub fn decode_enum_field<E, F>(field_number: u32, reader: &mut Reader, converter: F) -> (r:
    DecodeResult<Option<E>>)
    where F: Fn(i32) -> Option<E>
    requires
        forall|number: i32| call_requires(converter, (number,)),
    ensures
        ({
            let s = old(reader).remaining();
            let h = parse_field_header(s, field_number, WireType::Varint);
            let p = parse_int32(after_header(s, field_number, WireType::Varint));
            match h.result {
                Err(kind) => moved_on(*old(reader), *final(reader), h.consumed) && fails_with(
                    r,
                    kind,
                ),
                Ok(false) => moved_on(*old(reader), *final(reader), h.consumed) && r is Ok
                    && r->Ok_0 is None,
                Ok(true) => moved_on(*old(reader), *final(reader), h.consumed + p.consumed)
                    && match p.result {
                    Err(kind) => fails_with(r, kind),
                    Ok(number) => exists|variant: Option<E>| #[trigger]
                        call_ensures(converter, (number,), variant) && match variant {
                            Some(e) => r == Ok::<Option<E>, DecodeError>(Some(e)),
                            None => malformed(r, invalid_enum_text(number)),
                        },
                },
            }
        }),
{
    match expect_field(field_number, WireType::Varint, reader) {
        Err(e) => Err(e),
        Ok(false) => Ok(None),
        Ok(true) => {
            let ghost mid = *reader;
            let inner = decode_enum(reader, converter);
            proof {
                let h = parse_field_header(old(reader).remaining(), field_number, WireType::Varint);
                let p = parse_int32(mid.remaining());
                lemma_advanced_twice(*reader, mid, *old(reader), h.consumed, p.consumed);
                lemma_advanced_remaining(*reader, *old(reader), h.consumed + p.consumed);
            }
            match inner {
                Ok(e) => Ok(Some(e)),
                Err(e) => Err(e),
            }
        },
    }
}

/// `steps` are the states a reader over `payload` goes through while `items`
/// are read from it one after the other, starting at the front.
pub open spec fn is_item_trace<T>(steps: Seq<Reader>, items: Seq<T>, payload: Seq<u8>) -> bool {
    &&& steps.len() == items.len() + 1
    &&& steps[0].source() == payload
    &&& steps[0].spec_position() == 0
}

/// How far a reader at `position` is from the end of a run of `length` bytes.
pub open spec fn still_to_read(length: nat, position: nat) -> nat {
    if position < length {
        (length - position) as nat
    } else {
        0
    }
}

/// Reads a packed field's payload: a length-prefixed run of bytes, from which
/// `item_decoder` reads one item after the other until the run is used up.
///
/// `item_decoder` must move its reader forward whenever it succeeds.
pub fn decode_packed<T, F>(reader: &mut Reader, item_decoder: F) -> (r: DecodeResult<Vec<T>>)
    where F: Fn(&mut Reader) -> DecodeResult<T>
    requires
        forall|rd: &mut Reader| call_requires(item_decoder, (rd,)),
        forall|rd: &mut Reader, out: DecodeResult<T>|
            call_ensures(item_decoder, (rd,), out) && out is Ok ==> final(rd).spec_position()
                > rd.spec_position(),
    ensures
        moved_on(*old(reader), *final(reader), parse_bytes(old(reader).remaining()).consumed),
        match parse_bytes(old(reader).remaining()).result {
            Err(kind) => fails_with(r, kind),
            Ok(payload) => exists|steps: Seq<Reader>, items: Seq<T>|
                {
                    &&& #[trigger] is_item_trace(steps, items, payload)
                    &&& forall|i: int| #[trigger]
                        within(i, items.len()) ==> steps[i].spec_position() < payload.len()
                            && exists|rd: &mut Reader|
                            *rd == steps[i] && *final(rd) == steps[i + 1]
                                && #[trigger] call_ensures(
                                item_decoder,
                                (rd,),
                                Ok::<T, DecodeError>(items[i]),
                            )
                    &&& match r {
                        Ok(list) => list@ == items && steps[items.len() as int].spec_position()
                            >= payload.len(),
                        Err(e) => steps[items.len() as int].spec_position() < payload.len()
                            && exists|rd: &mut Reader|
                            *rd == steps[items.len() as int] && #[trigger] call_ensures(
                                item_decoder,
                                (rd,),
                                Err::<T, DecodeError>(e),
                            ),
                    }
                },
        },
{
    let buffer = match decode_bytes(reader) {
        Ok(buffer) => buffer,
        Err(e) => {
            return Err(e);
        },
    };
    let length: usize = buffer.len();
    let mut result: Vec<T> = Vec::new();
    let mut cursor = Reader::new(buffer.as_slice());
    let ghost mut steps: Seq<Reader> = seq![cursor];
    while cursor.position() < length
        invariant
            length == buffer@.len(),
            forall|rd: &mut Reader| call_requires(item_decoder, (rd,)),
            forall|rd: &mut Reader, out: DecodeResult<T>|
                call_ensures(item_decoder, (rd,), out) && out is Ok ==> final(rd).spec_position()
                    > rd.spec_position(),
            moved_on(*old(reader), *reader, parse_bytes(old(reader).remaining()).consumed),
            parse_bytes(old(reader).remaining()).result == Ok::<Seq<u8>, ErrorKind>(buffer@),
            is_item_trace(steps, result@, buffer@),
            steps[result@.len() as int] == cursor,
            forall|i: int| #[trigger]
                within(i, result@.len()) ==> steps[i].spec_position() < buffer@.len()
                    && exists|rd: &mut Reader|
                    *rd == steps[i] && *final(rd) == steps[i + 1] && #[trigger] call_ensures(
                        item_decoder,
                        (rd,),
                        Ok::<T, DecodeError>(result@[i]),
                    ),
        decreases still_to_read(length as nat, cursor.spec_position()),
    {
        let ghost before = steps;
        let ghost items = result@;
        let out = item_decoder(&mut cursor);
        let item = match out {
            Ok(item) => item,
            Err(e) => {
                proof {
                    assert(is_item_trace(
                        steps,
                        items,
                        parse_bytes(old(reader).remaining()).result->Ok_0,
                    ));
                }
                return Err(e);
            },
        };
        result.push(item);
        proof {
            steps = before.push(cursor);
            assert forall|i: int| #[trigger] within(i, result@.len()) implies steps[
                i
            ].spec_position() < buffer@.len() && exists|rd: &mut Reader|
                *rd == steps[i] && *final(rd) == steps[i + 1] && #[trigger] call_ensures(
                    item_decoder,
                    (rd,),
                    Ok::<T, DecodeError>(result@[i]),
                ) by {
                if i < items.len() {
                    assert(within(i, items.len()));
                    assert(result@[i] == items[i]);
                } else {
                    assert(out == Ok::<T, DecodeError>(result@[i]));
                }
            }
        }
    }
    Ok(result)
}

/// Reads field `field_number` as a packed field if it comes next, its payload
/// by [`decode_packed`]; `None` where the input has ended or another field
/// comes next.
pub fn decode_packed_field<T, F>(field_number: u32, reader: &mut Reader, item_decoder: F) -> (r:
    DecodeResult<Option<Vec<T>>>)
    where F: Fn(&mut Reader) -> DecodeResult<T>
    requires
        forall|rd: &mut Reader| call_requires(item_decoder, (rd,)),
        forall|rd: &mut Reader, out: DecodeResult<T>|
            call_ensures(item_decoder, (rd,), out) && out is Ok ==> final(rd).spec_position()
                > rd.spec_position(),
    ensures
        ({
            let h = parse_field_header(
                old(reader).remaining(),
                field_number,
                WireType::LengthDelimited,
            );
            match h.result {
                Err(kind) => moved_on(*old(reader), *final(reader), h.consumed) && fails_with(
                    r,
                    kind,
                ),
                Ok(false) => moved_on(*old(reader), *final(reader), h.consumed) && r is Ok
                    && r->Ok_0 is None,
                Ok(true) => exists|rd: &mut Reader, inner: DecodeResult<Vec<T>>|
                    moved_on(*old(reader), *rd, h.consumed) && *final(rd) == *final(reader)
                        && #[trigger] call_ensures(
                        decode_packed::<T, F>,
                        (rd, item_decoder),
                        inner,
                    ) && match inner {
                        Ok(list) => r == Ok::<Option<Vec<T>>, DecodeError>(Some(list)),
                        Err(e) => r == Err::<Option<Vec<T>>, DecodeError>(e),
                    },
            }
        }),
{
    match expect_field(field_number, WireType::LengthDelimited, reader) {
        Err(e) => Err(e),
        Ok(false) => Ok(None),
        Ok(true) => {
            let read = decode_packed::<T, F>;
            match read(reader, item_decoder) {
                Ok(list) => Ok(Some(list)),
                Err(e) => Err(e),
            }
        },
    }
}

/// The map that inserting `pairs` one after the other gives: for a key that
/// comes more than once, the last value stays.
pub open spec fn inserted<K, V>(pairs: Seq<(K, V)>) -> Map<K, V>
    decreases pairs.len(),
{
    if pairs.len() == 0 {
        Map::empty()
    } else {
        inserted(pairs.drop_last()).insert(pairs.last().0, pairs.last().1)
    }
}

/// What looking for the next entry of a map field at the front of `s` gives:
/// the entry's payload, `None` where the field has ended, or a fault.
///
/// With a `filter`, a tag of another field number ends the field, and that tag
/// is given back: nothing is used up. Without one, every length-delimited field
/// counts as an entry.
pub open spec fn parse_map_frame(s: Seq<u8>, filter: Option<u32>) -> Parse<Option<Seq<u8>>> {
    let t = parse_tag(s);
    match t.result {
        Err(kind) => Parse::fail(kind, t.consumed),
        Ok(None) => Parse::ok(None, t.consumed),
        Ok(Some(tag)) => if filter is Some && tag.field_number != filter->Some_0 {
            Parse::ok(None, 0)
        } else if tag.wire_type != WireType::LengthDelimited {
            Parse::fail(
                ErrorKind::UnexpectedWireType {
                    expected: WireType::LengthDelimited,
                    got: tag.wire_type,
                },
                t.consumed,
            )
        } else {
            let b = parse_bytes(s.skip(t.consumed as int));
            match b.result {
                Err(kind) => Parse::fail(kind, t.consumed + b.consumed),
                Ok(payload) => Parse::ok(Some(payload), t.consumed + b.consumed),
            }
        },
    }
}

/// The number of bytes of `s` that looking for an entry `count` times in a row
/// uses up.
pub open spec fn frames_consumed(s: Seq<u8>, filter: Option<u32>, count: nat) -> nat
    decreases count,
{
    if count == 0 {
        0
    } else {
        let before = frames_consumed(s, filter, (count - 1) as nat);
        before + parse_map_frame(s.skip(before as int), filter).consumed
    }
}

/// What looking for an entry gives after `index` entries have been read.
pub open spec fn frame_at(s: Seq<u8>, filter: Option<u32>, index: nat) -> Parse<Option<Seq<u8>>> {
    let before = frames_consumed(s, filter, index);
    parse_map_frame(s.skip(before as int), filter)
}

/// Reads one map entry from `entry`: the key as field 1, by `key_decoder`, and
/// then the value as field 2, by `value_decoder`. An entry that does not start
/// with field 1, or does not go on with field 2, is malformed input. What
/// follows the value is not looked at.
pub fn decode_map_entry<K, V, KF, VF>(entry: &[u8], key_decoder: &KF, value_decoder: &VF) -> (r:
    DecodeResult<(K, V)>)
    where KF: Fn(&mut Reader) -> DecodeResult<K>, VF: Fn(&mut Reader) -> DecodeResult<V>
    requires
        forall|rd: &mut Reader| call_requires(*key_decoder, (rd,)),
        forall|rd: &mut Reader| call_requires(*value_decoder, (rd,)),
    ensures
        ({
            let t = parse_tag(entry@);
            match t.result {
                Err(kind) => fails_with(r, kind),
                Ok(None) => malformed(r, "Missing key in map entry"@),
                Ok(Some(tag)) => if tag.field_number != 1 {
                    malformed(r, "Expected field number 1 for key in map entry"@)
                } else {
                    exists|at_key: &mut Reader, key: DecodeResult<K>|
                        {
                            &&& at_key.source() == entry@
                            &&& at_key.spec_position() == t.consumed
                            &&& #[trigger] call_ensures(*key_decoder, (at_key,), key)
                            &&& match key {
                                Err(e) => r == Err::<(K, V), DecodeError>(e),
                                Ok(k) => {
                                    let u = parse_tag(final(at_key).remaining());
                                    match u.result {
                                        Err(kind) => fails_with(r, kind),
                                        Ok(None) => malformed(
                                            r,
                                            "Missing value in map entry"@,
                                        ),
                                        Ok(Some(second)) => if second.field_number != 2 {
                                            malformed(
                                                r,
                                                "Expected field number 2 for value in map entry"@,
                                            )
                                        } else {
                                            exists|at_value: &mut Reader, value: DecodeResult<V>|
                                                {
                                                    &&& moved_on(
                                                        *final(at_key),
                                                        *at_value,
                                                        u.consumed,
                                                    )
                                                    &&& #[trigger] call_ensures(
                                                        *value_decoder,
                                                        (at_value,),
                                                        value,
                                                    )
                                                    &&& match value {
                                                        Err(e) => r == Err::<(K, V), DecodeError>(
                                                            e,
                                                        ),
                                                        Ok(v) => r == Ok::<(K, V), DecodeError>(
                                                            (k, v),
                                                        ),
                                                    }
                                                }
                                        },
                                    }
                                },
                            }
                        }
                },
            }
        }),
{
    let mut cursor = Reader::new(entry);
    let key_tag = match Tag::decode(&mut cursor) {
        Ok(Some(tag)) => tag,
        Ok(None) => {
            return Err(DecodeError::MalformedInput(String::from_str("Missing key in map entry")));
        },
        Err(e) => {
            return Err(e);
        },
    };
    if key_tag.field_number != 1 {
        return Err(
            DecodeError::MalformedInput(
                String::from_str("Expected field number 1 for key in map entry"),
            ),
        );
    }
    let key = key_decoder(&mut cursor);
    let key = match key {
        Ok(key) => key,
        Err(e) => {
            return Err(e);
        },
    };
    let value_tag = match Tag::decode(&mut cursor) {
        Ok(Some(tag)) => tag,
        Ok(None) => {
            return Err(
                DecodeError::MalformedInput(String::from_str("Missing value in map entry")),
            );
        },
        Err(e) => {
            return Err(e);
        },
    };
    if value_tag.field_number != 2 {
        return Err(
            DecodeError::MalformedInput(
                String::from_str("Expected field number 2 for value in map entry"),
            ),
        );
    }
    let value = value_decoder(&mut cursor);
    match value {
        Ok(value) => Ok((key, value)),
        Err(e) => Err(e),
    }
}

/// A tag that was read took at least one byte, and no more than there were.
proof fn lemma_tag_consumed(s: Seq<u8>)
    ensures
        parse_tag(s).consumed <= s.len(),
        parse_tag(s).result matches Ok(Some(_)) ==> parse_tag(s).consumed >= 1,
{
    lemma_parse_varint_bounds(s, 0);
}

/// Reading a map field with `filter` has taken a reader from `before` to
/// `after` and given `r`.
///
/// Some entries `pairs` were read, each from the payload of the frame that
/// came next, by [`decode_map_entry`]. What came after the last of them ended
/// the reading: a fault in a frame, which is returned; the end of the field,
/// where the map of the entries is returned; or an entry that could not be
/// read, whose fault is returned. The reader has moved past all of that, less
/// the tag that [`parse_map_frame`] gives back.
pub open spec fn map_read<K, V, KF, VF>(
    filter: Option<u32>,
    before: Reader,
    after: Reader,
    key_decoder: KF,
    value_decoder: VF,
    r: DecodeResult<HashMap<K, V>>,
) -> bool
    where
        KF: Fn(&mut Reader) -> DecodeResult<K>,
        VF: Fn(&mut Reader) -> DecodeResult<V>,
{
    exists|pairs: Seq<(K, V)>|
        #![trigger pairs.len()]
        {
            let s = before.remaining();
            let last = frame_at(s, filter, pairs.len());
            &&& moved_on(before, after, frames_consumed(s, filter, pairs.len() + 1))
            &&& forall|i: int| #[trigger]
                within(i, pairs.len()) ==> (frame_at(s, filter, i as nat).result matches Ok(
                    Some(payload),
                ) && exists|bytes: &[u8]|
                    bytes@ == payload && #[trigger] call_ensures(
                        decode_map_entry::<K, V, KF, VF>,
                        (bytes, &key_decoder, &value_decoder),
                        Ok::<(K, V), DecodeError>(pairs[i]),
                    ))
            &&& match last.result {
                Err(kind) => fails_with(r, kind),
                Ok(None) => r is Ok && (obeys_key_model::<K>() ==> r->Ok_0@ == inserted(pairs)),
                Ok(Some(payload)) => exists|bytes: &[u8], e: DecodeError|
                    bytes@ == payload && #[trigger] call_ensures(
                        decode_map_entry::<K, V, KF, VF>,
                        (bytes, &key_decoder, &value_decoder),
                        Err::<(K, V), DecodeError>(e),
                    ) && r == Err::<HashMap<K, V>, DecodeError>(e),
            }
        }
}

/// Reads the entries of a map field one after the other into a map, up to the
/// end of the field. See [`parse_map_frame`] for where the field ends, and
/// [`decode_map_entry`] for how each entry is read.
///
/// Where the same key comes again, the later value replaces the earlier one.
/// Reading stops at the first fault, in a frame or in an entry, and that fault
/// is returned. With a `filter`, the tag of the field that ends the map field
/// is given back: the reader is moved to where that tag began.
pub fn decode_map_with<K, V, KF, VF>(
    filter: Option<u32>,
    reader: &mut Reader,
    key_decoder: KF,
    value_decoder: VF,
) -> (r: DecodeResult<HashMap<K, V>>)
    where
        K: Eq + std::hash::Hash,
        KF: Fn(&mut Reader) -> DecodeResult<K>,
        VF: Fn(&mut Reader) -> DecodeResult<V>,
    requires
        forall|rd: &mut Reader| call_requires(key_decoder, (rd,)),
        forall|rd: &mut Reader| call_requires(value_decoder, (rd,)),
    ensures
        map_read(filter, *old(reader), *final(reader), key_decoder, value_decoder, r),
{
    broadcast use vstd::std_specs::hash::group_hash_axioms;

    let mut map: HashMap<K, V> = HashMap::new();
    let ghost s = reader.remaining();
    let ghost mut pairs: Seq<(K, V)> = Seq::empty();
    let mut start_pos: usize = reader.position();
    proof {
        assert(s.skip(0) =~= s);
    }
    loop
        invariant
            forall|rd: &mut Reader| call_requires(key_decoder, (rd,)),
            forall|rd: &mut Reader| call_requires(value_decoder, (rd,)),
            start_pos == reader.spec_position(),
            start_pos <= reader.source().len(),
            s == old(reader).remaining(),
            moved_on(*old(reader), *reader, frames_consumed(s, filter, pairs.len())),
            obeys_key_model::<K>() ==> map@ == inserted(pairs),
            forall|i: int| #[trigger]
                within(i, pairs.len()) ==> (frame_at(s, filter, i as nat).result matches Ok(
                    Some(payload),
                ) && exists|bytes: &[u8]|
                    bytes@ == payload && #[trigger] call_ensures(
                        decode_map_entry::<K, V, KF, VF>,
                        (bytes, &key_decoder, &value_decoder),
                        Ok::<(K, V), DecodeError>(pairs[i]),
                    )),
        decreases reader.remaining().len(),
    {
        let ghost before = *reader;
        let ghost done = frames_consumed(s, filter, pairs.len());
        let ghost rest = reader.remaining();
        proof {
            lemma_tag_consumed(rest);
        }
        let tag = match Tag::decode(reader) {
            Ok(Some(tag)) => tag,
            Ok(None) => {
                proof {
                    lemma_advanced_twice(
                        *reader,
                        before,
                        *old(reader),
                        done,
                        parse_tag(rest).consumed,
                    );
                    lemma_advanced_remaining(
                        *reader,
                        *old(reader),
                        done + parse_tag(rest).consumed,
                    );
                }
                return Ok(map);
            },
            Err(e) => {
                proof {
                    lemma_advanced_twice(
                        *reader,
                        before,
                        *old(reader),
                        done,
                        parse_tag(rest).consumed,
                    );
                    lemma_advanced_remaining(
                        *reader,
                        *old(reader),
                        done + parse_tag(rest).consumed,
                    );
                }
                return Err(e);
            },
        };
        let ghost after_tag = *reader;
        let other_field = match filter {
            Some(field_number) => tag.field_number != field_number,
            None => false,
        };
        if other_field {
            reader.seek_to(start_pos);
            return Ok(map);
        }
        if tag.wire_type != WireType::LengthDelimited {
            proof {
                lemma_advanced_twice(*reader, before, *old(reader), done, parse_tag(rest).consumed);
                lemma_advanced_remaining(*reader, *old(reader), done + parse_tag(rest).consumed);
            }
            return Err(
                DecodeError::UnexpectedWireType {
                    expected: WireType::LengthDelimited,
                    got: tag.wire_type,
                },
            );
        }
        let buffer = decode_bytes(reader);
        proof {
            let used = parse_tag(rest).consumed + parse_bytes(after_tag.remaining()).consumed;
            lemma_advanced_twice(
                *reader,
                after_tag,
                before,
                parse_tag(rest).consumed,
                parse_bytes(after_tag.remaining()).consumed,
            );
            lemma_advanced_twice(*reader, before, *old(reader), done, used);
            lemma_advanced_remaining(*reader, *old(reader), done + used);
            lemma_advanced_remaining(*reader, before, used);
        }
        let buffer = match buffer {
            Ok(buffer) => buffer,
            Err(e) => {
                return Err(e);
            },
        };
        let read_entry = decode_map_entry::<K, V, KF, VF>;
        let entry = read_entry(buffer.as_slice(), &key_decoder, &value_decoder);
        let (key, value) = match entry {
            Ok(pair) => pair,
            Err(e) => {
                return Err(e);
            },
        };
        let ghost earlier = pairs;
        proof {
            pairs = earlier.push((key, value));
            assert(pairs.drop_last() =~= earlier);
            assert forall|i: int| #[trigger] within(i, pairs.len()) implies (frame_at(
                s,
                filter,
                i as nat,
            ).result matches Ok(Some(payload)) && exists|bytes: &[u8]|
                bytes@ == payload && #[trigger] call_ensures(
                    decode_map_entry::<K, V, KF, VF>,
                    (bytes, &key_decoder, &value_decoder),
                    Ok::<(K, V), DecodeError>(pairs[i]),
                )) by {
                if i < earlier.len() {
                    assert(within(i, earlier.len()));
                } else {
                    assert(pairs[i] == (key, value));
                }
            }
        }
        map.insert(key, value);
        start_pos = reader.position();
    }
}

/// Reads a message that is a map field and nothing else: every field up to the
/// end of the input is an entry. See [`decode_map_with`].
pub fn decode_map<K, V, KF, VF>(reader: &mut Reader, key_decoder: KF, value_decoder: VF) -> (r:
    DecodeResult<HashMap<K, V>>)
    where
        K: Eq + std::hash::Hash,
        KF: Fn(&mut Reader) -> DecodeResult<K>,
        VF: Fn(&mut Reader) -> DecodeResult<V>,
    requires
        forall|rd: &mut Reader| call_requires(key_decoder, (rd,)),
        forall|rd: &mut Reader| call_requires(value_decoder, (rd,)),
    ensures
        map_read(None, *old(reader), *final(reader), key_decoder, value_decoder, r),
{
    decode_map_with(None, reader, key_decoder, value_decoder)
}

/// Reads the entries of map field `field_number` that come next, and leaves
/// the reader in front of the first field that is not one of them. See
/// [`decode_map_with`].
pub fn decode_map_field<K, V, KF, VF>(
    field_number: u32,
    reader: &mut Reader,
    key_decoder: KF,
    value_decoder: VF,
) -> (r: DecodeResult<HashMap<K, V>>)
    where
        K: Eq + std::hash::Hash,
        KF: Fn(&mut Reader) -> DecodeResult<K>,
        VF: Fn(&mut Reader) -> DecodeResult<V>,
    requires
        forall|rd: &mut Reader| call_requires(key_decoder, (rd,)),
        forall|rd: &mut Reader| call_requires(value_decoder, (rd,)),
    ensures
        map_read(Some(field_number), *old(reader), *final(reader), key_decoder, value_decoder, r),
{
    decode_map_with(Some(field_number), reader, key_decoder, value_decoder)
}

} // verus!
