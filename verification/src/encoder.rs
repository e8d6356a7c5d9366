//! Writing the wire format: tags, scalar fields and length-delimited fields,
//! each appended to a byte buffer.
//!
//! A field that holds the zero value of its type is never written.

use vstd::prelude::*;
use vstd::utf8::encode_utf8;

use crate::{Protobuf, WireType};
use crate::trace::{is_trace, within};
use crate::varint::{
    le_bytes32, le_bytes64, lemma_le_bytes32, lemma_le_bytes64, lemma_make_tag, lemma_sign_extend,
    lemma_varint_group, lemma_zigzag_bits, unsigned32, unsigned64, varint_bytes, varint_size,
    zigzag,
};

verus! {

/// The tag of a field: its number shifted left by three, over the wire-type
/// code, within 32 bits.
pub open spec fn spec_make_tag(field_number: u32, wire_type: WireType) -> u32 {
    ((field_number * 8) % 0x1_0000_0000 + wire_type.spec_code()) as u32
}

/// The bytes of a field's tag.
pub open spec fn tag_bytes(field_number: u32, wire_type: WireType) -> Seq<u8> {
    varint_bytes(spec_make_tag(field_number, wire_type) as nat)
}

/// A varint-typed field holding `value`, or nothing where `value` is zero.
pub open spec fn varint_field(field_number: u32, value: u64) -> Seq<u8> {
    if value == 0 {
        Seq::empty()
    } else {
        tag_bytes(field_number, WireType::Varint) + varint_bytes(value as nat)
    }
}

/// The encoding of a `uint32` field.
pub open spec fn uint32_field(field_number: u32, value: u32) -> Seq<u8> {
    varint_field(field_number, value as u64)
}

/// The encoding of an `int32` field: the value sign-extended to 64 bits.
pub open spec fn int32_field(field_number: u32, value: i32) -> Seq<u8> {
    varint_field(field_number, unsigned64(value as int))
}

/// The encoding of an `int64` field: the value's two's-complement pattern.
pub open spec fn int64_field(field_number: u32, value: i64) -> Seq<u8> {
    varint_field(field_number, unsigned64(value as int))
}

/// The encoding of a `uint64` field.
pub open spec fn uint64_field(field_number: u32, value: u64) -> Seq<u8> {
    varint_field(field_number, value)
}

/// The encoding of a `sint32` field: the zigzag image of the value.
pub open spec fn sint32_field(field_number: u32, value: i32) -> Seq<u8> {
    varint_field(field_number, zigzag(value as i64))
}

/// The encoding of a `sint64` field: the zigzag image of the value.
pub open spec fn sint64_field(field_number: u32, value: i64) -> Seq<u8> {
    varint_field(field_number, zigzag(value))
}

/// The encoding of a `bool` field: `true` is the single byte 1.
pub open spec fn bool_field(field_number: u32, value: bool) -> Seq<u8> {
    varint_field(
        field_number,
        if value {
            1
        } else {
            0
        },
    )
}

/// A length-delimited field around `payload`, whatever its length.
pub open spec fn length_delimited(field_number: u32, payload: Seq<u8>) -> Seq<u8> {
    tag_bytes(field_number, WireType::LengthDelimited) + varint_bytes(payload.len()) + payload
}

/// The encoding of a `bytes` field, or nothing where it is empty.
pub open spec fn bytes_field(field_number: u32, value: Seq<u8>) -> Seq<u8> {
    if value.len() == 0 {
        Seq::empty()
    } else {
        length_delimited(field_number, value)
    }
}

/// The encoding of a `string` field: its UTF-8 bytes as a `bytes` field.
pub open spec fn string_field(field_number: u32, value: Seq<char>) -> Seq<u8> {
    bytes_field(field_number, encode_utf8(value))
}

/// The encoding of a `fixed32` field, or nothing where `value` is zero.
pub open spec fn fixed32_field(field_number: u32, value: u32) -> Seq<u8> {
    if value == 0 {
        Seq::empty()
    } else {
        tag_bytes(field_number, WireType::Fixed32) + le_bytes32(value)
    }
}

/// The encoding of a `fixed64` field, or nothing where `value` is zero.
pub open spec fn fixed64_field(field_number: u32, value: u64) -> Seq<u8> {
    if value == 0 {
        Seq::empty()
    } else {
        tag_bytes(field_number, WireType::Fixed64) + le_bytes64(value)
    }
}

/// The encoding of an `sfixed32` field.
pub open spec fn sfixed32_field(field_number: u32, value: i32) -> Seq<u8> {
    fixed32_field(field_number, unsigned32(value))
}

/// The encoding of an `sfixed64` field.
pub open spec fn sfixed64_field(field_number: u32, value: i64) -> Seq<u8> {
    fixed64_field(field_number, unsigned64(value as int))
}

/// The encoding of a `float` field whose value has the IEEE 754 pattern
/// `bits`, or nothing where that value is a zero of either sign.
pub open spec fn float_field(field_number: u32, bits: u32) -> Seq<u8> {
    if bits == 0 || bits == 0x8000_0000 {
        Seq::empty()
    } else {
        tag_bytes(field_number, WireType::Fixed32) + le_bytes32(bits)
    }
}

/// The encoding of a `double` field whose value has the IEEE 754 pattern
/// `bits`, or nothing where that value is a zero of either sign.
pub open spec fn double_field(field_number: u32, bits: u64) -> Seq<u8> {
    if bits == 0 || bits == 0x8000_0000_0000_0000 {
        Seq::empty()
    } else {
        tag_bytes(field_number, WireType::Fixed64) + le_bytes64(bits)
    }
}

/// Packs a field number and a wire type into one tag value.
pub fn make_tag(field_number: u32, wire_type: WireType) -> (tag: u32)
    ensures
        tag == spec_make_tag(field_number, wire_type),
{
    let code: u32 = wire_type.code();
    proof {
        lemma_make_tag(field_number, code);
    }
    (field_number << 3) | code
}

/// Appends the bytes of `bytes` to `writer`.
pub(crate) fn write_all(writer: &mut Vec<u8>, bytes: &[u8])
    ensures
        final(writer)@ == old(writer)@ + bytes@,
{
    writer.extend_from_slice(bytes);
}

/// Appends the varint encoding of `value`.
pub fn encode_varint(value: u64, writer: &mut Vec<u8>)
    ensures
        final(writer)@ == old(writer)@ + varint_bytes(value as nat),
{
    let mut rest: u64 = value;
    while rest >= 0x80
        invariant
            old(writer)@ + varint_bytes(value as nat) == writer@ + varint_bytes(rest as nat),
        decreases rest,
    {
        proof {
            lemma_varint_group(rest);
        }
        writer.push((#[verifier::truncate] (rest as u8)) | 0x80);
        rest >>= 7;
    }
    proof {
        lemma_varint_group(rest);
    }
    writer.push(#[verifier::truncate] (rest as u8));
}

/// The zigzag image of `value`.
pub fn zigzag_encode(value: i64) -> (image: u64)
    ensures
        image == zigzag(value),
{
    proof {
        lemma_zigzag_bits(value);
    }
    #[verifier::truncate] (((value << 1) ^ (value >> 63)) as u64)
}

/// Appends the varint encoding of the zigzag image of `value`.
pub fn encode_zigzag(value: i64, writer: &mut Vec<u8>)
    ensures
        final(writer)@ == old(writer)@ + varint_bytes(zigzag(value) as nat),
{
    encode_varint(zigzag_encode(value), writer)
}

/// Appends the tag of a field.
pub fn encode_tag(field_number: u32, wire_type: WireType, writer: &mut Vec<u8>)
    ensures
        final(writer)@ == old(writer)@ + tag_bytes(field_number, wire_type),
{
    encode_varint(make_tag(field_number, wire_type) as u64, writer)
}

/// Appends a varint-typed field holding `value`, or nothing where it is zero.
fn encode_varint_field(field_number: u32, value: u64, writer: &mut Vec<u8>)
    ensures
        final(writer)@ == old(writer)@ + varint_field(field_number, value),
{
    if value == 0 {
        return ;
    }
    encode_tag(field_number, WireType::Varint, writer);
    encode_varint(value, writer);
}

/// Appends a `uint32` field.
pub fn encode_uint32(field_number: u32, value: u32, writer: &mut Vec<u8>)
    ensures
        final(writer)@ == old(writer)@ + uint32_field(field_number, value),
{
    encode_varint_field(field_number, value as u64, writer)
}

/// Appends an `int32` field; a negative value takes ten bytes.
pub fn encode_int32(field_number: u32, value: i32, writer: &mut Vec<u8>)
    ensures
        final(writer)@ == old(writer)@ + int32_field(field_number, value),
{
    proof {
        lemma_sign_extend(value, 0);
    }
    encode_varint_field(field_number, #[verifier::truncate] (value as u64), writer)
}

/// Appends an `int64` field; a negative value takes ten bytes.
pub fn encode_int64(field_number: u32, value: i64, writer: &mut Vec<u8>)
    ensures
        final(writer)@ == old(writer)@ + int64_field(field_number, value),
{
    proof {
        lemma_sign_extend(0, value);
    }
    encode_varint_field(field_number, #[verifier::truncate] (value as u64), writer)
}

/// Appends a `uint64` field.
pub fn encode_uint64(field_number: u32, value: u64, writer: &mut Vec<u8>)
    ensures
        final(writer)@ == old(writer)@ + uint64_field(field_number, value),
{
    encode_varint_field(field_number, value, writer)
}

/// Appends a `sint32` field.
pub fn encode_sint32(field_number: u32, value: i32, writer: &mut Vec<u8>)
    ensures
        final(writer)@ == old(writer)@ + sint32_field(field_number, value),
{
    encode_varint_field(field_number, zigzag_encode(value as i64), writer)
}

/// Appends a `sint64` field.
pub fn encode_sint64(field_number: u32, value: i64, writer: &mut Vec<u8>)
    ensures
        final(writer)@ == old(writer)@ + sint64_field(field_number, value),
{
    encode_varint_field(field_number, zigzag_encode(value), writer)
}

/// Appends a `bool` field; `false` writes nothing.
pub fn encode_bool(field_number: u32, value: bool, writer: &mut Vec<u8>)
    ensures
        final(writer)@ == old(writer)@ + bool_field(field_number, value),
{
    encode_varint_field(
        field_number,
        if value {
            1
        } else {
            0
        },
        writer,
    )
}

/// Appends a length-delimited field around `payload`, empty or not.
pub fn encode_length_delimited(field_number: u32, payload: &[u8], writer: &mut Vec<u8>)
    ensures
        final(writer)@ == old(writer)@ + length_delimited(field_number, payload@),
{
    encode_tag(field_number, WireType::LengthDelimited, writer);
    encode_varint(payload.len() as u64, writer);
    write_all(writer, payload);
}

/// Appends a `bytes` field; an empty value writes nothing.
pub fn encode_bytes(field_number: u32, value: &[u8], writer: &mut Vec<u8>)
    ensures
        final(writer)@ == old(writer)@ + bytes_field(field_number, value@),
{
    if value.len() == 0 {
        return ;
    }
    encode_length_delimited(field_number, value, writer)
}

/// Appends a `string` field; an empty string writes nothing.
pub fn encode_string(field_number: u32, value: &str, writer: &mut Vec<u8>)
    ensures
        final(writer)@ == old(writer)@ + string_field(field_number, value@),
{
    encode_bytes(field_number, value.as_bytes(), writer)
}

/// Appends the four bytes of `value`, least significant first.
fn write_le32(value: u32, writer: &mut Vec<u8>)
    ensures
        final(writer)@ == old(writer)@ + le_bytes32(value),
{
    proof {
        lemma_le_bytes32(value);
    }
    writer.push((value & 0xff) as u8);
    writer.push(((value >> 8) & 0xff) as u8);
    writer.push(((value >> 16) & 0xff) as u8);
    writer.push(((value >> 24) & 0xff) as u8);
}

/// Appends the eight bytes of `value`, least significant first.
fn write_le64(value: u64, writer: &mut Vec<u8>)
    ensures
        final(writer)@ == old(writer)@ + le_bytes64(value),
{
    proof {
        lemma_le_bytes64(value);
    }
    writer.push((value & 0xff) as u8);
    writer.push(((value >> 8) & 0xff) as u8);
    writer.push(((value >> 16) & 0xff) as u8);
    writer.push(((value >> 24) & 0xff) as u8);
    writer.push(((value >> 32) & 0xff) as u8);
    writer.push(((value >> 40) & 0xff) as u8);
    writer.push(((value >> 48) & 0xff) as u8);
    writer.push(((value >> 56) & 0xff) as u8);
}

/// Appends a `fixed32` field; zero writes nothing.
pub fn encode_fixed32(field_number: u32, value: u32, writer: &mut Vec<u8>)
    ensures
        final(writer)@ == old(writer)@ + fixed32_field(field_number, value),
{
    if value == 0 {
        return ;
    }
    encode_tag(field_number, WireType::Fixed32, writer);
    write_le32(value, writer);
}

/// Appends a `fixed64` field; zero writes nothing.
pub fn encode_fixed64(field_number: u32, value: u64, writer: &mut Vec<u8>)
    ensures
        final(writer)@ == old(writer)@ + fixed64_field(field_number, value),
{
    if value == 0 {
        return ;
    }
    encode_tag(field_number, WireType::Fixed64, writer);
    write_le64(value, writer);
}

/// Appends an `sfixed32` field; zero writes nothing.
pub fn encode_sfixed32(field_number: u32, value: i32, writer: &mut Vec<u8>)
    ensures
        final(writer)@ == old(writer)@ + sfixed32_field(field_number, value),
{
    proof {
        lemma_sign_extend(value, 0);
    }
    encode_fixed32(field_number, #[verifier::truncate] (value as u32), writer)
}

/// Appends an `sfixed64` field; zero writes nothing.
pub fn encode_sfixed64(field_number: u32, value: i64, writer: &mut Vec<u8>)
    ensures
        final(writer)@ == old(writer)@ + sfixed64_field(field_number, value),
{
    proof {
        lemma_sign_extend(0, value);
    }
    encode_fixed64(field_number, #[verifier::truncate] (value as u64), writer)
}

/// Appends a `float` field, given by the IEEE 754 pattern of its value; a zero
/// of either sign writes nothing.
pub fn encode_float_bits(field_number: u32, bits: u32, writer: &mut Vec<u8>)
    ensures
        final(writer)@ == old(writer)@ + float_field(field_number, bits),
{
    if bits == 0 || bits == 0x8000_0000 {
        return ;
    }
    encode_fixed32(field_number, bits, writer)
}

/// Appends a `double` field, given by the IEEE 754 pattern of its value; a
/// zero of either sign writes nothing.
pub fn encode_double_bits(field_number: u32, bits: u64, writer: &mut Vec<u8>)
    ensures
        final(writer)@ == old(writer)@ + double_field(field_number, bits),
{
    if bits == 0 || bits == 0x8000_0000_0000_0000 {
        return ;
    }
    encode_fixed64(field_number, bits, writer)
}

/// The number of bytes in the varint encoding of `value`.
pub fn size_of_varint(value: u64) -> (size: usize)
    ensures
        size == varint_size(value as nat),
        size == varint_bytes(value as nat).len(),
        1 <= size <= 10,
{
    proof {
        crate::varint::lemma_varint_len(value as nat);
        reveal_with_fuel(varint_size, 11);
    }
    match value {
        0..=127 => 1,
        128..=16383 => 2,
        16384..=2097151 => 3,
        2097152..=268435455 => 4,
        268435456..=34359738367 => 5,
        34359738368..=4398046511103 => 6,
        4398046511104..=562949953421311 => 7,
        562949953421312..=72057594037927935 => 8,
        72057594037927936..=9223372036854775807 => 9,
        _ => 10,
    }
}

/// Appends each of `values` in turn as field `field_number`, by `encoder`.
///
/// The buffer goes through one state per value: `encoder` takes it from each
/// state to the next.
pub fn encode_repeated<T, F>(field_number: u32, values: &[T], writer: &mut Vec<u8>, encoder: F)
    where F: Fn(u32, &T, &mut Vec<u8>)
    requires
        forall|i: int, w: &mut Vec<u8>|
            0 <= i < values@.len() ==> call_requires(encoder, (field_number, &values@[i], w)),
    ensures
        exists|steps: Seq<Seq<u8>>|
            {
                &&& #[trigger] is_trace(steps, old(writer)@, final(writer)@, values@.len())
                &&& forall|i: int| #[trigger]
                    within(i, values@.len()) ==> exists|w: &mut Vec<u8>|
                        w@ == steps[i] && final(w)@ == steps[i + 1] && #[trigger] call_ensures(
                            encoder,
                            (field_number, &values@[i], w),
                            (),
                        )
            },
{
    let ghost mut steps: Seq<Seq<u8>> = seq![writer@];
    let mut index: usize = 0;
    while index < values.len()
        invariant
            index <= values@.len(),
            forall|i: int, w: &mut Vec<u8>|
                0 <= i < values@.len() ==> call_requires(encoder, (field_number, &values@[i], w)),
            is_trace(steps, old(writer)@, writer@, index as nat),
            forall|i: int| #[trigger]
                within(i, index as nat) ==> exists|w: &mut Vec<u8>|
                    w@ == steps[i] && final(w)@ == steps[i + 1] && #[trigger] call_ensures(
                        encoder,
                        (field_number, &values@[i], w),
                        (),
                    ),
        decreases values@.len() - index,
    {
        let ghost before = steps;
        encoder(field_number, &values[index], writer);
        proof {
            steps = before.push(writer@);
            assert forall|i: int| #[trigger] within(i, (index + 1) as nat) implies exists|
                w: &mut Vec<u8>,
            |
                w@ == steps[i] && final(w)@ == steps[i + 1] && #[trigger] call_ensures(
                    encoder,
                    (field_number, &values@[i], w),
                    (),
                ) by {
                if i < index {
                    assert(within(i, index as nat));
                }
            }
        }
        index += 1;
    }
}

/// Appends an enum field: the number `value` converts to, as an `int32` field.
pub fn encode_enum<E: Into<i32>>(field_number: u32, value: E, writer: &mut Vec<u8>)
    ensures
        exists|number: i32| #[trigger]
            call_ensures(E::into, (value,), number) && final(writer)@ == old(writer)@
                + int32_field(field_number, number),
{
    let convert = E::into;
    let number: i32 = convert(value);
    encode_int32(field_number, number, writer)
}

/// Appends `values` as one packed field: a single length-delimited field whose
/// payload is what `value_writer_fn` writes for each value in turn. Nothing is
/// written where there are no values.
pub fn encode_packed<T, F>(
    field_number: u32,
    values: &[T],
    writer: &mut Vec<u8>,
    value_writer_fn: F,
)
    where F: Fn(&T, &mut Vec<u8>)
    requires
        forall|i: int, w: &mut Vec<u8>|
            0 <= i < values@.len() ==> call_requires(value_writer_fn, (&values@[i], w)),
    ensures
        values@.len() == 0 ==> final(writer)@ == old(writer)@,
        values@.len() > 0 ==> exists|steps: Seq<Seq<u8>>|
            {
                &&& #[trigger] is_trace(
                    steps,
                    Seq::empty(),
                    steps[values@.len() as int],
                    values@.len(),
                )
                &&& forall|i: int| #[trigger]
                    within(i, values@.len()) ==> exists|w: &mut Vec<u8>|
                        w@ == steps[i] && final(w)@ == steps[i + 1] && #[trigger] call_ensures(
                            value_writer_fn,
                            (&values@[i], w),
                            (),
                        )
                &&& final(writer)@ == old(writer)@ + length_delimited(
                    field_number,
                    steps[values@.len() as int],
                )
            },
{
    if values.len() == 0 {
        return ;
    }
    let mut buffer: Vec<u8> = Vec::new();
    let ghost mut steps: Seq<Seq<u8>> = seq![buffer@];
    let mut index: usize = 0;
    while index < values.len()
        invariant
            index <= values@.len(),
            forall|i: int, w: &mut Vec<u8>|
                0 <= i < values@.len() ==> call_requires(value_writer_fn, (&values@[i], w)),
            is_trace(steps, Seq::empty(), buffer@, index as nat),
            forall|i: int| #[trigger]
                within(i, index as nat) ==> exists|w: &mut Vec<u8>|
                    w@ == steps[i] && final(w)@ == steps[i + 1] && #[trigger] call_ensures(
                        value_writer_fn,
                        (&values@[i], w),
                        (),
                    ),
        decreases values@.len() - index,
    {
        let ghost before = steps;
        value_writer_fn(&values[index], &mut buffer);
        proof {
            steps = before.push(buffer@);
            assert forall|i: int| #[trigger] within(i, (index + 1) as nat) implies exists|
                w: &mut Vec<u8>,
            |
                w@ == steps[i] && final(w)@ == steps[i + 1] && #[trigger] call_ensures(
                    value_writer_fn,
                    (&values@[i], w),
                    (),
                ) by {
                if i < index {
                    assert(within(i, index as nat));
                }
            }
        }
        index += 1;
    }
    encode_length_delimited(field_number, buffer.as_slice(), writer);
}

/// Appends an embedded message: a length-delimited field around the bytes the
/// message encodes itself to. An empty message is written too.
pub fn encode_message<M: Protobuf>(field_number: u32, message: &M, writer: &mut Vec<u8>)
    ensures
        exists|encoded: Vec<u8>| #[trigger]
            call_ensures(M::encode_to_vec, (message,), encoded) && final(writer)@ == old(
                writer,
            )@ + length_delimited(field_number, encoded@),
{
    let encode = M::encode_to_vec;
    let encoded = encode(message);
    encode_length_delimited(field_number, encoded.as_slice(), writer)
}

/// The payloads in `entries` one after the other, each as a length-delimited
/// field of its own.
pub open spec fn entry_frames(field_number: u32, entries: Seq<Seq<u8>>) -> Seq<u8>
    decreases entries.len(),
{
    if entries.len() == 0 {
        Seq::empty()
    } else {
        entry_frames(field_number, entries.drop_last()) + length_delimited(
            field_number,
            entries.last(),
        )
    }
}

/// Appends one map entry as field `field_number`: a length-delimited field
/// that holds the key as field 1, written by `key_encoder`, and then the value
/// as field 2, written by `value_encoder`.
pub fn encode_map_entry<K, V, IK, IV>(
    field_number: u32,
    key: &K,
    value: &V,
    writer: &mut Vec<u8>,
    key_encoder: &IK,
    value_encoder: &IV,
)
    where IK: Fn(u32, &K, &mut Vec<u8>), IV: Fn(u32, &V, &mut Vec<u8>)
    requires
        forall|w: &mut Vec<u8>| call_requires(*key_encoder, (1u32, key, w)),
        forall|w: &mut Vec<u8>| call_requires(*value_encoder, (2u32, value, w)),
    ensures
        exists|at_key: &mut Vec<u8>, at_value: &mut Vec<u8>|
            #![trigger
                call_ensures(*key_encoder, (1u32, key, at_key), ()),
                call_ensures(*value_encoder, (2u32, value, at_value), ())
            ]
            {
                &&& at_key@ == Seq::<u8>::empty()
                &&& call_ensures(*key_encoder, (1u32, key, at_key), ())
                &&& at_value@ == final(at_key)@
                &&& call_ensures(*value_encoder, (2u32, value, at_value), ())
                &&& final(writer)@ == old(writer)@ + length_delimited(
                    field_number,
                    final(at_value)@,
                )
            },
{
    let mut entry_buf: Vec<u8> = Vec::new();
    key_encoder(1, key, &mut entry_buf);
    value_encoder(2, value, &mut entry_buf);
    encode_length_delimited(field_number, entry_buf.as_slice(), writer);
}

/// Appends a map field: each pair in turn as an entry of its own, written by
/// [`encode_map_entry`].
pub fn encode_map<K, V, IK, IV>(
    field_number: u32,
    map: &[(K, V)],
    writer: &mut Vec<u8>,
    key_encoder: IK,
    value_encoder: IV,
)
    where IK: Fn(u32, &K, &mut Vec<u8>), IV: Fn(u32, &V, &mut Vec<u8>)
    requires
        forall|i: int, w: &mut Vec<u8>|
            0 <= i < map@.len() ==> call_requires(key_encoder, (1u32, &map@[i].0, w)),
        forall|i: int, w: &mut Vec<u8>|
            0 <= i < map@.len() ==> call_requires(value_encoder, (2u32, &map@[i].1, w)),
    ensures
        exists|steps: Seq<Seq<u8>>|
            {
                &&& #[trigger] is_trace(steps, old(writer)@, final(writer)@, map@.len())
                &&& forall|i: int| #[trigger]
                    within(i, map@.len()) ==> exists|w: &mut Vec<u8>|
                        w@ == steps[i] && final(w)@ == steps[i + 1] && #[trigger] call_ensures(
                            encode_map_entry::<K, V, IK, IV>,
                            (field_number, &map@[i].0, &map@[i].1, w, &key_encoder, &value_encoder),
                            (),
                        )
            },
{
    let ghost mut steps: Seq<Seq<u8>> = seq![writer@];
    let mut index: usize = 0;
    while index < map.len()
        invariant
            index <= map@.len(),
            forall|i: int, w: &mut Vec<u8>|
                0 <= i < map@.len() ==> call_requires(key_encoder, (1u32, &map@[i].0, w)),
            forall|i: int, w: &mut Vec<u8>|
                0 <= i < map@.len() ==> call_requires(value_encoder, (2u32, &map@[i].1, w)),
            is_trace(steps, old(writer)@, writer@, index as nat),
            forall|i: int| #[trigger]
                within(i, index as nat) ==> exists|w: &mut Vec<u8>|
                    w@ == steps[i] && final(w)@ == steps[i + 1] && #[trigger] call_ensures(
                        encode_map_entry::<K, V, IK, IV>,
                        (field_number, &map@[i].0, &map@[i].1, w, &key_encoder, &value_encoder),
                        (),
                    ),
        decreases map@.len() - index,
    {
        let ghost before = steps;
        let write_entry = encode_map_entry::<K, V, IK, IV>;
        write_entry(
            field_number,
            &map[index].0,
            &map[index].1,
            writer,
            &key_encoder,
            &value_encoder,
        );
        proof {
            steps = before.push(writer@);
            assert forall|i: int| #[trigger] within(i, (index + 1) as nat) implies exists|
                w: &mut Vec<u8>,
            |
                w@ == steps[i] && final(w)@ == steps[i + 1] && #[trigger] call_ensures(
                    encode_map_entry::<K, V, IK, IV>,
                    (field_number, &map@[i].0, &map@[i].1, w, &key_encoder, &value_encoder),
                    (),
                ) by {
                if i < index {
                    assert(within(i, index as nat));
                }
            }
        }
        index += 1;
    }
}

/// Appends one map entry whose value is an encoded message, as field
/// `field_number`: a length-delimited field that holds the key as field 1,
/// written by `key_encoder`, and then `value` as length-delimited field 2.
pub fn encode_map_message_entry<K, IK>(
    field_number: u32,
    key: &K,
    value: &[u8],
    writer: &mut Vec<u8>,
    key_encoder: &IK,
)
    where IK: Fn(u32, &K, &mut Vec<u8>)
    requires
        forall|w: &mut Vec<u8>| call_requires(*key_encoder, (1u32, key, w)),
    ensures
        exists|at_key: &mut Vec<u8>|
            {
                &&& at_key@ == Seq::<u8>::empty()
                &&& #[trigger] call_ensures(*key_encoder, (1u32, key, at_key), ())
                &&& final(writer)@ == old(writer)@ + length_delimited(
                    field_number,
                    final(at_key)@ + length_delimited(2, value@),
                )
            },
{
    let mut entry_buf: Vec<u8> = Vec::new();
    key_encoder(1, key, &mut entry_buf);
    encode_length_delimited(2, value, &mut entry_buf);
    encode_length_delimited(field_number, entry_buf.as_slice(), writer);
}

} // verus!
