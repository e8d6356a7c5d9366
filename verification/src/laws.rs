//! What holds between the encoders and the decoders: whatever is written reads
//! back as the value that was written, whatever bytes follow it.

use vstd::prelude::*;
use vstd::utf8::{encode_utf8, encode_utf8_decode_utf8, encode_utf8_valid_utf8};

use crate::{ErrorKind, WireType};
use crate::decoder::{
    after_header, frames_consumed, parse_bool, parse_bool_field, parse_bytes, parse_bytes_field,
    parse_field_header, parse_fixed32, parse_fixed32_field, parse_fixed64, parse_fixed64_field,
    parse_int32, parse_int32_field, parse_int64, parse_int64_field, parse_map_frame, parse_sfixed32,
    parse_sfixed32_field, parse_sfixed64, parse_sfixed64_field, parse_sint32, parse_sint32_field,
    parse_sint64, parse_sint64_field, parse_string, parse_string_field, parse_tag, parse_uint32,
    parse_uint32_field, parse_uint64_field, Tag, tag_of_value,
};
use crate::encoder::{
    bool_field, bytes_field, double_field, fixed32_field, fixed64_field, float_field, int32_field,
    int64_field, sfixed32_field, sfixed64_field, sint32_field, sint64_field, spec_make_tag,
    string_field, tag_bytes, uint32_field, uint64_field, varint_field,
};
use crate::reader::Parse;
use crate::scan::{scan_status, Status};
use crate::varint::{
    from_le_bytes32, from_le_bytes64, le_bytes32, le_bytes64, lemma_le_sum64, lemma_pow128_values,
    lemma_varint_len, low32, parse_varint, parse_varint_from, pow128, signed32, signed64,
    unsigned32, unsigned64, unzigzag, varint_bytes, varint_payload, varint_size, zigzag,
};

verus! {

/// A field number that fits a 32-bit tag: at least 1 and below `2^29`.
pub open spec fn field_number_in_range(field_number: u32) -> bool {
    1 <= field_number < 0x2000_0000
}

/// The encoding of a 64-bit value has at most ten bytes.
pub proof fn lemma_varint_size_bound(v: u64)
    ensures
        1 <= varint_size(v as nat) <= 10,
        varint_bytes(v as nat).len() == varint_size(v as nat),
{
    lemma_varint_len(v as nat);
    reveal_with_fuel(varint_size, 11);
}

/// Reading on from index `i`, where the encoding of `v` starts, gives the
/// payload gathered so far plus `v` at the weight of group `i`.
proof fn lemma_parse_from(s: Seq<u8>, i: nat, v: nat)
    requires
        i + varint_size(v) <= 10,
        i + varint_size(v) <= s.len(),
        s.subrange(i as int, i as int + varint_size(v)) == varint_bytes(v),
        varint_payload(s, i) + v * pow128(i) < 0x1_0000_0000_0000_0000,
    ensures
        parse_varint_from(s, i) == Parse::ok(
            (varint_payload(s, i) + v * pow128(i)) as u64,
            i + varint_size(v),
        ),
    decreases v,
{
    lemma_varint_len(v);
    let enc = varint_bytes(v);
    assert(s[i as int] == s.subrange(i as int, i as int + varint_size(v))[0]);
    if v >= 128 {
        let rest = v / 128;
        lemma_varint_len(rest);
        assert(s.subrange(i as int + 1, i as int + 1 + varint_size(rest)) =~= varint_bytes(
            rest,
        )) by {
            assert(s.subrange(i as int + 1, i as int + 1 + varint_size(rest)) =~= enc.subrange(
                1,
                enc.len() as int,
            ));
        }
        assert(varint_payload(s, i + 1) == varint_payload(s, i) + (v % 128) * pow128(i));
        assert(pow128(i + 1) == 128 * pow128(i));
        assert(rest * pow128(i + 1) == (128 * rest) * pow128(i)) by (nonlinear_arith)
            requires
                pow128(i + 1) == 128 * pow128(i),
        ;
        assert((v % 128) * pow128(i) + (128 * rest) * pow128(i) == v * pow128(i))
            by (nonlinear_arith)
            requires
                v == 128 * rest + v % 128,
        ;
        lemma_parse_from(s, i + 1, rest);
    }
}

/// Round trip of a varint: the encoding of `v`, followed by anything, reads
/// back as `v` and uses up exactly the encoding.
pub proof fn lemma_varint_round_trip(v: u64, rest: Seq<u8>)
    ensures
        parse_varint(varint_bytes(v as nat) + rest) == Parse::ok(v, varint_size(v as nat)),
        1 <= varint_size(v as nat) <= 10,
{
    lemma_varint_size_bound(v);
    lemma_pow128_values();
    let s = varint_bytes(v as nat) + rest;
    assert(s.subrange(0, varint_size(v as nat) as int) =~= varint_bytes(v as nat));
    assert((v as nat) * pow128(0) == v) by (nonlinear_arith)
        requires
            pow128(0) == 1,
    ;
    lemma_parse_from(s, 0, v as nat);
}

/// Zigzag symmetry: the mapping and its inverse undo each other, both ways.
pub proof fn lemma_zigzag_round_trip(n: i64, u: u64)
    ensures
        unzigzag(zigzag(n)) == n,
        zigzag(unzigzag(u)) == u,
        zigzag(-1i64) == 1,
        zigzag(0) == 0,
{
}

/// Reinterpreting a signed integer as unsigned and back gives the integer.
pub proof fn lemma_reinterpret_round_trip(narrow: i32, wide: i64)
    ensures
        signed32(low32(unsigned64(narrow as int))) == narrow,
        signed32(unsigned32(narrow)) == narrow,
        signed64(unsigned64(wide as int)) == wide,
        signed32(low32(unsigned64(unzigzag(zigzag(narrow as i64)) as int))) == narrow,
        (unsigned64(narrow as int) == 0) <==> narrow == 0,
        (unsigned64(wide as int) == 0) <==> wide == 0,
        (unsigned32(narrow) == 0) <==> narrow == 0,
        (zigzag(wide) == 0) <==> wide == 0,
        (zigzag(narrow as i64) == 0) <==> narrow == 0,
{
}

/// Tag round trip: for a field number in range and any wire type, the tag that
/// was written reads back as that number and that wire type.
pub proof fn lemma_tag_round_trip(field_number: u32, wire_type: WireType, rest: Seq<u8>)
    requires
        field_number_in_range(field_number),
    ensures
        parse_tag(tag_bytes(field_number, wire_type) + rest) == Parse::ok(
            Some(Tag { field_number, wire_type }),
            tag_bytes(field_number, wire_type).len(),
        ),
        parse_field_header(tag_bytes(field_number, wire_type) + rest, field_number, wire_type)
            == Parse::ok(true, tag_bytes(field_number, wire_type).len()),
        after_header(tag_bytes(field_number, wire_type) + rest, field_number, wire_type) == rest,
{
    let tag = spec_make_tag(field_number, wire_type);
    lemma_varint_round_trip(tag as u64, rest);
    lemma_varint_len(tag as nat);
    assert((tag_bytes(field_number, wire_type) + rest).skip(
        tag_bytes(field_number, wire_type).len() as int,
    ) =~= rest);
}

/// A tag value of zero, and input that has ended, both read as "no more fields".
pub proof fn lemma_end_of_fields(rest: Seq<u8>)
    ensures
        parse_tag(seq![0u8] + rest) == Parse::<Option<Tag>>::ok(None, 1),
        parse_tag(Seq::<u8>::empty()) == Parse::<Option<Tag>>::ok(None, 0),
{
    reveal_with_fuel(varint_payload, 2);
    lemma_pow128_values();
}

/// Round trip of the varint-typed scalars, value by value.
pub proof fn lemma_varint_scalars_round_trip(
    a: u32,
    b: i32,
    c: i64,
    d: u64,
    e: bool,
    rest: Seq<u8>,
)
    ensures
        parse_uint32(varint_bytes(a as nat) + rest) == Parse::ok(a, varint_size(a as nat)),
        parse_int32(varint_bytes(unsigned64(b as int) as nat) + rest) == Parse::ok(
            b,
            varint_size(unsigned64(b as int) as nat),
        ),
        parse_int64(varint_bytes(unsigned64(c as int) as nat) + rest) == Parse::ok(
            c,
            varint_size(unsigned64(c as int) as nat),
        ),
        parse_varint(varint_bytes(d as nat) + rest) == Parse::ok(d, varint_size(d as nat)),
        parse_sint32(varint_bytes(zigzag(b as i64) as nat) + rest) == Parse::ok(
            b,
            varint_size(zigzag(b as i64) as nat),
        ),
        parse_sint64(varint_bytes(zigzag(c) as nat) + rest) == Parse::ok(
            c,
            varint_size(zigzag(c) as nat),
        ),
        parse_bool(
            varint_bytes(
                if e {
                    1
                } else {
                    0
                },
            ) + rest,
        ) == Parse::ok(e, 1),
{
    lemma_reinterpret_round_trip(b, c);
    lemma_zigzag_round_trip(c, 0);
    lemma_zigzag_round_trip(b as i64, 0);
    lemma_varint_round_trip(a as u64, rest);
    lemma_varint_round_trip(unsigned64(b as int), rest);
    lemma_varint_round_trip(unsigned64(c as int), rest);
    lemma_varint_round_trip(d, rest);
    lemma_varint_round_trip(zigzag(b as i64), rest);
    lemma_varint_round_trip(zigzag(c), rest);
    lemma_varint_round_trip(0, rest);
    lemma_varint_round_trip(1, rest);
}

/// Round trip of the fixed-width scalars, value by value.
pub proof fn lemma_fixed_round_trip(a: u32, b: u64, c: i32, d: i64, rest: Seq<u8>)
    ensures
        from_le_bytes32(le_bytes32(a) + rest) == a,
        from_le_bytes64(le_bytes64(b) + rest) == b,
        parse_fixed32(le_bytes32(a) + rest) == Parse::ok(a, 4),
        parse_fixed64(le_bytes64(b) + rest) == Parse::ok(b, 8),
        parse_sfixed32(le_bytes32(unsigned32(c)) + rest) == Parse::ok(c, 4),
        parse_sfixed64(le_bytes64(unsigned64(d as int)) + rest) == Parse::ok(d, 8),
{
    lemma_reinterpret_round_trip(c, d);
    lemma_le_round_trip32(a, rest);
    lemma_le_round_trip32(unsigned32(c), rest);
    lemma_le_round_trip64(b, rest);
    lemma_le_round_trip64(unsigned64(d as int), rest);
}

/// The four little-endian bytes of a value put the value back together.
proof fn lemma_le_round_trip32(v: u32, rest: Seq<u8>)
    ensures
        from_le_bytes32(le_bytes32(v) + rest) == v,
        (le_bytes32(v) + rest).len() >= 4,
{
}

/// The eight little-endian bytes of a value put the value back together.
proof fn lemma_le_round_trip64(v: u64, rest: Seq<u8>)
    ensures
        from_le_bytes64(le_bytes64(v) + rest) == v,
        (le_bytes64(v) + rest).len() >= 8,
{
    lemma_le_sum64(v);
}

/// Round trip of a length-prefixed run of bytes.
pub proof fn lemma_bytes_round_trip(value: Seq<u8>, rest: Seq<u8>)
    requires
        value.len() <= u64::MAX,
    ensures
        parse_bytes(varint_bytes(value.len()) + value + rest) == Parse::ok(
            value,
            varint_size(value.len()) + value.len(),
        ),
{
    let prefix = varint_bytes(value.len());
    let s = prefix + value + rest;
    assert(s =~= prefix + (value + rest));
    lemma_varint_round_trip(value.len() as u64, value + rest);
    lemma_varint_len(value.len());
    assert(s.subrange(prefix.len() as int, prefix.len() as int + value.len()) =~= value);
}

/// Round trip of a length-prefixed string.
pub proof fn lemma_string_round_trip(value: Seq<char>, rest: Seq<u8>)
    requires
        encode_utf8(value).len() <= u64::MAX,
    ensures
        parse_string(varint_bytes(encode_utf8(value).len()) + encode_utf8(value) + rest)
            == Parse::ok(value, varint_size(encode_utf8(value).len()) + encode_utf8(value).len()),
{
    lemma_bytes_round_trip(encode_utf8(value), rest);
    encode_utf8_valid_utf8(value);
    encode_utf8_decode_utf8(value);
}

/// A field's tag in front of the field's body reads as the header of that
/// field, and leaves the body and what follows it.
pub proof fn lemma_header_round_trip(
    field_number: u32,
    wire_type: WireType,
    body: Seq<u8>,
    rest: Seq<u8>,
)
    requires
        field_number_in_range(field_number),
    ensures
        parse_field_header(
            tag_bytes(field_number, wire_type) + body + rest,
            field_number,
            wire_type,
        ) == Parse::ok(true, tag_bytes(field_number, wire_type).len()),
        after_header(tag_bytes(field_number, wire_type) + body + rest, field_number, wire_type)
            == body + rest,
        (tag_bytes(field_number, wire_type) + body).len() == tag_bytes(
            field_number,
            wire_type,
        ).len() + body.len(),
{
    assert(tag_bytes(field_number, wire_type) + body + rest =~= tag_bytes(
        field_number,
        wire_type,
    ) + (body + rest));
    lemma_tag_round_trip(field_number, wire_type, body + rest);
}

/// Where nothing is left to read, every field is absent.
pub proof fn lemma_absent_fields(field_number: u32)
    ensures
        parse_uint32_field(Seq::empty(), field_number) == Parse::<Option<u32>>::ok(None, 0),
        parse_int32_field(Seq::empty(), field_number) == Parse::<Option<i32>>::ok(None, 0),
        parse_int64_field(Seq::empty(), field_number) == Parse::<Option<i64>>::ok(None, 0),
        parse_uint64_field(Seq::empty(), field_number) == Parse::<Option<u64>>::ok(None, 0),
        parse_sint32_field(Seq::empty(), field_number) == Parse::<Option<i32>>::ok(None, 0),
        parse_sint64_field(Seq::empty(), field_number) == Parse::<Option<i64>>::ok(None, 0),
        parse_bool_field(Seq::empty(), field_number) == Parse::<Option<bool>>::ok(None, 0),
        parse_string_field(Seq::empty(), field_number) == Parse::<Option<Seq<char>>>::ok(
            None,
            0,
        ),
        parse_bytes_field(Seq::empty(), field_number) == Parse::<Option<Seq<u8>>>::ok(None, 0),
        parse_fixed32_field(Seq::empty(), field_number) == Parse::<Option<u32>>::ok(None, 0),
        parse_fixed64_field(Seq::empty(), field_number) == Parse::<Option<u64>>::ok(None, 0),
        parse_sfixed32_field(Seq::empty(), field_number) == Parse::<Option<i32>>::ok(None, 0),
        parse_sfixed64_field(Seq::empty(), field_number) == Parse::<Option<i64>>::ok(None, 0),
{
    lemma_end_of_fields(Seq::empty());
}

/// A field that holds the zero value of its type is not written at all.
pub proof fn lemma_default_values_omitted(field_number: u32)
    ensures
        uint32_field(field_number, 0) == Seq::<u8>::empty(),
        int32_field(field_number, 0) == Seq::<u8>::empty(),
        int64_field(field_number, 0) == Seq::<u8>::empty(),
        uint64_field(field_number, 0) == Seq::<u8>::empty(),
        sint32_field(field_number, 0) == Seq::<u8>::empty(),
        sint64_field(field_number, 0) == Seq::<u8>::empty(),
        bool_field(field_number, false) == Seq::<u8>::empty(),
        string_field(field_number, Seq::empty()) == Seq::<u8>::empty(),
        bytes_field(field_number, Seq::empty()) == Seq::<u8>::empty(),
        fixed32_field(field_number, 0) == Seq::<u8>::empty(),
        fixed64_field(field_number, 0) == Seq::<u8>::empty(),
        sfixed32_field(field_number, 0) == Seq::<u8>::empty(),
        sfixed64_field(field_number, 0) == Seq::<u8>::empty(),
{
}

/// The header of a written varint-typed field, and what is left after it.
proof fn lemma_varint_field_parts(field_number: u32, value: u64, rest: Seq<u8>)
    requires
        field_number_in_range(field_number),
        value != 0,
    ensures
        parse_field_header(varint_field(field_number, value) + rest, field_number, WireType::Varint)
            == Parse::ok(true, tag_bytes(field_number, WireType::Varint).len()),
        after_header(varint_field(field_number, value) + rest, field_number, WireType::Varint)
            == varint_bytes(value as nat) + rest,
        varint_field(field_number, value).len() == tag_bytes(field_number, WireType::Varint).len()
            + varint_size(value as nat),
{
    lemma_header_round_trip(field_number, WireType::Varint, varint_bytes(value as nat), rest);
    lemma_varint_len(value as nat);
}

/// Round trip of a `uint32` field: a value other than zero, written as field
/// `field_number`, is read back from that field.
pub proof fn lemma_uint32_field_round_trip(field_number: u32, value: u32, rest: Seq<u8>)
    requires
        field_number_in_range(field_number),
        value != 0,
    ensures
        parse_uint32_field(uint32_field(field_number, value) + rest, field_number) == Parse::ok(
            Some(value),
            uint32_field(field_number, value).len(),
        ),
{
    lemma_varint_field_parts(field_number, value as u64, rest);
    lemma_varint_round_trip(value as u64, rest);
}

/// Round trip of an `int32` field: a value other than zero, written as field
/// `field_number`, is read back from that field.
pub proof fn lemma_int32_field_round_trip(field_number: u32, value: i32, rest: Seq<u8>)
    requires
        field_number_in_range(field_number),
        value != 0,
    ensures
        parse_int32_field(int32_field(field_number, value) + rest, field_number) == Parse::ok(
            Some(value),
            int32_field(field_number, value).len(),
        ),
{
    lemma_reinterpret_round_trip(value, 0);
    lemma_varint_field_parts(field_number, unsigned64(value as int), rest);
    lemma_varint_round_trip(unsigned64(value as int), rest);
}

/// Round trip of an `int64` field: a value other than zero, written as field
/// `field_number`, is read back from that field.
pub proof fn lemma_int64_field_round_trip(field_number: u32, value: i64, rest: Seq<u8>)
    requires
        field_number_in_range(field_number),
        value != 0,
    ensures
        parse_int64_field(int64_field(field_number, value) + rest, field_number) == Parse::ok(
            Some(value),
            int64_field(field_number, value).len(),
        ),
{
    lemma_reinterpret_round_trip(0, value);
    lemma_varint_field_parts(field_number, unsigned64(value as int), rest);
    lemma_varint_round_trip(unsigned64(value as int), rest);
}

/// Round trip of a `uint64` field: a value other than zero, written as field
/// `field_number`, is read back from that field.
pub proof fn lemma_uint64_field_round_trip(field_number: u32, value: u64, rest: Seq<u8>)
    requires
        field_number_in_range(field_number),
        value != 0,
    ensures
        parse_uint64_field(uint64_field(field_number, value) + rest, field_number) == Parse::ok(
            Some(value),
            uint64_field(field_number, value).len(),
        ),
{
    lemma_varint_field_parts(field_number, value, rest);
    lemma_varint_round_trip(value, rest);
}

/// Round trip of a `sint32` field: a value other than zero, written as field
/// `field_number`, is read back from that field.
pub proof fn lemma_sint32_field_round_trip(field_number: u32, value: i32, rest: Seq<u8>)
    requires
        field_number_in_range(field_number),
        value != 0,
    ensures
        parse_sint32_field(sint32_field(field_number, value) + rest, field_number) == Parse::ok(
            Some(value),
            sint32_field(field_number, value).len(),
        ),
{
    lemma_reinterpret_round_trip(value, 0);
    lemma_zigzag_round_trip(value as i64, 0);
    lemma_varint_field_parts(field_number, zigzag(value as i64), rest);
    lemma_varint_round_trip(zigzag(value as i64), rest);
}

/// Round trip of a `sint64` field: a value other than zero, written as field
/// `field_number`, is read back from that field.
pub proof fn lemma_sint64_field_round_trip(field_number: u32, value: i64, rest: Seq<u8>)
    requires
        field_number_in_range(field_number),
        value != 0,
    ensures
        parse_sint64_field(sint64_field(field_number, value) + rest, field_number) == Parse::ok(
            Some(value),
            sint64_field(field_number, value).len(),
        ),
{
    lemma_reinterpret_round_trip(0, value);
    lemma_zigzag_round_trip(value, 0);
    lemma_varint_field_parts(field_number, zigzag(value), rest);
    lemma_varint_round_trip(zigzag(value), rest);
}

/// Round trip of a `bool` field: `true`, written as field `field_number`, is
/// read back from that field.
pub proof fn lemma_bool_field_round_trip(field_number: u32, rest: Seq<u8>)
    requires
        field_number_in_range(field_number),
    ensures
        parse_bool_field(bool_field(field_number, true) + rest, field_number) == Parse::ok(
            Some(true),
            bool_field(field_number, true).len(),
        ),
{
    lemma_varint_field_parts(field_number, 1, rest);
    lemma_varint_round_trip(1, rest);
}

/// Round trip of a `fixed32` field: a value other than zero, written as field
/// `field_number`, is read back from that field.
pub proof fn lemma_fixed32_field_round_trip(field_number: u32, value: u32, rest: Seq<u8>)
    requires
        field_number_in_range(field_number),
        value != 0,
    ensures
        parse_fixed32_field(fixed32_field(field_number, value) + rest, field_number) == Parse::ok(
            Some(value),
            fixed32_field(field_number, value).len(),
        ),
{
    lemma_fixed_round_trip(value, 0, 0, 0, rest);
    lemma_header_round_trip(field_number, WireType::Fixed32, le_bytes32(value), rest);
}

/// Round trip of a `fixed64` field: a value other than zero, written as field
/// `field_number`, is read back from that field.
pub proof fn lemma_fixed64_field_round_trip(field_number: u32, value: u64, rest: Seq<u8>)
    requires
        field_number_in_range(field_number),
        value != 0,
    ensures
        parse_fixed64_field(fixed64_field(field_number, value) + rest, field_number) == Parse::ok(
            Some(value),
            fixed64_field(field_number, value).len(),
        ),
{
    lemma_fixed_round_trip(0, value, 0, 0, rest);
    lemma_header_round_trip(field_number, WireType::Fixed64, le_bytes64(value), rest);
}

/// Round trip of an `sfixed32` field: a value other than zero, written as field
/// `field_number`, is read back from that field.
pub proof fn lemma_sfixed32_field_round_trip(field_number: u32, value: i32, rest: Seq<u8>)
    requires
        field_number_in_range(field_number),
        value != 0,
    ensures
        parse_sfixed32_field(sfixed32_field(field_number, value) + rest, field_number) == Parse::ok(
            Some(value),
            sfixed32_field(field_number, value).len(),
        ),
{
    lemma_reinterpret_round_trip(value, 0);
    lemma_fixed_round_trip(0, 0, value, 0, rest);
    lemma_header_round_trip(field_number, WireType::Fixed32, le_bytes32(unsigned32(value)), rest);
}

/// Round trip of an `sfixed64` field: a value other than zero, written as field
/// `field_number`, is read back from that field.
pub proof fn lemma_sfixed64_field_round_trip(field_number: u32, value: i64, rest: Seq<u8>)
    requires
        field_number_in_range(field_number),
        value != 0,
    ensures
        parse_sfixed64_field(sfixed64_field(field_number, value) + rest, field_number) == Parse::ok(
            Some(value),
            sfixed64_field(field_number, value).len(),
        ),
{
    lemma_reinterpret_round_trip(0, value);
    lemma_fixed_round_trip(0, 0, 0, value, rest);
    lemma_header_round_trip(
        field_number,
        WireType::Fixed64,
        le_bytes64(unsigned64(value as int)),
        rest,
    );
}

/// Round trip of a `float` and of a `double` field: the pattern of a value
/// other than zero, written as field `field_number`, is read back from that
/// field bit for bit.
pub proof fn lemma_float_field_round_trip(
    field_number: u32,
    single: u32,
    double: u64,
    rest: Seq<u8>,
)
    requires
        field_number_in_range(field_number),
    ensures
        single != 0 && single != 0x8000_0000 ==> parse_fixed32_field(
            float_field(field_number, single) + rest,
            field_number,
        ) == Parse::ok(Some(single), float_field(field_number, single).len()),
        double != 0 && double != 0x8000_0000_0000_0000 ==> parse_fixed64_field(
            double_field(field_number, double) + rest,
            field_number,
        ) == Parse::ok(Some(double), double_field(field_number, double).len()),
{
    if single != 0 && single != 0x8000_0000 {
        lemma_fixed32_field_round_trip(field_number, single, rest);
    }
    if double != 0 && double != 0x8000_0000_0000_0000 {
        lemma_fixed64_field_round_trip(field_number, double, rest);
    }
}

/// Round trip of a `bytes` field: a value that is not empty, written as field
/// `field_number`, is read back from that field.
pub proof fn lemma_bytes_field_round_trip(field_number: u32, value: Seq<u8>, rest: Seq<u8>)
    requires
        field_number_in_range(field_number),
        0 < value.len() <= u64::MAX,
    ensures
        parse_bytes_field(bytes_field(field_number, value) + rest, field_number) == Parse::ok(
            Some(value),
            bytes_field(field_number, value).len(),
        ),
{
    let body = varint_bytes(value.len()) + value;
    assert(bytes_field(field_number, value) =~= tag_bytes(field_number, WireType::LengthDelimited)
        + body);
    lemma_header_round_trip(field_number, WireType::LengthDelimited, body, rest);
    lemma_bytes_round_trip(value, rest);
    lemma_varint_len(value.len());
}

/// Round trip of a `string` field: a string that is not empty, written as
/// field `field_number`, is read back from that field.
pub proof fn lemma_string_field_round_trip(field_number: u32, value: Seq<char>, rest: Seq<u8>)
    requires
        field_number_in_range(field_number),
        0 < encode_utf8(value).len() <= u64::MAX,
    ensures
        parse_string_field(string_field(field_number, value) + rest, field_number) == Parse::ok(
            Some(value),
            string_field(field_number, value).len(),
        ),
{
    let bytes = encode_utf8(value);
    let body = varint_bytes(bytes.len()) + bytes;
    assert(string_field(field_number, value) =~= tag_bytes(
        field_number,
        WireType::LengthDelimited,
    ) + body);
    lemma_header_round_trip(field_number, WireType::LengthDelimited, body, rest);
    lemma_string_round_trip(value, rest);
    lemma_varint_len(bytes.len());
}

/// A zero value that was written, which is nothing, reads back as an absent
/// field and not as zero.
pub proof fn lemma_default_reads_as_absent(field_number: u32)
    ensures
        parse_uint32_field(uint32_field(field_number, 0), field_number) == Parse::<
            Option<u32>,
        >::ok(None, 0),
        parse_int32_field(int32_field(field_number, 0), field_number) == Parse::<Option<i32>>::ok(
            None,
            0,
        ),
        parse_int64_field(int64_field(field_number, 0), field_number) == Parse::<Option<i64>>::ok(
            None,
            0,
        ),
        parse_uint64_field(uint64_field(field_number, 0), field_number) == Parse::<
            Option<u64>,
        >::ok(None, 0),
        parse_sint32_field(sint32_field(field_number, 0), field_number) == Parse::<
            Option<i32>,
        >::ok(None, 0),
        parse_sint64_field(sint64_field(field_number, 0), field_number) == Parse::<
            Option<i64>,
        >::ok(None, 0),
        parse_bool_field(bool_field(field_number, false), field_number) == Parse::<
            Option<bool>,
        >::ok(None, 0),
        parse_string_field(string_field(field_number, Seq::empty()), field_number) == Parse::<
            Option<Seq<char>>,
        >::ok(None, 0),
        parse_bytes_field(bytes_field(field_number, Seq::empty()), field_number) == Parse::<
            Option<Seq<u8>>,
        >::ok(None, 0),
        parse_fixed32_field(fixed32_field(field_number, 0), field_number) == Parse::<
            Option<u32>,
        >::ok(None, 0),
        parse_fixed64_field(fixed64_field(field_number, 0), field_number) == Parse::<
            Option<u64>,
        >::ok(None, 0),
        parse_sfixed32_field(sfixed32_field(field_number, 0), field_number) == Parse::<
            Option<i32>,
        >::ok(None, 0),
        parse_sfixed64_field(sfixed64_field(field_number, 0), field_number) == Parse::<
            Option<i64>,
        >::ok(None, 0),
{
    lemma_default_values_omitted(field_number);
    lemma_absent_fields(field_number);
}

/// Where the next field is another one than the field asked for, the field
/// asked for is absent, whatever its kind, and only the tag is used up.
pub proof fn lemma_other_field_reads_as_absent(
    field_number: u32,
    next: u32,
    wire_type: WireType,
    rest: Seq<u8>,
)
    requires
        field_number_in_range(next),
        next != field_number,
    ensures
        ({
            let s = tag_bytes(next, wire_type) + rest;
            let n = tag_bytes(next, wire_type).len();
            &&& parse_uint32_field(s, field_number) == Parse::<Option<u32>>::ok(None, n)
            &&& parse_int32_field(s, field_number) == Parse::<Option<i32>>::ok(None, n)
            &&& parse_int64_field(s, field_number) == Parse::<Option<i64>>::ok(None, n)
            &&& parse_uint64_field(s, field_number) == Parse::<Option<u64>>::ok(None, n)
            &&& parse_sint32_field(s, field_number) == Parse::<Option<i32>>::ok(None, n)
            &&& parse_sint64_field(s, field_number) == Parse::<Option<i64>>::ok(None, n)
            &&& parse_bool_field(s, field_number) == Parse::<Option<bool>>::ok(None, n)
            &&& parse_string_field(s, field_number) == Parse::<Option<Seq<char>>>::ok(None, n)
            &&& parse_bytes_field(s, field_number) == Parse::<Option<Seq<u8>>>::ok(None, n)
            &&& parse_fixed32_field(s, field_number) == Parse::<Option<u32>>::ok(None, n)
            &&& parse_fixed64_field(s, field_number) == Parse::<Option<u64>>::ok(None, n)
            &&& parse_sfixed32_field(s, field_number) == Parse::<Option<i32>>::ok(None, n)
            &&& parse_sfixed64_field(s, field_number) == Parse::<Option<i64>>::ok(None, n)
        }),
{
    lemma_tag_round_trip(next, wire_type, rest);
}

/// Where the next field is another one than the map field that is being read,
/// the map field has ended and the other field's tag is given back: nothing is
/// used up, wherever the reader stands.
pub proof fn lemma_other_field_ends_map(
    field_number: u32,
    next: u32,
    wire_type: WireType,
    rest: Seq<u8>,
)
    requires
        field_number_in_range(next),
        next != field_number,
    ensures
        parse_map_frame(tag_bytes(next, wire_type) + rest, Some(field_number)) == Parse::<
            Option<Seq<u8>>,
        >::ok(None, 0),
        frames_consumed(tag_bytes(next, wire_type) + rest, Some(field_number), 1) == 0,
{
    lemma_tag_round_trip(next, wire_type, rest);
    let s = tag_bytes(next, wire_type) + rest;
    assert(s.skip(0) =~= s);
    reveal_with_fuel(frames_consumed, 2);
}

/// The ends of the range of varint sizes: one byte exactly for the values below
/// 128, ten bytes exactly for the values from `2^63` on.
pub proof fn lemma_varint_size_ends(v: u64)
    ensures
        varint_size(v as nat) == 1 <==> v < 128,
        varint_size(v as nat) == 10 <==> v >= 0x8000_0000_0000_0000,
        varint_size(0) == 1,
        varint_size(u64::MAX as nat) == 10,
{
    reveal_with_fuel(varint_size, 11);
}

/// Ten bytes in a row with the continuation flag set are no varint, whatever
/// follows them; the reader gives up after the tenth.
pub proof fn lemma_overlong_varint(s: Seq<u8>)
    requires
        s.len() >= 10,
        forall|i: int| 0 <= i < 10 ==> s[i] >= 128,
    ensures
        parse_varint(s) == Parse::<u64>::fail(ErrorKind::InvalidVarint, 10),
        parse_tag(s) == Parse::<Option<Tag>>::fail(ErrorKind::InvalidVarint, 10),
{
    reveal_with_fuel(parse_varint_from, 11);
}

/// A tag whose wire-type code is one of the group markers 3 and 4, or one of
/// the unassigned codes 6 and 7, is refused with that code.
pub proof fn lemma_invalid_wire_type(field_number: u32, code: u32, rest: Seq<u8>)
    requires
        field_number_in_range(field_number),
        code == 3 || code == 4 || code == 6 || code == 7,
    ensures
        parse_tag(varint_bytes((field_number * 8 + code) as nat) + rest) == Parse::<
            Option<Tag>,
        >::fail(
            ErrorKind::InvalidWireType(code),
            varint_size((field_number * 8 + code) as nat),
        ),
{
    let value = (field_number * 8 + code) as u64;
    lemma_varint_round_trip(value, rest);
}

/// What a scan says of the fields that the encoders write: after the tag of a
/// fixed-width field four or eight bytes are left to read, after the tag and
/// the value of a varint field none, and after the tag and the length of a
/// length-delimited field the bytes of its payload.
pub proof fn lemma_scan_of_written_fields(field_number: u32, value: u64, payload: Seq<u8>)
    requires
        field_number_in_range(field_number),
        payload.len() <= u64::MAX,
    ensures
        scan_status(tag_bytes(field_number, WireType::Fixed32)) == Status::Remaining(4),
        scan_status(tag_bytes(field_number, WireType::Fixed64)) == Status::Remaining(8),
        scan_status(tag_bytes(field_number, WireType::Varint) + varint_bytes(value as nat))
            == Status::Remaining(0),
        scan_status(
            tag_bytes(field_number, WireType::LengthDelimited) + varint_bytes(payload.len()),
        ) == Status::Remaining(payload.len()),
        scan_status(tag_bytes(field_number, WireType::Varint)) == Status::Unfinished,
        scan_status(tag_bytes(field_number, WireType::LengthDelimited)) == Status::Unfinished,
        scan_status(seq![0u8]) == Status::End,
{
    let none = Seq::<u8>::empty();
    lemma_scan_header(field_number, WireType::Fixed32, none);
    lemma_scan_header(field_number, WireType::Fixed64, none);
    lemma_scan_header(field_number, WireType::Varint, none);
    lemma_scan_header(field_number, WireType::LengthDelimited, none);
    lemma_scan_header(field_number, WireType::Varint, varint_bytes(value as nat));
    lemma_scan_header(field_number, WireType::LengthDelimited, varint_bytes(payload.len()));
    lemma_varint_round_trip(value, none);
    lemma_varint_round_trip(payload.len() as u64, none);
    assert(varint_bytes(value as nat) + none =~= varint_bytes(value as nat));
    assert(varint_bytes(payload.len()) + none =~= varint_bytes(payload.len()));
    assert(tag_bytes(field_number, WireType::Fixed32) + none =~= tag_bytes(
        field_number,
        WireType::Fixed32,
    ));
    assert(tag_bytes(field_number, WireType::Fixed64) + none =~= tag_bytes(
        field_number,
        WireType::Fixed64,
    ));
    assert(tag_bytes(field_number, WireType::Varint) + none =~= tag_bytes(
        field_number,
        WireType::Varint,
    ));
    assert(tag_bytes(field_number, WireType::LengthDelimited) + none =~= tag_bytes(
        field_number,
        WireType::LengthDelimited,
    ));
    lemma_end_of_fields(none);
    assert(seq![0u8] + none =~= seq![0u8]);
    lemma_varint_round_trip(0, none);
}

/// The tag of a written field, with `body` behind it, reads as that tag and
/// leaves `body`.
proof fn lemma_scan_header(field_number: u32, wire_type: WireType, body: Seq<u8>)
    requires
        field_number_in_range(field_number),
    ensures
        ({
            let s = tag_bytes(field_number, wire_type) + body;
            let t = parse_varint(s);
            &&& t.result matches Ok(value)
            &&& tag_of_value(value) == Ok::<Option<Tag>, ErrorKind>(
                Some(Tag { field_number, wire_type }),
            )
            &&& s.skip(t.consumed as int) == body
        }),
{
    let tag = spec_make_tag(field_number, wire_type);
    lemma_varint_round_trip(tag as u64, body);
    lemma_varint_len(tag as nat);
    let s = tag_bytes(field_number, wire_type) + body;
    assert(s.skip(tag_bytes(field_number, wire_type).len() as int) =~= body);
}

} // verus!
