//! The numeric core of the wire format: base-128 varints, the zigzag mapping,
//! two's-complement reinterpretation and little-endian fixed-width integers,
//! each as a mathematical definition with the facts the codec rests on.

use vstd::prelude::*;

use crate::ErrorKind;
use crate::reader::Parse;

verus! {

/// 128 to the power `k`: the weight of the `k`-th seven-bit group of a varint.
pub open spec fn pow128(k: nat) -> nat
    decreases k,
{
    if k == 0 {
        1
    } else {
        128 * pow128((k - 1) as nat)
    }
}

/// The varint encoding of `v`: its base-128 digits, least significant first,
/// every byte but the last with its top bit set.
pub open spec fn varint_bytes(v: nat) -> Seq<u8>
    decreases v,
{
    if v < 128 {
        seq![v as u8]
    } else {
        seq![(v % 128 + 128) as u8] + varint_bytes(v / 128)
    }
}

/// The number of bytes in the varint encoding of `v`.
pub open spec fn varint_size(v: nat) -> nat
    decreases v,
{
    if v < 128 {
        1
    } else {
        1 + varint_size(v / 128)
    }
}

/// The sum of the seven-bit payloads of the first `n` bytes of `s`, the byte
/// at index `i` weighted by `128^i`.
pub open spec fn varint_payload(s: Seq<u8>, n: nat) -> nat
    decreases n,
{
    if n == 0 {
        0
    } else {
        varint_payload(s, (n - 1) as nat) + (s[n - 1] % 128) as nat * pow128((n - 1) as nat)
    }
}

/// Reads a varint whose first `i` bytes are known to carry the continuation flag.
pub open spec fn parse_varint_from(s: Seq<u8>, i: nat) -> Parse<u64>
    decreases 10 - i,
{
    if i >= s.len() {
        Parse::fail(ErrorKind::UnexpectedEof, s.len())
    } else if s[i as int] < 128 {
        Parse::ok((varint_payload(s, i + 1) % 0x1_0000_0000_0000_0000) as u64, i + 1)
    } else if i >= 9 {
        Parse::fail(ErrorKind::InvalidVarint, i + 1)
    } else {
        parse_varint_from(s, i + 1)
    }
}

/// What reading a varint from the front of `s` gives.
///
/// The value is the weighted sum of the payloads up to and including the first
/// byte without the continuation flag, reduced modulo `2^64`. Input that ends
/// before such a byte is `UnexpectedEof`; ten bytes in a row with the flag set
/// are `InvalidVarint`.
pub open spec fn parse_varint(s: Seq<u8>) -> Parse<u64> {
    parse_varint_from(s, 0)
}

/// The zigzag image of a signed integer: 0, -1, 1, -2, ... map to 0, 1, 2, 3, ...
pub open spec fn zigzag(value: i64) -> u64 {
    if value >= 0 {
        (2 * value) as u64
    } else {
        (-2 * value - 1) as u64
    }
}

/// The signed integer a zigzag image stands for.
pub open spec fn unzigzag(value: u64) -> i64 {
    if value % 2 == 0 {
        (value / 2) as i64
    } else {
        (-(value / 2) - 1) as i64
    }
}

/// The 64-bit two's-complement pattern of a signed integer, read as unsigned.
pub open spec fn unsigned64(value: int) -> u64
    recommends
        -0x8000_0000_0000_0000 <= value < 0x8000_0000_0000_0000,
{
    if value >= 0 {
        value as u64
    } else {
        (value + 0x1_0000_0000_0000_0000) as u64
    }
}

/// A 64-bit pattern read as a signed integer.
pub open spec fn signed64(bits: u64) -> i64 {
    if bits < 0x8000_0000_0000_0000 {
        bits as i64
    } else {
        (bits - 0x1_0000_0000_0000_0000) as i64
    }
}

/// The low 32 bits of a 64-bit pattern.
pub open spec fn low32(bits: u64) -> u32 {
    (bits % 0x1_0000_0000) as u32
}

/// The 32-bit two's-complement pattern of a signed integer, read as unsigned.
pub open spec fn unsigned32(value: i32) -> u32 {
    if value >= 0 {
        value as u32
    } else {
        (value + 0x1_0000_0000) as u32
    }
}

/// A 32-bit pattern read as a signed integer.
pub open spec fn signed32(bits: u32) -> i32 {
    if bits < 0x8000_0000 {
        bits as i32
    } else {
        (bits - 0x1_0000_0000) as i32
    }
}

/// The four bytes of `v`, least significant first.
pub open spec fn le_bytes32(v: u32) -> Seq<u8> {
    seq![
        (v % 256) as u8,
        ((v / 0x100) % 256) as u8,
        ((v / 0x1_0000) % 256) as u8,
        ((v / 0x100_0000) % 256) as u8,
    ]
}

/// The eight bytes of `v`, least significant first.
pub open spec fn le_bytes64(v: u64) -> Seq<u8> {
    seq![
        (v % 256) as u8,
        ((v / 0x100) % 256) as u8,
        ((v / 0x1_0000) % 256) as u8,
        ((v / 0x100_0000) % 256) as u8,
        ((v / 0x1_0000_0000) % 256) as u8,
        ((v / 0x100_0000_0000) % 256) as u8,
        ((v / 0x1_0000_0000_0000) % 256) as u8,
        ((v / 0x100_0000_0000_0000) % 256) as u8,
    ]
}

/// The integer whose little-endian bytes are the first four of `s`.
pub open spec fn from_le_bytes32(s: Seq<u8>) -> u32
    recommends
        s.len() >= 4,
{
    (s[0] + s[1] * 0x100 + s[2] * 0x1_0000 + s[3] * 0x100_0000) as u32
}

/// The integer whose little-endian bytes are the first eight of `s`.
pub open spec fn from_le_bytes64(s: Seq<u8>) -> u64
    recommends
        s.len() >= 8,
{
    (s[0] + s[1] * 0x100 + s[2] * 0x1_0000 + s[3] * 0x100_0000 + s[4] * 0x1_0000_0000 + s[5]
        * 0x100_0000_0000 + s[6] * 0x1_0000_0000_0000 + s[7] * 0x100_0000_0000_0000) as u64
}

/// The low seven bits and the rest of a 64-bit value, in bit operations and in arithmetic.
pub proof fn lemma_varint_group(v: u64)
    by (bit_vector)
    ensures
        v >> 7 == v / 128,
        v >= 128 ==> ((v as u8) | 0x80u8) == (v % 128 + 128) as u8,
        v < 128 ==> (v as u8) == v,
{
}

/// The payload and the continuation flag of a byte, in bit operations and in arithmetic.
pub proof fn lemma_byte_parts(b: u8)
    by (bit_vector)
    ensures
        b & 0x7F == b % 128,
        (b & 0x80 == 0) <==> b < 128,
{
}

/// Or-ing a payload in above the bits already gathered adds it at its weight.
pub proof fn lemma_or_is_add(acc: u64, payload: u64, shift: u32)
    by (bit_vector)
    requires
        shift <= 56,
        payload < 128,
        acc < (1u64 << shift),
    ensures
        acc | (payload << shift) == acc + payload * (1u64 << shift),
        acc + payload * (1u64 << shift) < (1u64 << (shift + 7)),
{
}

/// In the tenth group only the lowest payload bit fits; the rest is shifted out.
pub proof fn lemma_or_top_group(acc: u64, payload: u64)
    by (bit_vector)
    requires
        payload < 128,
        acc < 0x8000_0000_0000_0000,
    ensures
        acc | (payload << 63u32) == acc + (payload % 2) * 0x8000_0000_0000_0000,
{
}

/// The weights of the ten groups as shifts.
pub proof fn lemma_group_weights()
    by (bit_vector)
    ensures
        1u64 << 0u32 == 1,
        1u64 << 7u32 == 0x80,
        1u64 << 14u32 == 0x4000,
        1u64 << 21u32 == 0x20_0000,
        1u64 << 28u32 == 0x1000_0000,
        1u64 << 35u32 == 0x8_0000_0000,
        1u64 << 42u32 == 0x400_0000_0000,
        1u64 << 49u32 == 0x2_0000_0000_0000,
        1u64 << 56u32 == 0x100_0000_0000_0000,
        1u64 << 63u32 == 0x8000_0000_0000_0000,
{
}

/// The first ten powers of 128.
pub proof fn lemma_pow128_values()
    ensures
        pow128(0) == 1,
        pow128(1) == 0x80,
        pow128(2) == 0x4000,
        pow128(3) == 0x20_0000,
        pow128(4) == 0x1000_0000,
        pow128(5) == 0x8_0000_0000,
        pow128(6) == 0x400_0000_0000,
        pow128(7) == 0x2_0000_0000_0000,
        pow128(8) == 0x100_0000_0000_0000,
        pow128(9) == 0x8000_0000_0000_0000,
        pow128(10) == 0x40_0000_0000_0000_0000,
{
    reveal_with_fuel(pow128, 11);
}

/// A tag in bit operations and in arithmetic.
pub proof fn lemma_make_tag(field_number: u32, code: u32)
    by (bit_vector)
    requires
        code < 8,
    ensures
        (field_number << 3) | code == (field_number * 8) % 0x1_0000_0000 + code,
{
}

/// The parts of a tag value in bit operations and in arithmetic.
pub proof fn lemma_tag_parts(tag: u64)
    by (bit_vector)
    ensures
        tag >> 3 == tag / 8,
        tag & 0x7 == tag % 8,
{
}

/// The zigzag mapping in bit operations and in arithmetic.
pub proof fn lemma_zigzag_bits(value: i64)
    by (bit_vector)
    ensures
        (((value << 1) ^ (value >> 63)) as u64) == (if value >= 0 {
            (2 * value) as u64
        } else {
            (-2 * value - 1) as u64
        }),
{
}

/// The inverse zigzag mapping in bit operations and in arithmetic.
pub proof fn lemma_unzigzag_bits(value: u64)
    by (bit_vector)
    ensures
        value >> 1 < 0x8000_0000_0000_0000,
        value & 1 <= 1,
        (((value >> 1) as i64) ^ ((0 - ((value & 1) as i64)) as i64)) == (if value % 2 == 0 {
            (value / 2) as i64
        } else {
            (-(value / 2) - 1) as i64
        }),
{
}

/// The four bytes of a 32-bit value in bit operations and in arithmetic.
pub proof fn lemma_le_bytes32(v: u32)
    by (bit_vector)
    ensures
        v & 0xff == v % 256,
        (v >> 8) & 0xff == (v / 0x100) % 256,
        (v >> 16) & 0xff == (v / 0x1_0000) % 256,
        (v >> 24) & 0xff == (v / 0x100_0000) % 256,
{
}

/// The eight bytes of a 64-bit value in bit operations and in arithmetic.
pub proof fn lemma_le_bytes64(v: u64)
    by (bit_vector)
    ensures
        v & 0xff == v % 256,
        (v >> 8) & 0xff == (v / 0x100) % 256,
        (v >> 16) & 0xff == (v / 0x1_0000) % 256,
        (v >> 24) & 0xff == (v / 0x100_0000) % 256,
        (v >> 32) & 0xff == (v / 0x1_0000_0000) % 256,
        (v >> 40) & 0xff == (v / 0x100_0000_0000) % 256,
        (v >> 48) & 0xff == (v / 0x1_0000_0000_0000) % 256,
        (v >> 56) & 0xff == (v / 0x100_0000_0000_0000) % 256,
{
}

/// Widening a signed integer to 64 bits keeps its two's-complement pattern.
pub proof fn lemma_sign_extend(narrow: i32, wide: i64)
    by (bit_vector)
    ensures
        (narrow as u64) == (if narrow >= 0 {
            narrow as u64
        } else {
            (narrow + 0x1_0000_0000_0000_0000) as u64
        }),
        (wide as u64) == (if wide >= 0 {
            wide as u64
        } else {
            (wide + 0x1_0000_0000_0000_0000) as u64
        }),
        (narrow as u32) == (if narrow >= 0 {
            narrow as u32
        } else {
            (narrow + 0x1_0000_0000) as u32
        }),
        (narrow as u64 == 0) <==> narrow == 0,
        (wide as u64 == 0) <==> wide == 0,
        (narrow as u32 == 0) <==> narrow == 0,
{
}

/// The encoding of `v` has `varint_size(v)` bytes, between one and ten for a 64-bit value.
pub proof fn lemma_varint_len(v: nat)
    ensures
        varint_bytes(v).len() == varint_size(v),
        varint_size(v) >= 1,
    decreases v,
{
    if v >= 128 {
        lemma_varint_len(v / 128);
    }
}

/// Narrowing and reinterpreting casts of a 64-bit pattern, in arithmetic.
pub proof fn lemma_narrowing(bits: u64)
    by (bit_vector)
    ensures
        (bits as u32) == bits % 0x1_0000_0000,
        (bits as i64) == (if bits < 0x8000_0000_0000_0000 {
            bits as int
        } else {
            bits - 0x1_0000_0000_0000_0000
        }),
        (bits as i32) == (if bits % 0x1_0000_0000 < 0x8000_0000 {
            (bits % 0x1_0000_0000) as int
        } else {
            bits % 0x1_0000_0000 - 0x1_0000_0000
        }),
{
}

/// Narrowing a signed 64-bit integer to 32 bits keeps the low half of its pattern.
pub proof fn lemma_narrowing_signed(value: i64)
    by (bit_vector)
    ensures
        (value as i32) == ((value as u64) as i32),
        (value as u64) == (if value >= 0 {
            value as u64
        } else {
            (value + 0x1_0000_0000_0000_0000) as u64
        }),
{
}

/// A 32-bit pattern read as signed.
pub proof fn lemma_reinterpret32(bits: u32)
    by (bit_vector)
    ensures
        (bits as i32) == (if bits < 0x8000_0000 {
            bits as int
        } else {
            bits - 0x1_0000_0000
        }),
{
}

/// Four bytes put together by shifts make the sum of their weighted values.
pub proof fn lemma_from_le_bytes32(b0: u8, b1: u8, b2: u8, b3: u8)
    by (bit_vector)
    ensures
        (b0 as u32) | ((b1 as u32) << 8) | ((b2 as u32) << 16) | ((b3 as u32) << 24) == b0 + b1
            * 0x100 + b2 * 0x1_0000 + b3 * 0x100_0000,
{
}

/// Two 32-bit halves put together by a shift make the sum of their weighted values.
pub proof fn lemma_join_halves(low: u32, high: u32)
    by (bit_vector)
    ensures
        (low as u64) | ((high as u64) << 32) == low + high * 0x1_0000_0000,
{
}

/// One step of reading a varint: or-ing the payload of the byte at index `i`
/// in at its shift gives the payload sum of the first `i + 1` bytes, cut to
/// 64 bits in the tenth group.
pub proof fn lemma_varint_step(s: Seq<u8>, i: nat, acc: u64, byte: u8, shift: u32, next: u64)
    requires
        i <= 9,
        shift == 7 * i,
        i < s.len(),
        byte == s[i as int],
        acc == varint_payload(s, i),
        acc < pow128(i),
        next == acc | (((byte & 0x7F) as u64) << shift),
    ensures
        (byte & 0x80 == 0) <==> byte < 128,
        next == varint_payload(s, i + 1) % 0x1_0000_0000_0000_0000,
        i < 9 ==> next == varint_payload(s, i + 1) && next < pow128(i + 1),
{
    lemma_byte_parts(byte);
    lemma_group_weights();
    lemma_pow128_values();
    let payload = (byte & 0x7F) as u64;
    if i < 9 {
        lemma_or_is_add(acc, payload, shift);
    } else {
        lemma_or_top_group(acc, payload);
        assert((acc + payload * 0x8000_0000_0000_0000) % 0x1_0000_0000_0000_0000 == acc + (payload
            % 2) * 0x8000_0000_0000_0000) by {
            vstd::arithmetic::div_mod::lemma_fundamental_div_mod_converse(
                acc + payload * 0x8000_0000_0000_0000,
                0x1_0000_0000_0000_0000,
                (payload / 2) as int,
                acc + (payload % 2) * 0x8000_0000_0000_0000,
            );
        }
    }
}

/// The eight bytes of a 64-bit value, each at its weight, add up to the value.
pub proof fn lemma_le_sum64(v: u64)
    by (bit_vector)
    ensures
        (v % 256) + ((v / 0x100) % 256) * 0x100 + ((v / 0x1_0000) % 256) * 0x1_0000 + ((v
            / 0x100_0000) % 256) * 0x100_0000 + ((v / 0x1_0000_0000) % 256) * 0x1_0000_0000 + ((v
            / 0x100_0000_0000) % 256) * 0x100_0000_0000 + ((v / 0x1_0000_0000_0000) % 256)
            * 0x1_0000_0000_0000 + ((v / 0x100_0000_0000_0000) % 256) * 0x100_0000_0000_0000
            == v,
{
}

/// Reading a varint never uses up more than there is, and a varint that was
/// read took at least one byte.
pub proof fn lemma_parse_varint_bounds(s: Seq<u8>, i: nat)
    requires
        i <= s.len(),
    ensures
        parse_varint_from(s, i).consumed <= s.len(),
        parse_varint_from(s, i).result is Ok ==> parse_varint_from(s, i).consumed >= i + 1,
    decreases 10 - i,
{
    if i < s.len() && s[i as int] >= 128 && i < 9 {
        lemma_parse_varint_bounds(s, i + 1);
    }
}

} // verus!
