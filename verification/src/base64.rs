//! Base64 with the standard alphabet and `=` padding.

use vstd::prelude::*;
use vstd::string::StringSliceAdditionalSpecFns;
use vstd::utf8::{encode_utf8, is_leading_byte_width_1, valid_utf8};

use crate::decoder::string_from_utf8;

verus! {

/// The byte that pads a final group: `=`.
pub const PAD: u8 = 61;

/// What the reverse table holds for a byte that is no symbol of the alphabet.
pub const INVALID: u8 = 255;

/// Why a text was refused.
#[derive(Debug, Clone, Copy, PartialEq, Eq, Structural)]
pub enum Base64Error {
    /// The length of the text is no multiple of four.
    InvalidLength,
    /// A byte of the text is no symbol of the alphabet, or padding stands
    /// where a symbol must.
    InvalidCharacter,
}

/// The symbol of the alphabet that stands for the six-bit value `v`:
/// `A`-`Z`, `a`-`z`, `0`-`9`, `+`, `/`.
pub open spec fn symbol(v: int) -> u8
    recommends
        0 <= v < 64,
{
    if v < 26 {
        (65 + v) as u8
    } else if v < 52 {
        (71 + v) as u8
    } else if v < 62 {
        (v - 4) as u8
    } else if v == 62 {
        43
    } else {
        47
    }
}

/// The six-bit value a byte stands for, or `INVALID` where it is no symbol.
pub open spec fn sextet(c: u8) -> u8 {
    if 65 <= c <= 90 {
        (c - 65) as u8
    } else if 97 <= c <= 122 {
        (c - 71) as u8
    } else if 48 <= c <= 57 {
        (c + 4) as u8
    } else if c == 43 {
        62
    } else if c == 47 {
        63
    } else {
        INVALID
    }
}

/// The four symbols for a group of one to three bytes, padded with `=` where
/// the group is short.
pub open spec fn encode_group(chunk: Seq<u8>) -> Seq<u8>
    recommends
        1 <= chunk.len() <= 3,
{
    let b0 = chunk[0] as int;
    let b1 = if chunk.len() > 1 {
        chunk[1] as int
    } else {
        0
    };
    let b2 = if chunk.len() > 2 {
        chunk[2] as int
    } else {
        0
    };
    seq![
        symbol(b0 / 4),
        symbol((b0 % 4) * 16 + b1 / 16),
        if chunk.len() > 1 {
            symbol((b1 % 16) * 4 + b2 / 64)
        } else {
            PAD
        },
        if chunk.len() > 2 {
            symbol(b2 % 64)
        } else {
            PAD
        },
    ]
}

/// The Base64 text of `data`: its groups of three bytes in turn, the last one
/// possibly short.
pub open spec fn encoded(data: Seq<u8>) -> Seq<u8>
    decreases data.len(),
{
    if data.len() == 0 {
        Seq::empty()
    } else if data.len() <= 3 {
        encode_group(data)
    } else {
        encode_group(data.take(3)) + encoded(data.skip(3))
    }
}

/// The symbol for a six-bit value.
fn symbol_of(v: u8) -> (c: u8)
    requires
        v < 64,
    ensures
        c == symbol(v as int),
        sextet(c) == v,
        c != PAD,
        c < 128,
{
    if v < 26 {
        65 + v
    } else if v < 52 {
        71 + v
    } else if v < 62 {
        v - 4
    } else if v == 62 {
        43
    } else {
        47
    }
}

/// The table that maps each byte to the six-bit value it stands for, and every
/// other byte to `INVALID`.
pub fn build_reverse_table() -> (table: [u8; 256])
    ensures
        forall|c: u8| #[trigger] table@[c as int] == sextet(c),
{
    let mut table = [INVALID;256];
    let mut i: u8 = 0;
    while i < 64
        invariant
            i <= 64,
            forall|c: u8| #[trigger]
                table@[c as int] == (if sextet(c) < i {
                    sextet(c)
                } else {
                    INVALID
                }),
        decreases 64 - i,
    {
        let c = symbol_of(i);
        table[c as usize] = i;
        i = i + 1;
    }
    table
}

/// The three sextet splits of a 24-bit group, in shifts and in arithmetic.
proof fn lemma_group_bits(b0: u8, b1: u8, b2: u8)
    by (bit_vector)
    ensures
        (((b0 as u32) << 16 | (b1 as u32) << 8 | (b2 as u32)) >> 18) & 0x3f == b0 / 4,
        (((b0 as u32) << 16 | (b1 as u32) << 8 | (b2 as u32)) >> 12) & 0x3f == (b0 % 4) * 16 + b1
            / 16,
        (((b0 as u32) << 16 | (b1 as u32) << 8 | (b2 as u32)) >> 6) & 0x3f == (b1 % 16) * 4 + b2
            / 64,
        ((b0 as u32) << 16 | (b1 as u32) << 8 | (b2 as u32)) & 0x3f == b2 % 64,
{
}

/// Appends the Base64 text of `data` to `writer`.
pub fn encode_to_writer(data: &[u8], writer: &mut Vec<u8>)
    ensures
        final(writer)@ == old(writer)@ + encoded(data@),
{
    let mut i: usize = 0;
    proof {
        assert(data@.skip(0) =~= data@);
    }
    while i < data.len()
        invariant
            i <= data.len(),
            writer@ + encoded(data@.skip(i as int)) == old(writer)@ + encoded(data@),
        decreases data.len() - i,
    {
        let left: usize = data.len() - i;
        let b0: u8 = data[i];
        let b1: u8 = if left > 1 {
            data[i + 1]
        } else {
            0
        };
        let b2: u8 = if left > 2 {
            data[i + 2]
        } else {
            0
        };
        let n: u32 = ((b0 as u32) << 16) | ((b1 as u32) << 8) | (b2 as u32);
        proof {
            lemma_group_bits(b0, b1, b2);
        }
        let ghost rest = data@.skip(i as int);
        writer.push(symbol_of(((n >> 18) & 0x3f) as u8));
        writer.push(symbol_of(((n >> 12) & 0x3f) as u8));
        if left > 1 {
            writer.push(symbol_of(((n >> 6) & 0x3f) as u8));
        } else {
            writer.push(PAD);
        }
        if left > 2 {
            writer.push(symbol_of((n & 0x3f) as u8));
        } else {
            writer.push(PAD);
        }
        let step: usize = if left > 3 {
            3
        } else {
            left
        };
        proof {
            let chunk = rest.take(step as int);
            if left > 3 {
                assert(rest.skip(3) =~= data@.skip(i + 3));
            } else {
                assert(chunk =~= rest);
            }
        }
        i = i + step;
    }
}

/// The bytes a group of four text bytes stands for, or nothing where the
/// group is refused. Padding in the third or fourth place leaves that place's
/// byte out; padding in the first or second place is refused.
pub open spec fn decode_group(group: Seq<u8>) -> Option<Seq<u8>>
    recommends
        group.len() == 4,
{
    let v0 = sextet(group[0]);
    let v1 = sextet(group[1]);
    let v2 = if group[2] != PAD {
        sextet(group[2])
    } else {
        0
    };
    let v3 = if group[3] != PAD {
        sextet(group[3])
    } else {
        0
    };
    if v0 == INVALID || v1 == INVALID || v2 == INVALID || v3 == INVALID {
        None
    } else {
        Some(
            seq![(v0 * 4 + v1 / 16) as u8] + (if group[2] != PAD {
                seq![((v1 % 16) * 16 + v2 / 4) as u8]
            } else {
                Seq::empty()
            }) + (if group[3] != PAD {
                seq![((v2 % 4) * 64 + v3) as u8]
            } else {
                Seq::empty()
            }),
        )
    }
}

/// How far a text decodes: the bytes of its groups up to the first refused
/// one, and whether every group was accepted.
pub struct Decoding {
    pub bytes: Seq<u8>,
    pub complete: bool,
}

/// Decodes a text group by group from the front, stopping at the first group
/// that is refused.
pub open spec fn decode_groups(text: Seq<u8>) -> Decoding
    decreases text.len(),
{
    if text.len() < 4 {
        Decoding { bytes: Seq::empty(), complete: true }
    } else {
        match decode_group(text.take(4)) {
            None => Decoding { bytes: Seq::empty(), complete: false },
            Some(bytes) => {
                let rest = decode_groups(text.skip(4));
                Decoding { bytes: bytes + rest.bytes, complete: rest.complete }
            },
        }
    }
}

/// The bytes a text stands for, or why it is refused.
pub open spec fn decoded(text: Seq<u8>) -> Result<Seq<u8>, Base64Error> {
    if text.len() % 4 != 0 {
        Err(Base64Error::InvalidLength)
    } else if !decode_groups(text).complete {
        Err(Base64Error::InvalidCharacter)
    } else {
        Ok(decode_groups(text).bytes)
    }
}

/// The three bytes of a group put together from its sextets, in shifts and in
/// arithmetic.
proof fn lemma_sextet_bits(v0: u8, v1: u8, v2: u8, v3: u8)
    by (bit_vector)
    requires
        v0 < 64,
        v1 < 64,
        v2 < 64,
        v3 < 64,
    ensures
        (v0 << 2) | (v1 >> 4) == v0 * 4 + v1 / 16,
        (v1 << 4) | (v2 >> 2) == (v1 % 16) * 16 + v2 / 4,
        (v2 << 6) | v3 == (v2 % 4) * 64 + v3,
{
}

/// Appends the bytes that `input` stands for to `writer`.
///
/// A text whose length is no multiple of four is refused before anything is
/// written. Otherwise the groups are decoded in turn, and a refused group
/// ends the work with the bytes of the groups before it already written.
pub fn decode_to_writer(input: &[u8], writer: &mut Vec<u8>) -> (r: Result<(), Base64Error>)
    ensures
        r == (match decoded(input@) {
            Ok(_) => Ok::<(), Base64Error>(()),
            Err(e) => Err(e),
        }),
        input@.len() % 4 != 0 ==> final(writer)@ == old(writer)@,
        input@.len() % 4 == 0 ==> final(writer)@ == old(writer)@ + decode_groups(input@).bytes,
{
    if input.len() % 4 != 0 {
        return Err(Base64Error::InvalidLength);
    }
    let table = build_reverse_table();
    let mut i: usize = 0;
    proof {
        assert(input@.skip(0) =~= input@);
    }
    while i < input.len()
        invariant
            i <= input.len(),
            i % 4 == 0,
            input@.len() % 4 == 0,
            forall|c: u8| #[trigger] table@[c as int] == sextet(c),
            decode_groups(input@).complete == decode_groups(input@.skip(i as int)).complete,
            old(writer)@ + decode_groups(input@).bytes == writer@ + decode_groups(
                input@.skip(i as int),
            ).bytes,
        decreases input.len() - i,
    {
        let c0: u8 = input[i];
        let c1: u8 = input[i + 1];
        let c2: u8 = input[i + 2];
        let c3: u8 = input[i + 3];
        let v0: u8 = table[c0 as usize];
        let v1: u8 = table[c1 as usize];
        let v2: u8 = if c2 != PAD {
            table[c2 as usize]
        } else {
            0
        };
        let v3: u8 = if c3 != PAD {
            table[c3 as usize]
        } else {
            0
        };
        proof {
            assert(input@.skip(i as int).skip(4) =~= input@.skip(i + 4));
        }
        if v0 == INVALID || v1 == INVALID || (c2 != PAD && v2 == INVALID) || (c3 != PAD && v3
            == INVALID) {
            return Err(Base64Error::InvalidCharacter);
        }
        proof {
            lemma_sextet_bits(v0, v1, v2, v3);
        }
        writer.push((v0 << 2) | (v1 >> 4));
        if c2 != PAD {
            writer.push((v1 << 4) | (v2 >> 2));
        }
        if c3 != PAD {
            writer.push((v2 << 6) | v3);
        }
        i = i + 4;
    }
    Ok(())
}

/// Whether a byte is a line break: a carriage return or a line feed.
pub open spec fn is_break(b: u8) -> bool {
    b == 13 || b == 10
}

/// A text with its line breaks taken out.
pub open spec fn without_breaks(text: Seq<u8>) -> Seq<u8>
    decreases text.len(),
{
    if text.len() == 0 {
        Seq::empty()
    } else if is_break(text.last()) {
        without_breaks(text.drop_last())
    } else {
        without_breaks(text.drop_last()).push(text.last())
    }
}

/// Calls `std::io::Error::new` with the kind `InvalidData` and `message` as
/// the payload. Nothing is claimed of the error that comes back.
#[verifier::external_body]
fn invalid_data(message: &'static str) -> std::io::Error {
    std::io::Error::new(std::io::ErrorKind::InvalidData, message)
}

/// Every byte of a Base64 text is a symbol of the alphabet or padding, and so
/// an ASCII character.
pub proof fn lemma_encoded_is_ascii(data: Seq<u8>)
    ensures
        forall|i: int| 0 <= i < encoded(data).len() ==> #[trigger] encoded(data)[i] < 128,
        valid_utf8(encoded(data)),
    decreases data.len(),
{
    let text = encoded(data);
    if data.len() > 3 {
        lemma_encoded_is_ascii(data.skip(3));
    }
    assert forall|i: int| 0 <= i < text.len() implies #[trigger] text[i] < 128 by {}
    assert forall|i: int| 0 <= i < text.len() implies #[trigger] is_leading_byte_width_1(
        text[i],
    ) by {}
    vstd::utf8::partial_valid_utf8_extend_ascii_block(text, 0, text.len() as int);
    assert(text.subrange(0, text.len() as int) =~= text);
}

/// The Base64 text of `data` as a string.
fn encode_text(data: &[u8]) -> (r: std::io::Result<String>)
    ensures
        r is Ok,
        encode_utf8(r->Ok_0@) == encoded(data@),
{
    let mut text: Vec<u8> = Vec::new();
    encode_to_writer(data, &mut text);
    proof {
        lemma_encoded_is_ascii(data@);
        assert(text@ =~= encoded(data@));
        vstd::utf8::decode_utf8_encode_utf8(text@);
    }
    match string_from_utf8(text) {
        Ok(s) => Ok(s),
        Err(_) => vstd::pervasive::unreached(),
    }
}

/// The bytes that the text `input` stands for, once its line breaks are taken
/// out.
fn decode_text(input: &[u8]) -> (r: std::io::Result<Vec<u8>>)
    ensures
        r is Ok <==> decoded(without_breaks(input@)) is Ok,
        r matches Ok(bytes) ==> decoded(without_breaks(input@)) == Ok::<Seq<u8>, Base64Error>(
            bytes@,
        ),
{
    let mut filtered: Vec<u8> = Vec::new();
    let mut i: usize = 0;
    while i < input.len()
        invariant
            i <= input.len(),
            filtered@ == without_breaks(input@.take(i as int)),
        decreases input.len() - i,
    {
        let b: u8 = input[i];
        proof {
            assert(input@.take(i + 1).drop_last() =~= input@.take(i as int));
        }
        if b != 13 && b != 10 {
            filtered.push(b);
        }
        i = i + 1;
    }
    proof {
        assert(input@.take(i as int) =~= input@);
    }
    let mut output: Vec<u8> = Vec::new();
    match decode_to_writer(filtered.as_slice(), &mut output) {
        Ok(()) => Ok(output),
        Err(Base64Error::InvalidLength) => Err(invalid_data("Invalid Base64 length")),
        Err(Base64Error::InvalidCharacter) => Err(invalid_data("Invalid Base64 character")),
    }
}

/// What can be written as Base64 text, and read as such a text.
pub trait Base64 {
    /// The bytes of `self`.
    spec fn octets(&self) -> Seq<u8>;

    /// The Base64 text of the bytes of `self`. This never fails.
    fn encode_base64(&self) -> (r: std::io::Result<String>)
        ensures
            r is Ok,
            encode_utf8(r->Ok_0@) == encoded(self.octets()),
    ;

    /// The bytes that `self`, read as a Base64 text with its line breaks taken
    /// out, stands for. It fails exactly where that text is refused.
    fn decode_base64(&self) -> (r: std::io::Result<Vec<u8>>)
        ensures
            r is Ok <==> decoded(without_breaks(self.octets())) is Ok,
            r matches Ok(bytes) ==> decoded(without_breaks(self.octets())) == Ok::<
                Seq<u8>,
                Base64Error,
            >(bytes@),
    ;
}

impl Base64 for [u8] {
    open spec fn octets(&self) -> Seq<u8> {
        self@
    }

    fn encode_base64(&self) -> (r: std::io::Result<String>) {
        encode_text(self)
    }

    fn decode_base64(&self) -> (r: std::io::Result<Vec<u8>>) {
        decode_text(self)
    }
}

impl Base64 for Vec<u8> {
    open spec fn octets(&self) -> Seq<u8> {
        self@
    }

    fn encode_base64(&self) -> (r: std::io::Result<String>) {
        encode_text(self.as_slice())
    }

    fn decode_base64(&self) -> (r: std::io::Result<Vec<u8>>) {
        decode_text(self.as_slice())
    }
}

impl Base64 for str {
    open spec fn octets(&self) -> Seq<u8> {
        self.spec_bytes()
    }

    fn encode_base64(&self) -> (r: std::io::Result<String>) {
        encode_text(self.as_bytes())
    }

    fn decode_base64(&self) -> (r: std::io::Result<Vec<u8>>) {
        decode_text(self.as_bytes())
    }
}

impl Base64 for String {
    open spec fn octets(&self) -> Seq<u8> {
        encode_utf8(self@)
    }

    fn encode_base64(&self) -> (r: std::io::Result<String>) {
        encode_text(self.as_str().as_bytes())
    }

    fn decode_base64(&self) -> (r: std::io::Result<Vec<u8>>) {
        decode_text(self.as_str().as_bytes())
    }
}

/// A symbol stands for the value it was chosen for, and is neither padding
/// nor a line break.
pub proof fn lemma_symbol_value(v: int)
    requires
        0 <= v < 64,
    ensures
        sextet(symbol(v)) == v,
        symbol(v) != PAD,
        !is_break(symbol(v)),
{
}

/// A group of one to three bytes, written as four symbols, reads back as the
/// same bytes.
pub proof fn lemma_group_round_trip(chunk: Seq<u8>)
    requires
        1 <= chunk.len() <= 3,
    ensures
        encode_group(chunk).len() == 4,
        decode_group(encode_group(chunk)) == Some(chunk),
{
    let b0 = chunk[0] as int;
    let b1 = if chunk.len() > 1 {
        chunk[1] as int
    } else {
        0
    };
    let b2 = if chunk.len() > 2 {
        chunk[2] as int
    } else {
        0
    };
    lemma_symbol_value(b0 / 4);
    lemma_symbol_value((b0 % 4) * 16 + b1 / 16);
    lemma_symbol_value((b1 % 16) * 4 + b2 / 64);
    lemma_symbol_value(b2 % 64);
}

/// The length of a Base64 text: four symbols for every three bytes begun.
pub proof fn lemma_encoded_len(data: Seq<u8>)
    ensures
        encoded(data).len() == 4 * ((data.len() + 2) / 3),
    decreases data.len(),
{
    if data.len() > 3 {
        lemma_encoded_len(data.skip(3));
    }
}

/// Decoding the Base64 text of any bytes gives those bytes back.
pub proof fn lemma_base64_round_trip(data: Seq<u8>)
    ensures
        decode_groups(encoded(data)) == (Decoding { bytes: data, complete: true }),
        decoded(encoded(data)) == Ok::<Seq<u8>, Base64Error>(data),
    decreases data.len(),
{
    lemma_encoded_len(data);
    let text = encoded(data);
    if data.len() == 0 {
        assert(decode_groups(text).bytes =~= data);
    } else if data.len() <= 3 {
        lemma_group_round_trip(data);
        assert(decode_groups(text.skip(4)).bytes =~= Seq::<u8>::empty());
    } else {
        lemma_group_round_trip(data.take(3));
        lemma_base64_round_trip(data.skip(3));
        assert(text.skip(4) =~= encoded(data.skip(3)));
        assert(decode_groups(text).bytes =~= data);
    }
}

/// A Base64 text holds no line break, so taking them out changes nothing.
pub proof fn lemma_encoded_has_no_breaks(data: Seq<u8>)
    ensures
        without_breaks(encoded(data)) == encoded(data),
{
    let text = encoded(data);
    assert forall|i: int| 0 <= i < text.len() implies !is_break(#[trigger] text[i]) by {
        lemma_encoded_symbols(data, i);
    }
    lemma_nothing_to_take_out(text);
}

/// Each byte of a Base64 text is a symbol or padding.
proof fn lemma_encoded_symbols(data: Seq<u8>, i: int)
    requires
        0 <= i < encoded(data).len(),
    ensures
        !is_break(encoded(data)[i]),
    decreases data.len(),
{
    if data.len() > 3 && i >= 4 {
        lemma_encoded_symbols(data.skip(3), i - 4);
    }
}

/// A text without line breaks is what is left of it when they are taken out.
proof fn lemma_nothing_to_take_out(text: Seq<u8>)
    requires
        forall|i: int| 0 <= i < text.len() ==> !is_break(#[trigger] text[i]),
    ensures
        without_breaks(text) == text,
    decreases text.len(),
{
    if text.len() > 0 {
        lemma_nothing_to_take_out(text.drop_last());
    }
}

} // verus!
