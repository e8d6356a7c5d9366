//! Reading from a source that hands out its bytes as they arrive: after each
//! byte, what is to be read next.
//!
//! The caller owns the source and does the reading. It feeds the bytes of one
//! field to a [`FieldScan`], one at a time, until the scan says how many bytes
//! complete the field, that the message has ended, or that the field cannot be
//! read.

use vstd::prelude::*;

use crate::{DecodeError, ErrorKind, WireType};
use crate::decoder::{Tag, tag_of_value};
use crate::reader::Parse;
use crate::varint::{
    lemma_byte_parts, lemma_group_weights, lemma_or_is_add, lemma_parse_varint_bounds,
    lemma_pow128_values, lemma_varint_step, parse_varint, parse_varint_from, pow128, varint_payload,
};

verus! {

/// How far the reading of one varint has come: the payload gathered from the
/// bytes read so far, all of which carried the continuation flag.
#[derive(Debug, Clone, Copy)]
pub struct VarintProgress {
    value: u64,
    count: u32,
}

/// What a byte makes of a varint that is being read.
#[derive(Debug, Clone, Copy)]
pub enum VarintStep {
    /// The varint goes on.
    More(VarintProgress),
    /// The byte was the last one, and this is the value.
    Done(u64),
    /// The byte was the tenth in a row with the continuation flag.
    Invalid,
}

/// The payload sum of the first `n` bytes does not depend on what follows them.
pub proof fn lemma_payload_of_prefix(s: Seq<u8>, t: Seq<u8>, n: nat)
    requires
        n <= s.len(),
    ensures
        varint_payload(s + t, n) == varint_payload(s, n),
    decreases n,
{
    if n > 0 {
        lemma_payload_of_prefix(s, t, (n - 1) as nat);
        assert((s + t)[n - 1] == s[n - 1]);
    }
}

/// Where the first `i` bytes carry the continuation flag, reading a varint is
/// reading on from index `i`.
pub proof fn lemma_parse_after_flags(s: Seq<u8>, i: nat)
    requires
        i <= 9,
        i <= s.len(),
        forall|k: int| 0 <= k < i ==> s[k] >= 128,
    ensures
        parse_varint(s) == parse_varint_from(s, i),
    decreases i,
{
    if i > 0 {
        lemma_parse_after_flags(s, (i - 1) as nat);
    }
}

/// A varint that was read reads the same whatever follows it.
pub proof fn lemma_parse_varint_extends(s: Seq<u8>, t: Seq<u8>, i: nat)
    requires
        parse_varint_from(s, i).result is Ok,
    ensures
        parse_varint_from(s + t, i) == parse_varint_from(s, i),
    decreases 10 - i,
{
    if i < s.len() {
        assert((s + t)[i as int] == s[i as int]);
        if s[i as int] < 128 {
            lemma_payload_of_prefix(s, t, i + 1);
        } else if i < 9 {
            lemma_parse_varint_extends(s, t, i + 1);
        }
    }
}

impl VarintProgress {
    #[verifier::type_invariant]
    spec fn in_range(self) -> bool {
        self.count <= 9 && self.value < pow128(self.count as nat)
    }

    /// The payload gathered so far.
    pub closed spec fn gathered(self) -> u64 {
        self.value
    }

    /// The number of bytes read so far.
    pub closed spec fn bytes_read(self) -> nat {
        self.count as nat
    }

    /// `s` are the bytes read so far: at most nine, each with the continuation
    /// flag, and the payload gathered is theirs.
    pub open spec fn tracks(self, s: Seq<u8>) -> bool {
        &&& self.bytes_read() == s.len()
        &&& s.len() <= 9
        &&& forall|k: int| 0 <= k < s.len() ==> s[k] >= 128
        &&& self.gathered() == varint_payload(s, s.len())
    }

    /// Before the first byte.
    pub fn start() -> (p: Self)
        ensures
            p.tracks(Seq::empty()),
    {
        proof {
            lemma_pow128_values();
        }
        VarintProgress { value: 0, count: 0 }
    }

    /// Takes the next byte of the varint.
    ///
    /// Whatever bytes `s` were read before, the outcome is what reading a
    /// varint from `s` and `byte` gives: its value where `byte` ends it, a
    /// fault where it is too long, and else progress that has `byte` read.
    pub fn step(self, byte: u8) -> (r: VarintStep)
        ensures
            forall|s: Seq<u8>| #[trigger]
                self.tracks(s) ==> match parse_varint(s.push(byte)).result {
                    Ok(value) => r matches VarintStep::Done(v) && v == value && parse_varint(
                        s.push(byte),
                    ).consumed == s.len() + 1,
                    Err(ErrorKind::InvalidVarint) => r is Invalid,
                    Err(kind) => kind == ErrorKind::UnexpectedEof && (r matches VarintStep::More(
                        next,
                    ) && next.tracks(s.push(byte))),
                },
    {
        proof {
            use_type_invariant(self);
            lemma_pow128_values();
        }
        let shift: u32 = 7 * self.count;
        let value: u64 = self.value | (((byte & 0x7F) as u64) << shift);
        proof {
            assert forall|s: Seq<u8>| #[trigger] self.tracks(s) implies ({
                let after = s.push(byte);
                &&& parse_varint(after) == parse_varint_from(after, s.len())
                &&& value == varint_payload(after, s.len() + 1) % 0x1_0000_0000_0000_0000
                &&& s.len() < 9 ==> value == varint_payload(after, s.len() + 1) && value < pow128(
                    s.len() + 1,
                )
                &&& (byte & 0x80 == 0) <==> byte < 128
                &&& after.len() == s.len() + 1
                &&& after[s.len() as int] == byte
                &&& forall|k: int| 0 <= k < s.len() ==> after[k] == s[k]
                &&& parse_varint_from(after, s.len() + 1) == Parse::<u64>::fail(
                    ErrorKind::UnexpectedEof,
                    after.len(),
                )
            }) by {
                reveal_with_fuel(parse_varint_from, 2);
                let after = s.push(byte);
                assert(after =~= s + seq![byte]);
                lemma_payload_of_prefix(s, seq![byte], s.len());
                lemma_parse_after_flags(after, s.len());
                lemma_varint_step(after, s.len(), self.value, byte, shift, value);
            }
        }
        if byte & 0x80 == 0 {
            VarintStep::Done(value)
        } else if self.count >= 9 {
            VarintStep::Invalid
        } else {
            proof {
                lemma_step_in_range(self.value, byte, self.count, value);
            }
            VarintStep::More(VarintProgress { value, count: self.count + 1 })
        }
    }
}

/// A payload or-ed in above fewer than nine groups stays below the weight of
/// the next group.
proof fn lemma_step_in_range(acc: u64, byte: u8, count: u32, value: u64)
    requires
        count < 9,
        acc < pow128(count as nat),
        value == acc | (((byte & 0x7F) as u64) << ((7 * count) as u32)),
    ensures
        value < pow128((count + 1) as nat),
{
    lemma_pow128_values();
    lemma_byte_parts(byte);
    lemma_group_weights();
    lemma_or_is_add(acc, (byte & 0x7F) as u64, (7 * count) as u32);
    assert(count == 0 || count == 1 || count == 2 || count == 3 || count == 4 || count == 5
        || count == 6 || count == 7 || count == 8);
}

/// Where the reading of one field stands.
#[derive(Debug, Clone, Copy)]
pub enum FieldScan {
    /// In the tag.
    Tag(VarintProgress),
    /// Past the tag of a varint field, in its value.
    Value(VarintProgress),
    /// Past the tag of a length-delimited field, in the length of its payload.
    Length(VarintProgress),
}

/// What is to be done after a byte of a field.
#[derive(Debug)]
pub enum Next {
    /// Read one more byte and hand it to this scan.
    Byte(FieldScan),
    /// Read exactly this many bytes more: with them the field is complete.
    Bytes(u64),
    /// The end marker was read: the message has no more fields.
    End,
    /// The field cannot be read.
    Fault(DecodeError),
}

/// What the bytes read so far say of the field they begin.
pub enum Status {
    /// More bytes are needed before anything can be said.
    Unfinished,
    /// The field is complete after this many bytes more.
    Remaining(nat),
    /// The bytes are the end marker.
    End,
    /// The bytes begin no field.
    Fault(ErrorKind),
}

/// What a varint at the front of `body` says of a field whose tag has been
/// read: unfinished while it goes on, and once it has ended, `done` of its
/// value.
pub open spec fn varint_status(body: Seq<u8>, done: spec_fn(u64) -> nat) -> Status {
    match parse_varint(body).result {
        Ok(value) => Status::Remaining(done(value)),
        Err(ErrorKind::UnexpectedEof) => Status::Unfinished,
        Err(kind) => Status::Fault(kind),
    }
}

/// What the first bytes `s` of a field say of it.
///
/// After its tag a fixed-width field takes four or eight bytes, a varint field
/// takes the bytes of one varint, and a length-delimited field takes a varint
/// and as many bytes as that varint says.
pub open spec fn scan_status(s: Seq<u8>) -> Status {
    let t = parse_varint(s);
    match t.result {
        Err(ErrorKind::UnexpectedEof) => Status::Unfinished,
        Err(kind) => Status::Fault(kind),
        Ok(value) => match tag_of_value(value) {
            Err(kind) => Status::Fault(kind),
            Ok(None) => Status::End,
            Ok(Some(tag)) => {
                let body = s.skip(t.consumed as int);
                match tag.wire_type {
                    WireType::Fixed32 => Status::Remaining((4 - body.len()) as nat),
                    WireType::Fixed64 => Status::Remaining((8 - body.len()) as nat),
                    WireType::Varint => varint_status(body, |value: u64| 0nat),
                    WireType::LengthDelimited => varint_status(body, |value: u64| value as nat),
                }
            },
        },
    }
}

/// The bytes `s` begin with the whole tag of a field of wire type `wire_type`.
pub open spec fn has_tag(s: Seq<u8>, wire_type: WireType) -> bool {
    &&& parse_varint(s).result matches Ok(value)
    &&& tag_of_value(value) matches Ok(Some(tag))
    &&& tag.wire_type == wire_type
}

impl FieldScan {
    /// `s` are the bytes of the field read so far, and more are needed.
    pub open spec fn fed(self, s: Seq<u8>) -> bool {
        match self {
            FieldScan::Tag(progress) => progress.tracks(s),
            FieldScan::Value(progress) => has_tag(s, WireType::Varint) && progress.tracks(
                s.skip(parse_varint(s).consumed as int),
            ),
            FieldScan::Length(progress) => has_tag(s, WireType::LengthDelimited)
                && progress.tracks(s.skip(parse_varint(s).consumed as int)),
        }
    }

    /// Before the first byte of a field.
    pub fn start() -> (scan: Self)
        ensures
            scan.fed(Seq::empty()),
    {
        FieldScan::Tag(VarintProgress::start())
    }

    /// Whether the scan is still in the tag of the field.
    pub fn in_tag(&self) -> (b: bool)
        ensures
            b == (*self is Tag),
    {
        match self {
            FieldScan::Tag(_) => true,
            _ => false,
        }
    }

    /// Takes the next byte of the field.
    ///
    /// Whatever bytes `s` of the field were read before, the outcome is what
    /// [`scan_status`] says of `s` and `byte`.
    pub fn step(self, byte: u8) -> (r: Next)
        ensures
            forall|s: Seq<u8>| #[trigger]
                self.fed(s) ==> match scan_status(s.push(byte)) {
                    Status::Unfinished => r matches Next::Byte(next) && next.fed(s.push(byte)),
                    Status::Remaining(n) => r matches Next::Bytes(m) && m == n,
                    Status::End => r is End,
                    Status::Fault(kind) => r matches Next::Fault(e) && e.spec_kind() == kind,
                },
    {
        match self {
            FieldScan::Tag(progress) => match progress.step(byte) {
                VarintStep::More(next) => Next::Byte(FieldScan::Tag(next)),
                VarintStep::Invalid => Next::Fault(DecodeError::InvalidVarint),
                VarintStep::Done(value) => {
                    proof {
                        assert forall|s: Seq<u8>| #[trigger] self.fed(s) implies s.push(byte).skip(
                            s.len() as int + 1,
                        ) =~= Seq::<u8>::empty() by {}
                    }
                    match Tag::from_value(value) {
                        Err(e) => Next::Fault(e),
                        Ok(None) => Next::End,
                        Ok(Some(tag)) => match tag.wire_type {
                            WireType::Fixed32 => Next::Bytes(4),
                            WireType::Fixed64 => Next::Bytes(8),
                            WireType::Varint => Next::Byte(
                                FieldScan::Value(VarintProgress::start()),
                            ),
                            WireType::LengthDelimited => Next::Byte(
                                FieldScan::Length(VarintProgress::start()),
                            ),
                        },
                    }
                },
            },
            FieldScan::Value(progress) => {
                proof {
                    assert forall|s: Seq<u8>| #[trigger] self.fed(s) implies ({
                        let used = parse_varint(s).consumed;
                        &&& parse_varint(s.push(byte)) == parse_varint(s)
                        &&& s.push(byte).skip(used as int) == s.skip(used as int).push(byte)
                    }) by {
                        lemma_tag_stays(s, byte);
                    }
                }
                match progress.step(byte) {
                    VarintStep::More(next) => Next::Byte(FieldScan::Value(next)),
                    VarintStep::Invalid => Next::Fault(DecodeError::InvalidVarint),
                    VarintStep::Done(_) => Next::Bytes(0),
                }
            },
            FieldScan::Length(progress) => {
                proof {
                    assert forall|s: Seq<u8>| #[trigger] self.fed(s) implies ({
                        let used = parse_varint(s).consumed;
                        &&& parse_varint(s.push(byte)) == parse_varint(s)
                        &&& s.push(byte).skip(used as int) == s.skip(used as int).push(byte)
                    }) by {
                        lemma_tag_stays(s, byte);
                    }
                }
                match progress.step(byte) {
                    VarintStep::More(next) => Next::Byte(FieldScan::Length(next)),
                    VarintStep::Invalid => Next::Fault(DecodeError::InvalidVarint),
                    VarintStep::Done(length) => Next::Bytes(length),
                }
            },
        }
    }
}

/// A tag that has been read stays what it is when another byte follows, and
/// that byte then follows what came after the tag.
pub proof fn lemma_tag_stays(s: Seq<u8>, byte: u8)
    requires
        parse_varint(s).result is Ok,
    ensures
        parse_varint(s.push(byte)) == parse_varint(s),
        parse_varint(s).consumed <= s.len(),
        s.push(byte).skip(parse_varint(s).consumed as int) == s.skip(
            parse_varint(s).consumed as int,
        ).push(byte),
{
    assert(s.push(byte) =~= s + seq![byte]);
    lemma_parse_varint_extends(s, seq![byte], 0);
    lemma_parse_varint_bounds(s, 0);
    let used = parse_varint(s).consumed as int;
    assert(s.push(byte).skip(used) =~= s.skip(used).push(byte));
}

} // verus!
