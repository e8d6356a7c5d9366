//! The fixed 20-byte control header of the packet framing: five 32-bit words
//! in network byte order.

use byteorder::{BE, ByteOrder};
use vstd::prelude::*;
use vstd::slice::slice_to_vec;

verus! {

/// Why a packet was refused.
#[derive(Debug, Clone, Copy, PartialEq, Eq, Structural)]
pub enum PacketError {
    TooShort,
    InvalidHeadMagic,
    InvalidTailMagic,
    SizeMismatch,
}

/// A control operation: the five words of its header.
#[derive(Debug, Clone, Copy, PartialEq, Eq, Structural)]
pub struct NetOperation {
    pub head: u32,
    pub conv: u32,
    pub token: u32,
    pub data: u32,
    pub tail: u32,
}

/// The four bytes of `v`, most significant first.
pub open spec fn be_bytes32(v: u32) -> Seq<u8> {
    seq![
        ((v / 0x100_0000) % 256) as u8,
        ((v / 0x1_0000) % 256) as u8,
        ((v / 0x100) % 256) as u8,
        (v % 256) as u8,
    ]
}

/// The integer whose big-endian bytes are the first four of `s`.
pub open spec fn from_be_bytes32(s: Seq<u8>) -> u32
    recommends
        s.len() >= 4,
{
    (s[0] * 0x100_0000 + s[1] * 0x1_0000 + s[2] * 0x100 + s[3]) as u32
}

/// The header bytes of an operation: its five words, each most significant
/// byte first.
pub open spec fn operation_bytes(op: NetOperation) -> Seq<u8> {
    be_bytes32(op.head) + be_bytes32(op.conv) + be_bytes32(op.token) + be_bytes32(op.data)
        + be_bytes32(op.tail)
}

/// What a byte sequence says as a control header: exactly twenty bytes make an
/// operation, any other length is a size mismatch.
pub open spec fn parse_operation(s: Seq<u8>) -> Result<NetOperation, PacketError> {
    if s.len() != 20 {
        Err(PacketError::SizeMismatch)
    } else {
        Ok(
            NetOperation {
                head: from_be_bytes32(s.subrange(0, 4)),
                conv: from_be_bytes32(s.subrange(4, 8)),
                token: from_be_bytes32(s.subrange(8, 12)),
                data: from_be_bytes32(s.subrange(12, 16)),
                tail: from_be_bytes32(s.subrange(16, 20)),
            },
        )
    }
}

/// Calls `byteorder::BigEndian::read_u32` on `bytes[start..end]`. That function
/// reads the first four bytes of the slice it is given as a big-endian word
/// and panics on a shorter slice, which the precondition rules out.
#[verifier::external_body]
fn read_word(bytes: &[u8], start: usize, end: usize) -> (word: u32)
    requires
        start + 4 <= end <= bytes@.len(),
    ensures
        word == from_be_bytes32(bytes@.subrange(start as int, start + 4)),
{
    BE::read_u32(&bytes[start..end])
}

/// Calls `byteorder::BigEndian::write_u32` on `buffer[start..end]`. That
/// function overwrites the first four bytes of the slice it is given with the
/// big-endian bytes of `word`, leaves the rest alone, and panics on a shorter
/// slice, which the precondition rules out.
#[verifier::external_body]
fn write_word(buffer: &mut [u8; 20], start: usize, end: usize, word: u32)
    requires
        start + 4 <= end <= 20,
    ensures
        final(buffer)@ == old(buffer)@.subrange(0, start as int) + be_bytes32(word) + old(
            buffer,
        )@.subrange(start + 4, 20),
{
    BE::write_u32(&mut buffer[start..end], word)
}

impl NetOperation {
    /// Reads a control header from exactly twenty bytes.
    pub fn from_bytes(bytes: &[u8]) -> (r: Result<NetOperation, PacketError>)
        ensures
            r == parse_operation(bytes@),
    {
        if bytes.len() != 20 {
            return Err(PacketError::SizeMismatch);
        }
        Ok(
            NetOperation {
                head: read_word(bytes, 0, 4),
                conv: read_word(bytes, 4, 8),
                token: read_word(bytes, 8, 12),
                data: read_word(bytes, 12, 16),
                tail: read_word(bytes, 16, 20),
            },
        )
    }

    /// The twenty header bytes of this operation.
    pub fn to_bytes(self) -> (buffer: [u8; 20])
        ensures
            buffer@ == operation_bytes(self),
    {
        let mut buffer = [0u8;20];
        write_word(&mut buffer, 0, 4, self.head);
        write_word(&mut buffer, 4, 8, self.conv);
        write_word(&mut buffer, 8, 12, self.token);
        write_word(&mut buffer, 12, 16, self.data);
        write_word(&mut buffer, 16, 20, self.tail);
        buffer
    }
}

impl<'a> TryFrom<&'a [u8]> for NetOperation {
    type Error = PacketError;

    fn try_from(bytes: &'a [u8]) -> (r: Result<Self, PacketError>) {
        NetOperation::from_bytes(bytes)
    }
}

impl<'a> vstd::std_specs::convert::TryFromSpecImpl<&'a [u8]> for NetOperation {
    open spec fn obeys_try_from_spec() -> bool {
        true
    }

    open spec fn try_from_spec(bytes: &'a [u8]) -> Result<Self, PacketError> {
        parse_operation(bytes@)
    }
}

impl From<NetOperation> for [u8; 20] {
    fn from(op: NetOperation) -> (buffer: Self)
        ensures
            buffer@ == operation_bytes(op),
    {
        op.to_bytes()
    }
}

/// What the conversion gives is stated by the `ensures` of `from` above, over
/// the view of the result; `from_spec` itself is left open.
impl vstd::std_specs::convert::FromSpecImpl<NetOperation> for [u8; 20] {
    open spec fn obeys_from_spec() -> bool {
        false
    }

    open spec fn from_spec(op: NetOperation) -> Self {
        arbitrary()
    }
}

impl From<NetOperation> for Vec<u8> {
    fn from(op: NetOperation) -> (bytes: Self)
        ensures
            bytes@ == operation_bytes(op),
    {
        let buffer = op.to_bytes();
        slice_to_vec(buffer.as_slice())
    }
}

/// What the conversion gives is stated by the `ensures` of `from` above, over
/// the view of the result; `from_spec` itself is left open.
impl vstd::std_specs::convert::FromSpecImpl<NetOperation> for Vec<u8> {
    open spec fn obeys_from_spec() -> bool {
        false
    }

    open spec fn from_spec(op: NetOperation) -> Self {
        arbitrary()
    }
}

impl From<NetOperation> for Box<[u8]> {
    fn from(op: NetOperation) -> (bytes: Self)
        ensures
            bytes@ == operation_bytes(op),
    {
        let boxed: Box<[u8]> = Box::new(op.to_bytes());
        boxed
    }
}

/// What the conversion gives is stated by the `ensures` of `from` above, over
/// the view of the result; `from_spec` itself is left open.
impl vstd::std_specs::convert::FromSpecImpl<NetOperation> for Box<[u8]> {
    open spec fn obeys_from_spec() -> bool {
        false
    }

    open spec fn from_spec(op: NetOperation) -> Self {
        arbitrary()
    }
}

/// The words of an operation, each four bytes most significant first, make
/// the operation again when read back.
pub proof fn lemma_operation_round_trip(op: NetOperation)
    ensures
        operation_bytes(op).len() == 20,
        parse_operation(operation_bytes(op)) == Ok::<NetOperation, PacketError>(op),
{
    let s = operation_bytes(op);
    lemma_word_round_trip(op.head);
    lemma_word_round_trip(op.conv);
    lemma_word_round_trip(op.token);
    lemma_word_round_trip(op.data);
    lemma_word_round_trip(op.tail);
    assert(s.subrange(0, 4) =~= be_bytes32(op.head));
    assert(s.subrange(4, 8) =~= be_bytes32(op.conv));
    assert(s.subrange(8, 12) =~= be_bytes32(op.token));
    assert(s.subrange(12, 16) =~= be_bytes32(op.data));
    assert(s.subrange(16, 20) =~= be_bytes32(op.tail));
}

/// Twenty bytes read as an operation and written back are the same bytes.
pub proof fn lemma_header_bytes_round_trip(s: Seq<u8>)
    requires
        s.len() == 20,
    ensures
        parse_operation(s) is Ok,
        operation_bytes(parse_operation(s)->Ok_0) == s,
{
    lemma_bytes_of_word(s.subrange(0, 4));
    lemma_bytes_of_word(s.subrange(4, 8));
    lemma_bytes_of_word(s.subrange(8, 12));
    lemma_bytes_of_word(s.subrange(12, 16));
    lemma_bytes_of_word(s.subrange(16, 20));
}

/// The four big-endian bytes of a word put the word back together.
pub proof fn lemma_word_round_trip(v: u32)
    ensures
        from_be_bytes32(be_bytes32(v)) == v,
{
}

/// The word read from four bytes has those four bytes.
pub proof fn lemma_bytes_of_word(s: Seq<u8>)
    requires
        s.len() == 4,
    ensures
        be_bytes32(from_be_bytes32(s)) == s,
{
    lemma_word_parts(s[0], s[1], s[2], s[3]);
}

/// The bytes of a word put together from four bytes are those four bytes.
proof fn lemma_word_parts(b0: u8, b1: u8, b2: u8, b3: u8)
    by (bit_vector)
    ensures
        b0 * 0x100_0000 + b1 * 0x1_0000 + b2 * 0x100 + b3 <= 0xffff_ffff,
        ((b0 * 0x100_0000 + b1 * 0x1_0000 + b2 * 0x100 + b3) / 0x100_0000) % 256 == b0,
        ((b0 * 0x100_0000 + b1 * 0x1_0000 + b2 * 0x100 + b3) / 0x1_0000) % 256 == b1,
        ((b0 * 0x100_0000 + b1 * 0x1_0000 + b2 * 0x100 + b3) / 0x100) % 256 == b2,
        (b0 * 0x100_0000 + b1 * 0x1_0000 + b2 * 0x100 + b3) % 256 == b3,
{
}

} // verus!
