//! A forward reader over a byte slice, and the vocabulary in which the
//! decoders state what they read from it.

use vstd::prelude::*;
use vstd::slice::slice_subrange;

use crate::{DecodeError, DecodeResult, ErrorKind};

verus! {

/// What a parser makes of a byte sequence: a value or the kind of failure, and
/// the number of leading bytes it used up either way.
pub struct Parse<T> {
    pub result: Result<T, ErrorKind>,
    pub consumed: nat,
}

impl<T> Parse<T> {
    /// A successful parse of `value` from the first `consumed` bytes.
    pub open spec fn ok(value: T, consumed: nat) -> Parse<T> {
        Parse { result: Ok(value), consumed }
    }

    /// A failed parse that had used up `consumed` bytes when it gave up.
    pub open spec fn fail(kind: ErrorKind, consumed: nat) -> Parse<T> {
        Parse { result: Err(kind), consumed }
    }

    /// Whether the parse succeeded.
    pub open spec fn is_ok(self) -> bool {
        self.result is Ok
    }

    /// The parsed value of a successful parse.
    pub open spec fn value(self) -> T
        recommends
            self.result is Ok,
    {
        self.result->Ok_0
    }
}

/// An executable result agrees with a specified one: the same value on success,
/// an error of the same kind on failure.
pub open spec fn yields<T>(r: DecodeResult<T>, expected: Result<T, ErrorKind>) -> bool {
    match expected {
        Ok(value) => r == Ok::<T, DecodeError>(value),
        Err(kind) => r is Err && r->Err_0.spec_kind() == kind,
    }
}

/// A result with its value replaced by the value's view.
pub open spec fn viewed<T: View>(r: DecodeResult<T>) -> DecodeResult<T::V> {
    match r {
        Ok(value) => Ok(value@),
        Err(e) => Err(e),
    }
}

/// A result with its optional value replaced by the value's view.
pub open spec fn viewed_option<T: View>(r: DecodeResult<Option<T>>) -> DecodeResult<Option<T::V>> {
    match r {
        Ok(Some(value)) => Ok(Some(value@)),
        Ok(None) => Ok(None),
        Err(e) => Err(e),
    }
}

/// A bounded byte source that is read front to back and can be repositioned.
pub struct Reader<'a> {
    data: &'a [u8],
    pos: usize,
}

impl<'a> Reader<'a> {
    #[verifier::type_invariant]
    spec fn in_bounds(self) -> bool {
        self.pos <= self.data@.len()
    }

    /// All the bytes this reader was made over.
    pub closed spec fn source(&self) -> Seq<u8> {
        self.data@
    }

    /// The number of bytes already read.
    pub closed spec fn spec_position(&self) -> nat {
        self.pos as nat
    }

    /// The bytes not yet read.
    pub open spec fn remaining(&self) -> Seq<u8> {
        self.source().skip(self.spec_position() as int)
    }

    /// `self` is `before` after reading `n` more bytes of the same source.
    pub open spec fn advanced(&self, before: Reader, n: nat) -> bool {
        &&& self.source() == before.source()
        &&& self.spec_position() == before.spec_position() + n
        &&& self.spec_position() <= self.source().len()
    }

    /// A reader at the start of `data`.
    pub fn new(data: &'a [u8]) -> (r: Self)
        ensures
            r.source() == data@,
            r.spec_position() == 0,
            r.remaining() == data@,
    {
        Reader { data, pos: 0 }
    }

    /// The number of bytes already read.
    pub fn position(&self) -> (p: usize)
        ensures
            p == self.spec_position(),
            p <= self.source().len(),
    {
        proof {
            use_type_invariant(self);
        }
        self.pos
    }

    /// The number of bytes not yet read.
    pub fn remaining_len(&self) -> (n: usize)
        ensures
            n == self.remaining().len(),
            self.spec_position() + n == self.source().len(),
    {
        proof {
            use_type_invariant(self);
        }
        self.data.len() - self.pos
    }

    /// Moves the reader to the absolute position `pos`.
    pub fn seek_to(&mut self, pos: usize)
        requires
            pos <= old(self).source().len(),
        ensures
            final(self).source() == old(self).source(),
            final(self).spec_position() == pos,
    {
        self.pos = pos;
    }

    /// Reads one byte, or nothing at the end of the input.
    pub fn read_byte(&mut self) -> (r: Option<u8>)
        ensures
            old(self).remaining().len() == 0 ==> r is None && final(self).advanced(*old(self), 0),
            old(self).remaining().len() > 0 ==> r == Some(old(self).remaining()[0])
                && final(self).advanced(*old(self), 1),
    {
        proof {
            use_type_invariant(&*self);
        }
        if self.pos < self.data.len() {
            let byte = self.data[self.pos];
            self.pos = self.pos + 1;
            Some(byte)
        } else {
            None
        }
    }

    /// Reads exactly `n` bytes. Where fewer are left, the reader is left at the
    /// end of its input and the error of a read past the end is returned.
    pub fn read_exact(&mut self, n: u64) -> (r: Result<&'a [u8], std::io::Error>)
        ensures
            n <= old(self).remaining().len() ==> r is Ok
                && r->Ok_0@ == old(self).remaining().take(n as int)
                && final(self).advanced(*old(self), n as nat),
            n > old(self).remaining().len() ==> r is Err
                && final(self).advanced(*old(self), old(self).remaining().len()),
    {
        proof {
            use_type_invariant(&*self);
        }
        let start: usize = self.pos;
        if n <= (self.data.len() - start) as u64 {
            let end: usize = start + n as usize;
            self.pos = end;
            let bytes = slice_subrange(self.data, start, end);
            Ok(bytes)
        } else {
            self.pos = self.data.len();
            Err(end_of_input())
        }
    }
}

/// Calls `std::io::Error::from` on `std::io::ErrorKind::UnexpectedEof`, which
/// makes the error that the standard readers return when asked for more bytes
/// than are left. Nothing is claimed of the error that comes back.
#[verifier::external_body]
fn end_of_input() -> std::io::Error {
    std::io::Error::from(std::io::ErrorKind::UnexpectedEof)
}

/// An executable decoder has done what a specified parse says: the reader has
/// moved on by the bytes the parse used up, and the result agrees with it.
pub open spec fn reads<T>(before: Reader, after: Reader, r: DecodeResult<T>, p: Parse<T>) -> bool {
    &&& moved_on(before, after, p.consumed)
    &&& yields(r, p.result)
}

/// `after` is `before` with `n` more bytes read, and sees what `before` saw
/// less its first `n` bytes.
pub open spec fn moved_on(before: Reader, after: Reader, n: nat) -> bool {
    &&& after.advanced(before, n)
    &&& after.remaining() == before.remaining().skip(n as int)
}

/// A result fails with an error of kind `kind`.
pub open spec fn fails_with<T>(r: DecodeResult<T>, kind: ErrorKind) -> bool {
    r is Err && r->Err_0.spec_kind() == kind
}

/// Reading on from a reader that has advanced `n` bytes sees what was left
/// before, less its first `n` bytes.
pub proof fn lemma_advanced_remaining(after: Reader, before: Reader, n: nat)
    requires
        after.advanced(before, n),
    ensures
        n <= before.remaining().len(),
        after.remaining() == before.remaining().skip(n as int),
{
}

/// Advancing by `n` and then by `m` is advancing by `n + m`.
pub proof fn lemma_advanced_twice(last: Reader, mid: Reader, first: Reader, n: nat, m: nat)
    requires
        mid.advanced(first, n),
        last.advanced(mid, m),
    ensures
        last.advanced(first, n + m),
{
}

} // verus!
