//! The vocabulary of contracts that describe a run of steps, each of them the
//! work of a function that the caller handed in.

use vstd::prelude::*;

verus! {

/// `i` is the index of one of `count` steps.
pub open spec fn within(i: int, count: nat) -> bool {
    0 <= i < count
}

/// `steps` are the states a buffer goes through in `count` steps, from `first`
/// to `last`.
pub open spec fn is_trace(steps: Seq<Seq<u8>>, first: Seq<u8>, last: Seq<u8>, count: nat) -> bool {
    &&& steps.len() == count + 1
    &&& steps[0] == first
    &&& steps[count as int] == last
}

/// The pieces one after the other.
pub open spec fn joined(pieces: Seq<Seq<u8>>) -> Seq<u8>
    decreases pieces.len(),
{
    if pieces.len() == 0 {
        Seq::empty()
    } else {
        joined(pieces.drop_last()) + pieces.last()
    }
}

/// A trace in which every step appends one piece ends with all the pieces
/// appended to where it began, in their order.
///
/// The functions that take an encoder for their items state their result as a
/// trace; where the encoder's own contract says what it appends, this turns the
/// trace into the bytes that were written.
pub proof fn lemma_trace_appends(
    steps: Seq<Seq<u8>>,
    first: Seq<u8>,
    last: Seq<u8>,
    pieces: Seq<Seq<u8>>,
)
    requires
        is_trace(steps, first, last, pieces.len()),
        forall|i: int| #[trigger] within(i, pieces.len()) ==> steps[i + 1] == steps[i] + pieces[i],
    ensures
        last == first + joined(pieces),
    decreases pieces.len(),
{
    if pieces.len() > 0 {
        let n = (pieces.len() - 1) as int;
        let shorter = pieces.drop_last();
        assert forall|i: int| #[trigger] within(i, shorter.len()) implies steps.drop_last()[i + 1]
            == steps.drop_last()[i] + shorter[i] by {
            assert(within(i, pieces.len()));
        }
        lemma_trace_appends(steps.drop_last(), first, steps[n], shorter);
        assert(within(n, pieces.len()));
    }
}

} // verus!
