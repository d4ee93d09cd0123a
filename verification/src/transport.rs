//! What every transport offers to the printer.

use vstd::prelude::*;

verus! {

/// The bytes of `payloads`, one payload after the other.
pub open spec fn joined(payloads: Seq<Seq<u8>>) -> Seq<u8>
    decreases payloads.len(),
{
    if payloads.len() == 0 {
        Seq::<u8>::empty()
    } else {
        joined(payloads.drop_last()) + payloads.last()
    }
}

/// Joining two runs of payloads is joining each and putting the results in
/// a row.
pub proof fn lemma_joined_concat(first: Seq<Seq<u8>>, second: Seq<Seq<u8>>)
    ensures
        joined(first + second) == joined(first) + joined(second),
    decreases second.len(),
{
    if second.len() == 0 {
        assert(first + second =~= first);
        assert(joined(first) + joined(second) =~= joined(first));
    } else {
        lemma_joined_concat(first, second.drop_last());
        assert((first + second).drop_last() =~= first + second.drop_last());
        assert((first + second).last() == second.last());
        assert(joined(first + second) =~= joined(first) + joined(second));
    }
}

/// A transport takes bytes and says how many it took. It may take fewer
/// than it was offered, never none of a payload that is not empty.
pub trait Transport: Sized {
    /// The transport is in a state in which it can be written to.
    spec fn wf(&self) -> bool;

    /// `after` is a state that the transport may be in once it has taken
    /// `bytes`, however they were cut into writes.
    spec fn consumed(&self, bytes: Seq<u8>, after: Self) -> bool;

    /// How many bytes one write takes of a payload of `len` bytes, with the
    /// transport in this state.
    spec fn takes(&self, len: nat) -> nat;

    /// How many writes it takes until a payload of `len` bytes has gone in
    /// whole, where each write is offered what the last one left.
    spec fn writes_for(&self, len: nat) -> nat;

    /// One write is enough where it takes the whole payload; else the
    /// writes are that one and those for the rest.
    proof fn lemma_writes_for(&self, len: nat, taken: Seq<u8>, after: Self)
        requires
            self.wf(),
            taken.len() == self.takes(len),
            self.consumed(taken, after),
        ensures
            self.takes(len) >= len ==> self.writes_for(len) == 1,
            self.takes(len) < len ==> self.writes_for(len) == 1 + after.writes_for(
                (len - self.takes(len)) as nat,
            ),
    ;

    /// Taking nothing leaves the transport as it is.
    proof fn lemma_consumed_nothing(&self)
        requires
            self.wf(),
        ensures
            self.consumed(Seq::<u8>::empty(), *self),
    ;

    /// Taking `first` and then `second` is taking the two in a row.
    proof fn lemma_consumed_concat(&self, first: Seq<u8>, mid: Self, second: Seq<u8>, after: Self)
        requires
            self.wf(),
            mid.wf(),
            self.consumed(first, mid),
            mid.consumed(second, after),
        ensures
            self.consumed(first + second, after),
    ;

    /// Takes a prefix of `bytes` and says how long it is.
    fn write(&mut self, bytes: &[u8]) -> (count: usize)
        requires
            old(self).wf(),
        ensures
            final(self).wf(),
            count <= bytes@.len(),
            bytes@.len() > 0 ==> count > 0,
            count == old(self).takes(bytes@.len()),
            old(self).consumed(bytes@.subrange(0, count as int), *final(self)),
    ;
}

} // verus!
