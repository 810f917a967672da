//! The set of participants of a join that have delivered their output.

use bitvec::array::BitArray;
use bitvec::order::Lsb0;
use vstd::prelude::*;

verus! {

/// One bit per participant of a join: bit `i` is set if and only if the
/// output of slot `i` has been written.
///
/// The bits live inline in a `bitvec::array::BitArray` of one machine word.
#[verifier::external_body]
pub struct CompletionSet {
    bits: BitArray<[usize; 1], Lsb0>,
}

/// The bits that a completion set holds, by index.
pub uninterp spec fn completion_bits(set: CompletionSet) -> Seq<bool>;

impl CompletionSet {
    /// The bits of the set, by index.
    pub open spec fn view(&self) -> Seq<bool> {
        completion_bits(*self)
    }

    /// Whether every one of the first `n` bits is set.
    pub open spec fn full(&self, n: nat) -> bool {
        forall|i: int| 0 <= i < n ==> #[trigger] self@[i]
    }

    /// Whether none of the first `n` bits is set.
    pub open spec fn blank(&self, n: nat) -> bool {
        forall|i: int| 0 <= i < n ==> !#[trigger] self@[i]
    }

    /// `BitArray::ZERO`: a set of as many bits as a machine word has, every
    /// one of them clear.
    #[verifier::external_body]
    pub(crate) fn zeroed() -> (set: CompletionSet)
        ensures
            completion_bits(set).len() == usize::BITS,
            forall|i: int|
                0 <= i < completion_bits(set).len() ==> !#[trigger] completion_bits(set)[i],
    {
        CompletionSet { bits: BitArray::ZERO }
    }

    /// `BitSlice::get` and a read through the bit reference that it hands
    /// out: the bit at `index`, which the caller keeps within the set.
    #[verifier::external_body]
    pub(crate) fn bit(&self, index: usize) -> (set: bool)
        requires
            index < completion_bits(*self).len(),
        ensures
            set == completion_bits(*self)[index as int],
    {
        *self.bits.get(index).unwrap()
    }

    /// `BitSlice::get_mut` and a write of `true` through the bit reference
    /// that it hands out: the bit at `index` is set, every other bit stays.
    #[verifier::external_body]
    pub(crate) fn raise(&mut self, index: usize)
        requires
            index < completion_bits(*old(self)).len(),
        ensures
            completion_bits(*final(self)) == completion_bits(*old(self)).update(
                index as int,
                true,
            ),
    {
        *self.bits.get_mut(index).unwrap() = true;
    }

    /// An empty set with room for at least 32 participants.
    pub fn new() -> (set: CompletionSet)
        ensures
            set@.len() >= 32,
            set.blank(set@.len()),
    {
        CompletionSet::zeroed()
    }

    /// Whether slot `index` has delivered its output.
    pub fn contains(&self, index: usize) -> (set: bool)
        requires
            index < self@.len(),
        ensures
            set == self@[index as int],
    {
        self.bit(index)
    }

    /// Records that slot `index` has delivered its output. A slot delivers
    /// once, so its bit must still be clear.
    pub fn insert(&mut self, index: usize)
        requires
            index < old(self)@.len(),
            !old(self)@[index as int],
        ensures
            final(self)@ == old(self)@.update(index as int, true),
    {
        self.raise(index)
    }
}

} // verus!
