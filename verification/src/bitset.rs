//! The hierarchical bit set of the `hibitset` crate, as verified code sees it.
//!
//! A `BitSet` is opaque to the verifier. What it holds is named by
//! [`members`], and every operation the engine performs on one goes through a
//! function of this module whose contract is taken on trust from the crate's
//! implementation.

use vstd::prelude::*;
use hibitset::BitSet;

verus! {

#[verifier::external_type_specification]
#[verifier::external_body]
pub struct ExBitSet(hibitset::BitSet);

/// The indices that a bit set holds: those that `BitSet::contains` answers
/// `true` for.
pub uninterp spec fn members(set: BitSet) -> Set<u32>;

/// Whether the summary layers of a bit set record every index that it holds,
/// so that a walk down from the top layer finds each of them. A set that was
/// handed the index limit itself is not intact: that index lands in the lowest
/// layer but under a bit of the top layer that belongs to index 0.
pub uninterp spec fn intact(set: BitSet) -> bool;

/// One past the largest index that a bit set accepts: it has four layers of
/// machine words, so `64^4` indices where a word has 64 bits and `32^4` where
/// it has 32.
pub open spec fn spec_index_limit() -> u32 {
    if usize::BITS == 64 {
        16_777_216
    } else {
        1_048_576
    }
}

/// One past the largest index that a bit set accepts on this machine.
#[verifier::when_used_as_spec(spec_index_limit)]
pub fn index_limit() -> (limit: u32)
    ensures
        limit == spec_index_limit(),
{
    if usize::BITS == 64 {
        16_777_216
    } else {
        1_048_576
    }
}

/// `BitSet::new`: a set that holds nothing, with every layer empty.
#[verifier::external_body]
pub(crate) fn empty() -> (set: BitSet)
    ensures
        members(set) == Set::<u32>::empty(),
        intact(set),
{
    BitSet::new()
}

/// `BitSet::add`: puts `id` into the set and reports whether it was already
/// there. An index above the limit makes the call panic, and the limit itself
/// is taken but recorded under the wrong bit of the top layer; both are
/// excluded. Below the limit the call sets the bit of `id` in every layer
/// where the lowest word was empty, and relies on the layers above where it
/// was not, so an intact set stays intact.
#[verifier::external_body]
pub(crate) fn add(set: &mut BitSet, id: u32) -> (present: bool)
    requires
        id < index_limit(),
    ensures
        members(*final(set)) == members(*old(set)).insert(id),
        present == members(*old(set)).contains(id),
        intact(*old(set)) ==> intact(*final(set)),
{
    set.add(id)
}

/// `BitSet::contains`: whether `id` is in the set.
#[verifier::external_body]
pub(crate) fn contains(set: &BitSet, id: u32) -> (present: bool)
    ensures
        present == members(*set).contains(id),
{
    set.contains(id)
}

/// `BitSet::clear`: empties the set.
#[verifier::external_body]
pub(crate) fn clear(set: &mut BitSet)
    ensures
        members(*final(set)) == Set::<u32>::empty(),
{
    set.clear()
}

/// `BitOrAssign<&BitSet> for BitSet`: adds every index of `other` to `set`.
/// The call walks `other` down from its top layer and copies each word it
/// reaches, so it copies every index only of a set that is intact.
#[verifier::external_body]
pub(crate) fn union_with(set: &mut BitSet, other: &BitSet)
    requires
        intact(*other),
    ensures
        members(*final(set)) == members(*old(set)).union(members(*other)),
{
    *set |= other;
}

/// `Clone for BitSet`: a set with the same indices.
#[verifier::external_body]
pub(crate) fn duplicate(set: &BitSet) -> (copy: BitSet)
    ensures
        members(copy) == members(*set),
{
    set.clone()
}

} // verus!
