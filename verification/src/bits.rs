//! Sets of offsets into a program, kept as one bit per offset by the `bit-set`
//! crate.
//!
//! Verus does not read that crate. The private functions of this file call it, and
//! what they state of it is taken from its source and believed without proof. The
//! methods of [`Bits`] are proved from those statements.

use bit_set::BitSet;
use vstd::prelude::*;

verus! {

/// A set of offsets. Its one field is a `bit_set::BitSet`, which Verus cannot see
/// into: what the set holds is known to the proofs only as [`members`].
#[verifier::external_body]
pub struct Bits {
    set: BitSet,
}

/// The offsets that a set holds.
pub uninterp spec fn members(bits: Bits) -> Set<usize>;

impl View for Bits {
    type V = Set<usize>;

    open spec fn view(&self) -> Set<usize> {
        members(*self)
    }
}

/// `BitSet::with_capacity`: a set that holds nothing, with room for the offsets
/// below `nbits`.
#[verifier::external_body]
fn raw_with_capacity(nbits: usize) -> (bits: Bits)
    ensures
        members(bits) == Set::<usize>::empty(),
{
    Bits { set: BitSet::with_capacity(nbits) }
}

/// `BitSet::contains`: whether the set holds `value`.
#[verifier::external_body]
fn raw_contains(bits: &Bits, value: usize) -> (held: bool)
    ensures
        held == members(*bits).contains(value),
{
    bits.set.contains(value)
}

/// `BitSet::insert`: adds `value` and leaves the rest of the set as it was; the
/// result tells whether `value` is new to the set. The set grows to `value + 1`
/// bits where it was shorter, so `value + 1` must be a `usize`.
#[verifier::external_body]
fn raw_insert(bits: &mut Bits, value: usize) -> (added: bool)
    requires
        value < usize::MAX,
    ensures
        members(*final(bits)) == members(*old(bits)).insert(value),
        added == !members(*old(bits)).contains(value),
{
    bits.set.insert(value)
}

/// `BitSet::capacity`: the number of bits that the set has storage for. It depends
/// on what the allocator gave; every offset in the set lies below it.
#[verifier::external_body]
fn raw_capacity(bits: &Bits) -> (room: usize)
    ensures
        forall|value: usize| #[trigger] members(*bits).contains(value) ==> value < room,
{
    bits.set.capacity()
}

/// `BitSet::shrink_to_fit`: gives back unused storage; the set holds what it held.
/// The call keeps the blocks of thirty-two bits up to the last one that holds an
/// offset, and sets the set's length to their number times thirty-two. That
/// product must be a `usize`, so no offset of the set may lie in the last block
/// that a `usize` can count: each is below `usize::MAX - 31`.
#[verifier::external_body]
fn raw_shrink_to_fit(bits: &mut Bits)
    requires
        forall|value: usize| #[trigger]
            members(*old(bits)).contains(value) ==> value < usize::MAX - 31,
    ensures
        members(*final(bits)) == members(*old(bits)),
{
    bits.set.shrink_to_fit()
}

/// `BitSet::is_empty`: whether the set holds nothing.
#[verifier::external_body]
fn raw_is_empty(bits: &Bits) -> (empty: bool)
    ensures
        empty == (forall|value: usize| !members(*bits).contains(value)),
{
    bits.set.is_empty()
}

/// `BitSet::iter`, collected: the offsets of the set, each once, from the least
/// to the greatest.
#[verifier::external_body]
fn raw_to_vec(bits: &Bits) -> (offsets: Vec<usize>)
    ensures
        forall|i: int, j: int| 0 <= i < j < offsets@.len() ==> offsets@[i] < offsets@[j],
        forall|value: usize| offsets@.contains(value) == members(*bits).contains(value),
{
    bits.set.iter().collect()
}

impl Bits {
    /// A set that holds nothing, with room for the offsets below `nbits`.
    pub fn with_capacity(nbits: usize) -> (bits: Bits)
        ensures
            bits@ == Set::<usize>::empty(),
    {
        raw_with_capacity(nbits)
    }

    /// Whether the set holds `value`.
    pub fn contains(&self, value: usize) -> (held: bool)
        ensures
            held == self@.contains(value),
    {
        raw_contains(self, value)
    }

    /// Adds `value` to the set; the result tells whether it is new to the set.
    pub fn insert(&mut self, value: usize) -> (added: bool)
        requires
            value < usize::MAX,
        ensures
            final(self)@ == old(self)@.insert(value),
            added == !old(self)@.contains(value),
    {
        raw_insert(self, value)
    }

    /// The number of bits that the set has storage for: a bound above every
    /// offset in it, and no more is known of it.
    pub fn capacity(&self) -> (room: usize)
        ensures
            forall|value: usize| #[trigger] self@.contains(value) ==> value < room,
    {
        raw_capacity(self)
    }

    /// Gives back unused storage. The set holds what it held. Every offset of the
    /// set must be below `usize::MAX - 31`: the length that is left is counted in
    /// whole blocks of thirty-two bits, and that count must be a `usize`.
    pub fn shrink_to_fit(&mut self)
        requires
            forall|value: usize| #[trigger] old(self)@.contains(value) ==> value < usize::MAX - 31,
        ensures
            final(self)@ == old(self)@,
    {
        proof {
            assert forall|value: usize| #[trigger] members(*self).contains(value) implies value
                < usize::MAX - 31 by {
                assert(self@.contains(value));
            }
        }
        raw_shrink_to_fit(self)
    }

    /// Whether the set holds nothing.
    pub fn is_empty(&self) -> (empty: bool)
        ensures
            empty == (self@ == Set::<usize>::empty()),
    {
        let empty = raw_is_empty(self);
        proof {
            if empty {
                assert(self@ =~= Set::<usize>::empty());
            }
        }
        empty
    }

    /// The offsets of the set, each once, from the least to the greatest.
    pub fn to_vec(&self) -> (offsets: Vec<usize>)
        ensures
            forall|i: int, j: int| 0 <= i < j < offsets@.len() ==> offsets@[i] < offsets@[j],
            forall|value: usize| offsets@.contains(value) == self@.contains(value),
    {
        raw_to_vec(self)
    }
}

} // verus!
