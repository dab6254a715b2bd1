//! The packed cell storage: `fixedbitset::FixedBitSet`, seen by the proofs as
//! the sequence of its bits.

use fixedbitset::FixedBitSet;
use vstd::prelude::*;

verus! {

#[verifier::external_type_specification]
#[verifier::external_body]
pub struct ExFixedBitSet(FixedBitSet);

/// The bits that a `FixedBitSet` holds, in index order: one entry per bit of
/// its length, `true` for a set bit.
pub uninterp spec fn bits_of(b: FixedBitSet) -> Seq<bool>;

/// Relies on `FixedBitSet::with_capacity`: a set of `n` bits, all clear.
#[verifier::external_body]
pub(crate) fn cleared_bits(n: usize) -> (r: FixedBitSet)
    ensures
        bits_of(r) == Seq::new(n as nat, |i: int| false),
{
    FixedBitSet::with_capacity(n)
}

/// Relies on `FixedBitSet::contains`: whether bit `i` is set, `false` past
/// the end.
#[verifier::external_body]
pub(crate) fn bit_at(b: &FixedBitSet, i: usize) -> (r: bool)
    ensures
        r == (i < bits_of(*b).len() && bits_of(*b)[i as int]),
{
    b.contains(i)
}

/// Relies on `FixedBitSet::set`: bit `i` takes the value `v`, the others
/// stay. It panics past the end.
#[verifier::external_body]
pub(crate) fn set_bit(b: &mut FixedBitSet, i: usize, v: bool)
    requires
        i < bits_of(*old(b)).len(),
    ensures
        bits_of(*final(b)) == bits_of(*old(b)).update(i as int, v),
{
    b.set(i, v)
}

/// Relies on `FixedBitSet::toggle`: bit `i` flips, the others stay. It panics
/// past the end.
#[verifier::external_body]
pub(crate) fn flip_bit(b: &mut FixedBitSet, i: usize)
    requires
        i < bits_of(*old(b)).len(),
    ensures
        bits_of(*final(b)) == bits_of(*old(b)).update(i as int, !bits_of(*old(b))[i as int]),
{
    b.toggle(i)
}

/// Relies on `FixedBitSet::as_slice`: the storage blocks, 32 bits each, bit
/// `i` at position `i % 32` of block `i / 32`.
#[verifier::external_body]
pub(crate) fn bit_blocks(b: &FixedBitSet) -> (r: &[u32])
    ensures
        r@.len() == (bits_of(*b).len() + 31) / 32,
        forall|i: int|
            0 <= i < bits_of(*b).len() ==> (#[trigger] bits_of(*b)[i] == ((r@[i / 32] >> ((i
                % 32) as u32)) & 1u32 == 1u32)),
{
    b.as_slice()
}

} // verus!
