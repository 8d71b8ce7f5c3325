//! The cell buffer: fixedbitset's `FixedBitSet`, seen by the proofs as the
//! sequence of booleans it holds.

use vstd::prelude::*;
use fixedbitset::FixedBitSet;

verus! {

#[verifier::external_type_specification]
#[verifier::external_body]
pub struct ExFixedBitSet(FixedBitSet);

/// The bits a `FixedBitSet` holds, in index order; its length is the set's
/// length in bits.
pub uninterp spec fn bits_of(b: FixedBitSet) -> Seq<bool>;

/// Relies on `FixedBitSet::with_capacity`: a set of `n` bits, all clear.
#[verifier::external_body]
pub(crate) fn cleared(n: usize) -> (r: FixedBitSet)
    ensures
        bits_of(r).len() == n,
        forall|i: int| 0 <= i < n ==> !bits_of(r)[i],
{
    FixedBitSet::with_capacity(n)
}

/// Relies on `FixedBitSet::set`: bit `i` becomes `v`, the others and the
/// length stay; it panics at `i` past the length, which `requires` excludes.
#[verifier::external_body]
pub(crate) fn put(b: &mut FixedBitSet, i: usize, v: bool)
    requires
        i < bits_of(*old(b)).len(),
    ensures
        bits_of(*final(b)) == bits_of(*old(b)).update(i as int, v),
{
    b.set(i, v);
}

/// Relies on indexing a `FixedBitSet` (`Index<usize>`, through `contains`):
/// the bit at `i`.
#[verifier::external_body]
pub(crate) fn get(b: &FixedBitSet, i: usize) -> (r: bool)
    requires
        i < bits_of(*b).len(),
    ensures
        r == bits_of(*b)[i as int],
{
    b[i]
}

/// Relies on `FixedBitSet::clone`: a set with the same bits and length.
#[verifier::external_body]
pub(crate) fn duplicate(b: &FixedBitSet) -> (r: FixedBitSet)
    ensures
        bits_of(r) == bits_of(*b),
{
    b.clone()
}

} // verus!
