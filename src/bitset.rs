//! The bit storage of a grid, `fixedbitset::FixedBitSet`, and what this
//! library relies on of it.

use fixedbitset::FixedBitSet;
use vstd::prelude::*;

verus! {

#[verifier::external_type_specification]
#[verifier::external_body]
pub struct ExFixedBitSet(FixedBitSet);

/// The bits held by a `FixedBitSet`, one `bool` per bit position, in order;
/// its length is the set's bit length.
pub uninterp spec fn bits_of(s: FixedBitSet) -> Seq<bool>;

/// Relies on `FixedBitSet::with_capacity`: a set of `n` bits, all of them clear.
#[verifier::external_body]
pub(crate) fn new_clear(n: usize) -> (r: FixedBitSet)
    ensures
        bits_of(r) == Seq::new(n as nat, |i: int| false),
{
    FixedBitSet::with_capacity(n)
}

/// Relies on `FixedBitSet::set`: bit `i` takes the value `v`, the others keep
/// theirs. It panics when `i` is not below the bit length.
#[verifier::external_body]
pub(crate) fn set_bit(s: &mut FixedBitSet, i: usize, v: bool)
    requires
        i < bits_of(*old(s)).len(),
    ensures
        bits_of(*final(s)) == bits_of(*old(s)).update(i as int, v),
{
    s.set(i, v)
}

/// Relies on `FixedBitSet::contains`: whether bit `i` is set.
#[verifier::external_body]
pub(crate) fn get_bit(s: &FixedBitSet, i: usize) -> (r: bool)
    requires
        i < bits_of(*s).len(),
    ensures
        r == bits_of(*s)[i as int],
{
    s.contains(i)
}

} // verus!
