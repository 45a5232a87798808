//! The trusted boundary around `bit_vec::BitVec`, the packed bit vector that
//! backs the counter. `bits_of` names the bits a vector holds, and each
//! wrapper states over that name what the called method does.

use vstd::prelude::*;
use bit_vec::BitVec;

verus! {

/// Declares `bit_vec::BitVec` so it can stand in signatures and fields; its
/// values are opaque here and are read only through the wrappers below.
#[verifier::external_type_specification]
#[verifier::external_body]
#[verifier::reject_recursive_types(B)]
pub struct ExBitVec<B>(BitVec<B>);

/// The sequence of bits a `BitVec` holds, index 0 first.
pub uninterp spec fn bits_of(bv: BitVec) -> Seq<bool>;

/// Relies on bit_vec::BitVec::from_elem: a fresh vector of `len` bits, each
/// equal to `bit`.
#[verifier::external_body]
pub(crate) fn bits_new(len: usize, bit: bool) -> (r: BitVec)
    ensures
        bits_of(r) == Seq::new(len as nat, |i: int| bit),
{
    BitVec::from_elem(len, bit)
}

/// Relies on bit_vec::BitVec::len: the number of bits the vector holds.
#[verifier::external_body]
pub(crate) fn bits_len(bv: &BitVec) -> (r: usize)
    ensures
        r == bits_of(*bv).len(),
{
    bv.len()
}

/// Relies on bit_vec::BitVec::get: `Some` of the bit at `i` when `i` is in
/// bounds, `None` otherwise.
#[verifier::external_body]
pub(crate) fn bits_get(bv: &BitVec, i: usize) -> (r: Option<bool>)
    ensures
        r == (if i < bits_of(*bv).len() {
            Some(bits_of(*bv)[i as int])
        } else {
            None::<bool>
        }),
{
    bv.get(i)
}

/// Relies on bit_vec::BitVec::set: writes `bit` at index `i`. It panics when
/// `i` is out of bounds, so that case is excluded here.
#[verifier::external_body]
pub(crate) fn bits_set(bv: &mut BitVec, i: usize, bit: bool)
    requires
        i < bits_of(*old(bv)).len(),
    ensures
        bits_of(*final(bv)) == bits_of(*old(bv)).update(i as int, bit),
{
    bv.set(i, bit)
}

} // verus!
