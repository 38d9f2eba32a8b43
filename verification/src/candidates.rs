//! The candidates that are mixed for one pixel, kept in an `ArrayVec` of at
//! most 64.

use arrayvec::ArrayVec;
use vstd::prelude::*;

verus! {

/// `arrayvec::ArrayVec`: what it holds is known through [`candidate_items`]
/// alone.
#[verifier::external_type_specification]
#[verifier::external_body]
#[verifier::reject_recursive_types(T)]
pub struct ExArrayVec<T, const CAP: usize>(ArrayVec<T, CAP>);

/// A candidate as it is kept: the brightness of its colour and its index in
/// the palette.
pub type Shade = (u32, u8);

/// The candidates of one pixel.
pub type Candidates = ArrayVec<Shade, 64>;

/// The most candidates that there can be.
pub const MAX_CANDIDATES: usize = 64;

/// The candidates that an `ArrayVec` holds, in their order.
pub uninterp spec fn candidate_items(c: Candidates) -> Seq<Shade>;

/// No candidates.
/// Trusted: `arrayvec::ArrayVec::new` returns a vector without elements.
#[verifier::external_body]
pub(crate) fn candidates_new() -> (c: Candidates)
    ensures
        candidate_items(c).len() == 0,
{
    ArrayVec::new()
}

/// The candidates as a slice.
/// Trusted: `arrayvec::ArrayVec::as_slice` returns the elements in their
/// order; there are never more than the capacity, 64.
#[verifier::external_body]
pub(crate) fn candidates_slice(c: &Candidates) -> (s: &[Shade])
    ensures
        s@ == candidate_items(*c),
        s@.len() <= MAX_CANDIDATES,
{
    c.as_slice()
}

/// Puts `shade` in at `index`.
/// Trusted: `arrayvec::ArrayVec::insert` puts the element in at the index and
/// moves those from the index on up by one; it panics where the index lies
/// beyond the end or the vector is full.
#[verifier::external_body]
pub(crate) fn candidates_insert(c: &mut Candidates, index: usize, shade: Shade)
    requires
        index <= candidate_items(*old(c)).len(),
        candidate_items(*old(c)).len() < MAX_CANDIDATES,
    ensures
        candidate_items(*final(c)) == candidate_items(*old(c)).insert(index as int, shade),
{
    c.insert(index, shade);
}

} // verus!
