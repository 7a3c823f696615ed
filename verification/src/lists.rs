//! Short lists of masks, kept inline while they are short.
//!
//! The lists are `smallvec` vectors. What they hold is known to the rest of the library
//! only through the contracts stated here, which are taken on trust.

use vstd::prelude::*;
use smallvec::SmallVec;

verus! {

/// A list of masks in a `smallvec` vector, which is opaque to the verifier.
#[verifier::external_body]
#[derive(Debug)]
pub struct MaskList {
    inner: SmallVec<[u64; 2]>,
}

/// The masks that a list holds, in the order in which they were pushed.
pub uninterp spec fn masks(v: MaskList) -> Seq<u64>;

/// `SmallVec::new`: the new list holds nothing.
#[verifier::external_body]
pub(crate) fn list_new() -> (v: MaskList)
    ensures
        masks(v) == Seq::<u64>::empty(),
{
    MaskList { inner: SmallVec::new() }
}

/// `SmallVec::push`: the list holds what it held, then the new mask. Lists of 65536
/// masks or more are left out: the vector panics when its capacity overflows.
#[verifier::external_body]
pub(crate) fn list_push(v: &mut MaskList, mask: u64)
    requires
        masks(*old(v)).len() < 65536,
    ensures
        masks(*final(v)) == masks(*old(v)).push(mask),
{
    v.inner.push(mask)
}

/// `SmallVec::as_slice`: the slice holds what the list holds.
#[verifier::external_body]
pub(crate) fn list_slice(v: &MaskList) -> (s: &[u64])
    ensures
        s@ == masks(*v),
{
    v.inner.as_slice()
}

} // verus!
