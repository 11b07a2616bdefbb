//! Draws from the thread-local generator of `rand`. Nothing is known of a
//! draw beyond the range it falls in.
use vstd::prelude::*;
use rand::seq::SliceRandom;
use rand::Rng;

verus! {

/// Relies on `rand::Rng::gen_range` over `lo..hi`: a value in that range,
/// which is not empty.
#[verifier::external_body]
pub(crate) fn random_below(lo: usize, hi: usize) -> (r: usize)
    requires
        lo < hi,
    ensures
        lo <= r < hi,
{
    rand::thread_rng().gen_range(lo..hi)
}

/// Relies on `rand::seq::SliceRandom::choose`: one element of `items`, or
/// nothing when `items` is empty.
#[verifier::external_body]
pub(crate) fn pick(items: &Vec<String>) -> (r: Option<String>)
    ensures
        r is None <==> items@.len() == 0,
        r is Some ==> items@.contains(r->0),
{
    items.choose(&mut rand::thread_rng()).cloned()
}

/// Relies on `rand::seq::SliceRandom::shuffle`: the items are reordered and
/// none is added or lost.
#[verifier::external_body]
pub(crate) fn shuffle(items: &mut Vec<String>)
    ensures
        final(items)@.to_multiset() == old(items)@.to_multiset(),
{
    items.shuffle(&mut rand::thread_rng())
}

} // verus!
