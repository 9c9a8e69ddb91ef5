//! The two places where the simulation draws randomness, each behind a
//! trusted wrapper around the `rand` crate.

use vstd::prelude::*;
use rand::Rng;
use rand::seq::SliceRandom;

verus! {

/// Relies on rand::Rng::gen_range over `0..n`: it returns a value drawn
/// from the range, which must be non-empty.
#[verifier::external_body]
pub(crate) fn random_below(n: usize) -> (r: usize)
    requires
        n > 0,
    ensures
        r < n,
{
    let mut rng = rand::thread_rng();
    rng.gen_range(0..n)
}

/// Relies on rand::seq::SliceRandom::shuffle: it permutes the elements of
/// the slice in place, so every value keeps its number of occurrences.
#[verifier::external_body]
pub(crate) fn shuffle_cards(v: &mut Vec<i32>)
    ensures
        final(v)@.len() == old(v)@.len(),
        forall|c: i32|
            #[trigger] crate::counting::count_in(final(v)@, c) == crate::counting::count_in(
                old(v)@,
                c,
            ),
{
    let mut rng = rand::thread_rng();
    v.shuffle(&mut rng);
}

} // verus!
