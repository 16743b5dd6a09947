//! The two calls the pool core makes into outside crates: the wall clock for
//! ban timestamps, and the uniform shuffle that underlies load balancing.

use vstd::prelude::*;

verus! {

/// Relies on chrono's `Utc::now` and `DateTime::timestamp`: seconds since the
/// Unix epoch. The value depends on the wall clock, so nothing is promised of
/// it; callers state what holds for every timestamp.
#[verifier::external_body]
pub fn now_utc_timestamp() -> i64 {
    chrono::offset::Utc::now().timestamp()
}

/// Relies on rand's `SliceRandom::shuffle`: permutes the slice in place and
/// neither adds nor drops an element. Which permutation comes out depends on
/// the thread's generator, so only the multiset of elements is stated.
#[verifier::external_body]
pub fn shuffle_indices(v: &mut Vec<usize>)
    ensures
        final(v)@.len() == old(v)@.len(),
        final(v)@.to_multiset() == old(v)@.to_multiset(),
{
    rand::seq::SliceRandom::shuffle(v.as_mut_slice(), &mut rand::thread_rng());
}

} // verus!
