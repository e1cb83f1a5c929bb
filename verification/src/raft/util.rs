//! Randomized election timeouts.
use vstd::prelude::*;
use crate::raft::config::{ELECTION_TIMEOUT_MAX_MILLIS, ELECTION_TIMEOUT_MIN_MILLIS};

verus! {

/// Calls `rand::random_range` on the half-open range `low..high`.
///
/// Trusted: the value lies in the range. The call panics on an empty range, which
/// the precondition excludes. Nothing else is claimed; two calls may differ.
#[verifier::external_body]
fn random_in_range(low: u64, high: u64) -> (r: u64)
    requires
        low < high,
    ensures
        low <= r < high,
{
    rand::random_range(low..high)
}

/// A fresh election timeout in milliseconds, drawn at random from
/// `ELECTION_TIMEOUT_MIN_MILLIS..ELECTION_TIMEOUT_MAX_MILLIS`.
pub fn rand_election_timeout() -> (millis: u64)
    ensures
        ELECTION_TIMEOUT_MIN_MILLIS <= millis < ELECTION_TIMEOUT_MAX_MILLIS,
{
    random_in_range(ELECTION_TIMEOUT_MIN_MILLIS, ELECTION_TIMEOUT_MAX_MILLIS)
}

} // verus!
