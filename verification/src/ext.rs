//! The calls into outside crates that the order logic leans on: fresh
//! identifiers, the clock, and uniform random draws. Each is a thin wrapper
//! whose contract states only what the crate's documentation promises.

use rand::Rng;
use vstd::prelude::*;

verus! {

/// Relies on uuid's `Uuid::new_v4` and `Uuid::as_u128`: a freshly generated
/// random 128-bit identifier. The value is random, so nothing is promised of
/// it; callers treat every outcome alike.
#[verifier::external_body]
pub(crate) fn fresh_uuid() -> u128 {
    uuid::Uuid::new_v4().as_u128()
}

/// Relies on chrono's `Utc::now` and `DateTime::timestamp_millis`: the current
/// instant as milliseconds since the Unix epoch. The clock decides the value,
/// so nothing is promised of it.
#[verifier::external_body]
pub(crate) fn now_millis() -> i64 {
    chrono::Utc::now().timestamp_millis()
}

/// Relies on rand's `Rng::random_range` on an inclusive range: its
/// documentation promises a value drawn from the range, and a panic only on an
/// empty range, which `lo <= hi` rules out.
#[verifier::external_body]
pub(crate) fn random_between(lo: u64, hi: u64) -> (r: u64)
    requires
        lo <= hi,
    ensures
        lo <= r <= hi,
{
    rand::rng().random_range(lo..=hi)
}

} // verus!
