//! The two points where the library touches the machine: the clock and the
//! random-number generator. Both are trusted wrappers; nothing is assumed of
//! the values they return.

use vstd::prelude::*;

verus! {

/// Nanoseconds since the Unix epoch.
///
/// Relies on `chrono::Utc::now` and `DateTime::timestamp_nanos_opt`; no
/// property of the clock's reading is assumed, so no `ensures` is stated.
#[verifier::external_body]
pub fn now_timestamp_nanos() -> i64 {
    chrono::Utc::now().timestamp_nanos_opt().unwrap_or_default()
}

/// A fresh random identifier.
///
/// Relies on `rand::random`; the value is unconstrained, so no `ensures` is
/// stated.
#[verifier::external_body]
pub fn random_u64() -> u64 {
    rand::random::<u64>()
}

} // verus!
