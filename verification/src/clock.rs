//! The wall-clock source for block and transaction timestamps.

use vstd::prelude::*;

verus! {

/// Relies on chrono::Utc::now / timestamp_millis: the current wall-clock time
/// in milliseconds. Nothing is promised of the value.
#[verifier::external_body]
pub(crate) fn now_millis() -> u64 {
    chrono::Utc::now().timestamp_millis() as u64
}

} // verus!
