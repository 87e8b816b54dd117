//! The wall clock, behind a single trusted call.

use vstd::prelude::*;

verus! {

/// Relies on `chrono::Utc::now`: the current time in seconds since the epoch.
/// The value depends on the moment of the call, so nothing is assumed of it.
#[verifier::external_body]
pub(crate) fn time_now() -> i64 {
    chrono::Utc::now().timestamp()
}

} // verus!
