//! The wall clock, read once per operation and handed on as a plain number.

use vstd::prelude::*;

verus! {

/// Reads the current time as seconds since the Unix epoch by calling
/// `chrono::Utc::now()` and taking its `timestamp()`.
///
/// Verus does not look into this call, and nothing is claimed of the value
/// that comes back: the clock may stand still or step backwards between two
/// calls. `Utc::now` itself gives up with a panic on a machine whose clock
/// is set before 1970.
#[verifier::external_body]
pub(crate) fn unix_now() -> i64 {
    chrono::Utc::now().timestamp()
}

/// The current time in seconds since the Unix epoch. Whoever needs a result
/// that can be told in advance passes the time in instead: every operation
/// that reads the clock has a twin, named with a trailing `_at`, that takes
/// it as an argument.
pub fn now() -> i64 {
    unix_now()
}

} // verus!
