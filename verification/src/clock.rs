//! The one place where the library asks what time it is.

use vstd::prelude::*;

verus! {

/// The clock behind every `last_access` stamp: `time::precise_time_ns`, a high-resolution
/// counter in nanoseconds since an epoch that the `time` crate leaves unspecified. On Unix
/// it is a reading of the monotonic clock.
///
/// Trusted, and silent on purpose: the reading depends on the moment of the call, so nothing
/// is claimed about it, not even that two readings are ordered. The code that compares
/// stamps is verified for every `u64`.
#[verifier::external_body]
pub(crate) fn precise_time_ns() -> (ns: u64) {
    time::precise_time_ns()
}

} // verus!
