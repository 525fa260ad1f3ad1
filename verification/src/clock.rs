//! The wall clock, read in one place.

use vstd::prelude::*;

verus! {

/// Seconds since the Unix epoch now, as `SystemTime::now()` reports them
/// (0 if the clock reads before the epoch). Nothing is promised of the
/// value: it is the time.
#[verifier::external_body]
pub(crate) fn now_unix_secs() -> (r: i64) {
    std::time::SystemTime::now().duration_since(std::time::UNIX_EPOCH).unwrap_or_default().as_secs() as i64
}

} // verus!
