//! The time of day.

use std::time::{SystemTime, UNIX_EPOCH};
use vstd::prelude::*;

verus! {

/// `SystemTime::now` of std as seconds since the epoch, unless the clock is set before it.
/// What time it is is left open.
#[verifier::external_body]
pub(crate) fn unix_seconds() -> Option<u64> {
    SystemTime::now().duration_since(UNIX_EPOCH).ok().map(|d| d.as_secs())
}

} // verus!
