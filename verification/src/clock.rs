//! The current time.

use vstd::prelude::*;
use crate::models::Timestamp;

verus! {

/// The current time: the system clock as `chrono` reads it through
/// `DateTime::<Utc>::from(SystemTime)`, which gives a clock that stands
/// before the Unix epoch a negative number of seconds, and which covers
/// every time `chrono` can represent, some 262 000 years to either side of
/// the epoch. Nothing is claimed of the result: it is whatever the clock of
/// the machine says.
#[verifier::external_body]
pub(crate) fn utc_now() -> (now: Timestamp) {
    let now = chrono::DateTime::<chrono::Utc>::from(std::time::SystemTime::now());
    Timestamp { secs: now.timestamp(), nanos: now.timestamp_subsec_nanos() }
}

} // verus!
