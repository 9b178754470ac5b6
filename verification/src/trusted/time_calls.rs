//! Calls into the `time` crate.

use vstd::prelude::*;

verus! {

/// Calls `time::OffsetDateTime::now_utc` and reads the instant as nanoseconds
/// since the Unix epoch. The clock decides the value; nothing is promised of it.
#[verifier::external_body]
pub(crate) fn now_unix_nanos() -> (r: i128) {
    time::OffsetDateTime::now_utc().unix_timestamp_nanos()
}

} // verus!
