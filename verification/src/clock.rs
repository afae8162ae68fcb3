//! The clock, as the library reads it.

use vstd::prelude::*;

verus! {

/// `chrono::Local::now().to_rfc3339()`: the current local time as an RFC 3339
/// string. Nothing is stated of the value, which depends on the time.
#[verifier::external_body]
pub(crate) fn now_rfc3339() -> String {
    chrono::Local::now().to_rfc3339()
}

/// `chrono::Local::now().format("%Y-%m-%dT%H:%M:%S")`: the current local
/// time to the second. Nothing is stated of the value, which depends on the
/// time and the machine's time zone.
#[verifier::external_body]
pub(crate) fn now_local_seconds() -> String {
    chrono::Local::now().format("%Y-%m-%dT%H:%M:%S").to_string()
}

/// `std::time::SystemTime::now()` as nanoseconds since the Unix epoch (0 when
/// the clock reads before the epoch). Nothing is stated of the value.
#[verifier::external_body]
pub(crate) fn now_nanos() -> u128 {
    std::time::SystemTime::now().duration_since(std::time::UNIX_EPOCH).map(|d| d.as_nanos()).unwrap_or(0)
}

} // verus!
