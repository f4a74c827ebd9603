//! The system clock.

use vstd::prelude::*;

verus! {

#[verifier::external_type_specification]
#[verifier::external_body]
pub struct ExSystemTime(std::time::SystemTime);

/// Relies on `SystemTime::now`: the current time of the system clock.
pub assume_specification[ std::time::SystemTime::now ]() -> std::time::SystemTime;

/// Relies on `Duration::as_secs`: the whole seconds of a duration.
pub assume_specification[ core::time::Duration::as_secs ](d: &core::time::Duration) -> u64;

/// Relies on `SystemTime::duration_since` with `UNIX_EPOCH`: the time
/// since the Unix epoch, `None` where `t` lies before it.
#[verifier::external_body]
fn since_unix_epoch(t: &std::time::SystemTime) -> (r: Option<core::time::Duration>) {
    t.duration_since(std::time::UNIX_EPOCH).ok()
}

/// The whole seconds since the Unix epoch now, or `None` where the system
/// clock lies before it.
pub fn time_since_epoch() -> (r: Option<u64>) {
    let now = std::time::SystemTime::now();
    match since_unix_epoch(&now) {
        Some(d) => Some(d.as_secs()),
        None => None,
    }
}

} // verus!
