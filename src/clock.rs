use vstd::prelude::*;

verus! {

/// std's wall-clock instant, carried through opaque.
#[verifier::external_type_specification]
#[verifier::external_body]
pub struct ExSystemTime(std::time::SystemTime);

/// Relies on std::time::SystemTime::now: the current wall-clock time. Nothing
/// is promised of its value.
pub assume_specification[ std::time::SystemTime::now ]() -> std::time::SystemTime;

/// Relies on std::time::SystemTime::elapsed: the whole seconds from `t` to
/// now, or `None` when the system clock now reads earlier than `t`. Nothing
/// is promised of the value, which depends on the time.
#[verifier::external_body]
pub(crate) fn seconds_since(t: &std::time::SystemTime) -> (r: Option<u64>) {
    t.elapsed().ok().map(|d| d.as_secs())
}

} // verus!
