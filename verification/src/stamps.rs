//! Identifiers and timestamps. Record ids are random (`uuid`) and record
//! times come from the clock (`chrono`); the library carries both through
//! unchanged.

use vstd::prelude::*;

verus! {

#[verifier::external_type_specification]
#[verifier::external_body]
pub struct ExUuid(uuid::Uuid);

/// A UTC instant: whole seconds since the Unix epoch and the nanoseconds
/// within that second (the two numbers `chrono::DateTime<Utc>` is made of).
#[derive(Debug, Clone, Copy, PartialEq, Eq, Structural)]
pub struct Timestamp {
    pub secs: i64,
    pub nanos: u32,
}

/// `chrono::Utc::now()`, as seconds and nanoseconds. Nothing is claimed of
/// the value, which depends on the clock.
#[verifier::external_body]
pub(crate) fn utc_now() -> Timestamp {
    let now = chrono::Utc::now();
    Timestamp { secs: now.timestamp(), nanos: now.timestamp_subsec_nanos() }
}

/// `uuid::Uuid::new_v4()`: a fresh random id. Nothing is claimed of the value,
/// which is random.
#[verifier::external_body]
pub(crate) fn new_uuid() -> uuid::Uuid {
    uuid::Uuid::new_v4()
}

} // verus!
