use vstd::prelude::*;

use crate::model::Timestamp;

verus! {

#[verifier::external_type_specification]
#[verifier::external_body]
pub struct ExOffsetDateTime(time::OffsetDateTime);

/// Relies on `time::OffsetDateTime::now_utc`: reads the system clock; nothing
/// is known of the value.
pub assume_specification[ time::OffsetDateTime::now_utc ]() -> time::OffsetDateTime;

/// Relies on `time::OffsetDateTime::unix_timestamp`: the whole seconds since
/// the Unix epoch.
pub assume_specification[ time::OffsetDateTime::unix_timestamp ](
    t: time::OffsetDateTime,
) -> i64;

/// Relies on `time::OffsetDateTime::microsecond`, documented to return a value
/// in `0..1_000_000`.
pub assume_specification[ time::OffsetDateTime::microsecond ](t: time::OffsetDateTime) -> (r: u32)
    ensures
        r < 1_000_000,
;

/// The current time, from the system clock.
pub fn now() -> (r: Timestamp)
    ensures
        r.micros < 1_000_000,
{
    let t = time::OffsetDateTime::now_utc();
    Timestamp { secs: t.unix_timestamp(), micros: t.microsecond() }
}

} // verus!
