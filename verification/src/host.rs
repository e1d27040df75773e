//! Bindings to the host environment: the wall clock, the local calendar and
//! the uid generator.

use vstd::prelude::*;

verus! {

/// Relies on chrono's `Utc::now`: the current wall-clock instant in unix
/// seconds.  Nothing is assumed of the value; callers state what holds of
/// every instant.
#[verifier::external_body]
pub(crate) fn now_ts() -> i64 {
    chrono::Utc::now().timestamp()
}

/// Relies on uuid's `Uuid::new_v4` and its display form: a random version-4
/// uuid rendered hyphenated, which is 36 characters long.  Nothing is assumed
/// about which uuid comes back.
#[verifier::external_body]
pub(crate) fn fresh_uid() -> (r: String)
    ensures
        r@.len() == 36,
{
    uuid::Uuid::new_v4().to_string()
}

/// Relies on chrono's `DateTime::from_timestamp`, `Local` and `format`: the
/// calendar date of the given unix instant in the host's local time zone,
/// rendered year-month-day.  An instant chrono cannot represent yields the
/// empty string, which no year-month-day date equals.  The result depends on
/// the host time zone, so nothing is assumed of it.
#[verifier::external_body]
pub(crate) fn local_day(ts: i64) -> String {
    match chrono::DateTime::<chrono::Utc>::from_timestamp(ts, 0) {
        Some(dt) => dt.with_timezone(&chrono::Local).format("%Y-%m-%d").to_string(),
        None => String::new(),
    }
}

} // verus!
