use vstd::prelude::*;

verus! {

/// Relies on `chrono::DateTime::from_timestamp` and
/// `chrono::DateTime::to_rfc3339`, with the clock read through
/// `std::time::SystemTime`: the current instant, formatted. A clock
/// before the epoch or beyond the library's range falls back to the
/// epoch, so the call always returns. The text depends on the clock, so
/// nothing is assumed of it beyond being non-empty.
#[verifier::external_body]
pub(crate) fn now_rfc3339() -> (r: String)
    ensures
        r@.len() > 0,
{
    let dur = std::time::SystemTime::now()
        .duration_since(std::time::UNIX_EPOCH)
        .unwrap_or_default();
    let dt = chrono::DateTime::<chrono::Utc>::from_timestamp(dur.as_secs() as i64, dur.subsec_nanos())
        .unwrap_or_default();
    dt.to_rfc3339()
}

/// Relies on `chrono::DateTime::format` with `%Y-%m-%d`, on the same
/// epoch-fallback timestamp as `now_rfc3339`: the current date. The date
/// depends on the clock, so nothing is assumed of it beyond being
/// non-empty.
#[verifier::external_body]
pub(crate) fn today_stamp() -> (r: String)
    ensures
        r@.len() > 0,
{
    let dur = std::time::SystemTime::now()
        .duration_since(std::time::UNIX_EPOCH)
        .unwrap_or_default();
    let dt = chrono::DateTime::<chrono::Utc>::from_timestamp(dur.as_secs() as i64, dur.subsec_nanos())
        .unwrap_or_default();
    dt.format("%Y-%m-%d").to_string()
}

} // verus!
