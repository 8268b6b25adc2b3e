use vstd::prelude::*;

verus! {

/// Latest timestamp the library handles: 9999-12-31T23:59:59.999999 UTC,
/// counted in microseconds since the UNIX epoch.
pub const MAX_TIMESTAMP: i64 = 253_402_300_799_999_999;

/// The text that the date-time library prints for a microsecond timestamp.
pub uninterp spec fn iso_of(t: int) -> Seq<char>;

/// Relies on chrono's `Utc::now` and `DateTime::timestamp_micros`: the current
/// wall-clock time as microseconds since the UNIX epoch. Nothing is promised
/// of the value; the system clock may jump in either direction.
#[verifier::external_body]
fn now_micros() -> i64 {
    chrono::Utc::now().timestamp_micros()
}

/// Relies on chrono's `DateTime::from_timestamp_micros`, which is defined on
/// the whole admitted range, and on `NaiveDateTime`'s display: the printed
/// text depends on the microsecond value alone.
#[verifier::external_body]
pub(crate) fn format_timestamp(t: i64) -> (r: String)
    requires
        0 <= t <= MAX_TIMESTAMP,
    ensures
        r@ == iso_of(t as int),
{
    let dt = chrono::DateTime::<chrono::Utc>::from_timestamp_micros(t).unwrap();
    dt.naive_utc().to_string()
}

/// The current time, clamped into the range the library renders.
pub(crate) fn current_time() -> (t: i64)
    ensures
        0 <= t <= MAX_TIMESTAMP,
{
    let raw = now_micros();
    if raw < 0 {
        0
    } else if raw > MAX_TIMESTAMP {
        MAX_TIMESTAMP
    } else {
        raw
    }
}

} // verus!
