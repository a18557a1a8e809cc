//! Timestamps: the system clock and local-time rendering.

use std::time::{SystemTime, UNIX_EPOCH};
use vstd::prelude::*;

verus! {

/// Relies on `std::time::SystemTime::now`: the number of microseconds since
/// the Unix epoch as the system clock reports it (zero if the clock sits
/// before the epoch).  Nothing is promised of the value: it depends on the
/// machine's clock.
#[verifier::external_body]
pub fn current_timestamp_micros() -> u64 {
    SystemTime::now().duration_since(UNIX_EPOCH).unwrap_or_default().as_micros() as u64
}

/// Relies on chrono's `DateTime::from_timestamp`, `with_timezone` and
/// `format`: renders the given moment in the machine's local time zone as
/// `year-month-day hour:minute:second.microseconds` (the epoch when the
/// moment is out of chrono's range).  Nothing is promised of the text: it
/// depends on the machine's time zone database.
#[verifier::external_body]
fn format_local_datetime(secs: i64, nanos: u32) -> String {
    chrono::DateTime::<chrono::Utc>::from_timestamp(secs, nanos)
        .unwrap_or_default()
        .with_timezone(&chrono::Local)
        .format("%Y-%m-%d %H:%M:%S%.6f")
        .to_string()
}

/// The whole seconds and the nanosecond remainder of a microsecond
/// timestamp, the pair handed to the local-time renderer.
pub fn timestamp_parts(timestamp_micros: u64) -> (r: (i64, u32))
    ensures
        r.0 == timestamp_micros / 1000000,
        r.1 == (timestamp_micros % 1000000) * 1000,
        r.1 < 1000000000,
{
    let seconds = timestamp_micros / 1000000;
    let nanoseconds = (timestamp_micros % 1000000) * 1000;
    (seconds as i64, nanoseconds as u32)
}

/// Renders a microsecond timestamp in the machine's local time zone: the
/// decomposition into seconds and nanoseconds is pinned by
/// `timestamp_parts`; the text itself depends on the time zone.
pub fn format_timestamp_micros(timestamp_micros: u64) -> String {
    let parts = timestamp_parts(timestamp_micros);
    format_local_datetime(parts.0, parts.1)
}

} // verus!
