//! Wall-clock time, through chrono. Moments are milliseconds since the Unix epoch.

use vstd::prelude::*;

verus! {

/// The patterns this crate formats moments with.
pub open spec fn known_pattern(p: Seq<char>) -> bool {
    p == "%Y%m%d_%H%M%S"@ || p == "%Y-%m-%d %H:%M"@
}

/// The current moment: chrono's `Local::now`, as milliseconds since the epoch.
/// Nothing is promised of the value: it is the time.
#[verifier::external_body]
pub(crate) fn now_millis() -> i64 {
    chrono::Local::now().timestamp_millis()
}

/// The local time of a moment written with a strftime pattern: chrono's
/// `DateTime::format` on the moment in the `Local` time zone; empty for a
/// moment outside chrono's range. The text depends on the machine's time zone,
/// so nothing is promised of it.
#[verifier::external_body]
pub(crate) fn format_local(millis: i64, pattern: &str) -> String
    requires
        known_pattern(pattern@),
{
    match chrono::DateTime::from_timestamp_millis(millis) {
        Some(t) => t.with_timezone(&chrono::Local).format(pattern).to_string(),
        None => String::new(),
    }
}

} // verus!
