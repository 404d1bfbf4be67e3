//! The local time, as the log and backup names write it.

use vstd::prelude::*;

verus! {

/// The two time formats the library writes: `20240601120000` for backup
/// names and `2024-06-01T12:00:00+02:00` for the log.
pub open spec fn known_time_format(format: Seq<char>) -> bool {
    format == "%Y%m%d%H%M%S"@ || format == "%Y-%m-%dT%H:%M:%S%:z"@
}

/// Calls `chrono::Local::now` and writes the time with `DateTime::format`.
/// Nothing is claimed of the text: it depends on the clock and the
/// machine's time zone. Only the library's two formats are accepted; both
/// are valid strftime formats (an invalid one makes writing the text
/// panic).
#[verifier::external_body]
pub(crate) fn local_time(format: &str) -> (r: String)
    requires
        known_time_format(format@),
{
    chrono::Local::now().format(format).to_string()
}

} // verus!
