//! Wall-clock time, in whole seconds since the Unix epoch, and its calendar form.

use vstd::prelude::*;

verus! {

/// The calendar text `YYYY-MM-DD HH:MM:SS` (UTC) of the instant `seconds` after
/// the Unix epoch, or `None` where the calendar cannot hold that instant.
pub uninterp spec fn calendar_text(seconds: int) -> Option<Seq<char>>;

/// Calls `chrono::Utc::now` and reads the instant with `DateTime::timestamp`:
/// whole seconds since the Unix epoch. Nothing is claimed of the value, which
/// is the machine's clock. `Utc::now` panics if that clock stands before 1970.
#[verifier::external_body]
pub(crate) fn now_seconds() -> (seconds: i64) {
    chrono::Utc::now().timestamp()
}

/// Calls `chrono::DateTime::from_timestamp` and formats the instant with
/// `DateTime::format` under the pattern `%Y-%m-%d %H:%M:%S`. The contract only
/// names the result: it depends on the number alone, and is `None` exactly
/// where `from_timestamp` is.
#[verifier::external_body]
pub(crate) fn format_seconds(seconds: i64) -> (text: Option<String>)
    ensures
        match text {
            Some(t) => calendar_text(seconds as int) == Some(t@),
            None => calendar_text(seconds as int) is None,
        },
{
    chrono::DateTime::from_timestamp(seconds, 0).map(|t| t.format("%Y-%m-%d %H:%M:%S").to_string())
}

} // verus!
