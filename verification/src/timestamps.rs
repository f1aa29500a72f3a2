//! Times as the catalog writes them down: RFC 3339 in UTC, with
//! milliseconds and a closing `Z`.

use crate::error::{CoreError, ErrorKind};
use crate::service::refuse;
use chrono::{DateTime, SecondsFormat, Utc};
use vstd::prelude::*;

verus! {

/// The RFC 3339 form, in UTC with milliseconds and `Z`, of the instant
/// `millis` milliseconds after the start of 1970; `None` for an instant
/// outside the range of the calendar.
pub uninterp spec fn rfc3339_millis(millis: int) -> Option<Seq<char>>;

/// The view of an optional text.
pub open spec fn opt_text(text: Option<String>) -> Option<Seq<char>> {
    match text {
        Some(t) => Some(t@),
        None => None,
    }
}

/// Makes the instant with `chrono::DateTime::from_timestamp_millis` and
/// writes it with `DateTime::to_rfc3339_opts`, asking for milliseconds and
/// `Z`. The result is a function of the number alone.
#[verifier::external_body]
fn format_millis(millis: i64) -> (r: Option<String>)
    ensures
        opt_text(r) == rfc3339_millis(millis as int),
{
    DateTime::<Utc>::from_timestamp_millis(millis).map(
        |t| t.to_rfc3339_opts(SecondsFormat::Millis, true),
    )
}

/// The instant `millis` milliseconds after the start of 1970 as the
/// catalog writes it down. An instant outside the range of the calendar is
/// refused.
pub fn timestamp(millis: i64) -> (r: Result<String, CoreError>)
    ensures
        match r {
            Ok(text) => rfc3339_millis(millis as int) == Some(text@),
            Err(e) => rfc3339_millis(millis as int) is None && e.is(
                ErrorKind::InvalidInput,
                "time is out of range"@,
            ),
        },
{
    match format_millis(millis) {
        Some(text) => Ok(text),
        None => Err(refuse(ErrorKind::InvalidInput, "time is out of range".to_owned())),
    }
}

} // verus!
