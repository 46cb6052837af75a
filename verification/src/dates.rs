use vstd::prelude::*;

verus! {

/// The timestamp that a text in the minute-precision form `YYYY-MM-DDTHH:MM`
/// denotes, as seconds since the epoch, or `None` where the text is not of
/// that form. The value depends on the characters alone.
pub uninterp spec fn stamp_of(s: Seq<char>) -> Option<i64>;

/// Relies on chrono::NaiveDateTime::parse_from_str with the fixed format
/// `%Y-%m-%dT%H:%M` to read a minute-precision timestamp, and on
/// NaiveDateTime::and_utc together with DateTime::timestamp to turn the parsed
/// value into seconds since the epoch. The outcome is a function of the input
/// text alone; an unparsable text gives `None`.
#[verifier::external_body]
pub fn parse_stamp(s: &str) -> (r: Option<i64>)
    ensures
        r == stamp_of(s@),
{
    chrono::NaiveDateTime::parse_from_str(s, "%Y-%m-%dT%H:%M")
        .ok()
        .map(|dt| dt.and_utc().timestamp())
}

} // verus!
