//! Dates, the clock and fresh identifiers.

use vstd::prelude::*;
use vstd::string::{StrSliceExecFns, StringExecFns};
use crate::entry::fresh_id;
use crate::text::{to_chars, trim_bounds, trimmed};

verus! {

/// What `chrono::DateTime::parse_from_str` makes of a text under a format:
/// the moment that it reads, in seconds since the Unix epoch, or `None`
/// where it does not accept the text.
pub uninterp spec fn parsed_timestamp(text: Seq<char>, format: Seq<char>) -> Option<i64>;

/// The moment at which a day begins, for a date written as day, month and
/// year with `/` between them: what the parser makes of the trimmed date
/// with midnight in UTC put behind it.
pub open spec fn date_timestamp(date: Seq<char>) -> Option<i64> {
    parsed_timestamp(trimmed(date) + " 00:00:00 +0000"@, "%d/%m/%Y %H:%M:%S %z"@)
}

/// Calls `chrono::DateTime::parse_from_str` and hands back the moment read
/// as seconds since the Unix epoch (`DateTime::timestamp`), or `None`
/// where the parser returns an error. The contract only gives the result
/// its name.
#[verifier::external_body]
fn parse_timestamp(text: &str, format: &str) -> (parsed: Option<i64>)
    ensures
        parsed == parsed_timestamp(text@, format@),
{
    match chrono::DateTime::parse_from_str(text, format) {
        Ok(moment) => Some(moment.timestamp()),
        Err(_) => None,
    }
}

/// The current moment by `chrono::Utc::now`, in seconds since the Unix
/// epoch. The value depends on the clock, so nothing is stated of it. (The
/// call does not return on a machine whose clock stands before the
/// epoch.)
#[verifier::external_body]
pub fn get_current_datetime() -> (now: i64) {
    chrono::Utc::now().timestamp()
}

/// The moment at which the day of `date` begins, in seconds since the Unix
/// epoch, for a date written as day, month and year with `/` between
/// them; white space around the date is ignored. `None` for a text that is
/// no such date.
pub fn parse_date(date: &str) -> (moment: Option<i64>)
    ensures
        moment == date_timestamp(date@),
{
    let chars = to_chars(date);
    let (start, end) = trim_bounds(&chars);
    let text = date.substring_char(start, end).to_string().concat(" 00:00:00 +0000");
    parse_timestamp(text.as_str(), "%d/%m/%Y %H:%M:%S %z")
}

/// The moment at which the day of `date` begins, for a text that is a
/// date.
pub fn date_str_to_datetime(date: &str) -> (moment: i64)
    requires
        date_timestamp(date@) is Some,
    ensures
        Some(moment) == date_timestamp(date@),
{
    match parse_date(date) {
        Some(moment) => moment,
        None => vstd::pervasive::unreached(),
    }
}

/// The moment at which the day of `date` begins, or `None` for a text that
/// is no date.
pub fn try_date_str_to_datetime(date: &str) -> (moment: Option<i64>)
    ensures
        moment == date_timestamp(date@),
{
    if parse_date(date).is_some() {
        Some(date_str_to_datetime(date))
    } else {
        None
    }
}

/// Draws as many fresh identifiers as asked for.
pub fn fresh_ids(count: usize) -> (ids: Vec<u128>)
    ensures
        ids@.len() == count,
{
    let mut ids: Vec<u128> = Vec::new();
    let mut i: usize = 0;
    while i < count
        invariant
            i <= count,
            ids@.len() == i,
        decreases count - i,
    {
        ids.push(fresh_id());
        i = i + 1;
    }
    ids
}

} // verus!
