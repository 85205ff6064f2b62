//! Calendar days as day numbers, and their `YYYY-MM-DD` texts.
use chrono::{Datelike, NaiveDate};
use vstd::prelude::*;

verus! {

/// The day number (days from the common era, 0001-01-01 being day 1) that a
/// `YYYY-MM-DD` text names, or `None` where the text names no date.
pub uninterp spec fn day_of_text(text: Seq<char>) -> Option<i32>;

/// The `YYYY-MM-DD` text of a day number, or `None` where the number lies
/// outside the calendar's range.
pub uninterp spec fn text_of_day(day: i32) -> Option<Seq<char>>;

/// Relies on chrono's `NaiveDate::parse_from_str` with the format `%Y-%m-%d`,
/// and on `Datelike::num_days_from_ce` to number the date it gives: the result
/// depends on the text alone.
#[verifier::external_body]
pub fn parse_day(text: &str) -> (r: Option<i32>)
    ensures
        r == day_of_text(text@),
{
    NaiveDate::parse_from_str(text, "%Y-%m-%d").ok().map(|d| d.num_days_from_ce())
}

/// Relies on chrono's `NaiveDate::from_num_days_from_ce_opt`, and on its
/// `format("%Y-%m-%d")` to write the date it gives: the result depends on the
/// day number alone.
#[verifier::external_body]
pub fn day_text(day: i32) -> (r: Option<String>)
    ensures
        match r {
            Some(s) => text_of_day(day) == Some(s@),
            None => text_of_day(day).is_none(),
        },
{
    NaiveDate::from_num_days_from_ce_opt(day).map(|d| d.format("%Y-%m-%d").to_string())
}

} // verus!
