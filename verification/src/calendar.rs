//! Calendar dates, as the `chrono` crate writes them.

use vstd::prelude::*;

verus! {

/// What `chrono` writes for the date with the given year, month and day:
/// the text that `NaiveDate`'s `Display` gives, which for the years 0 to
/// 9999 has the form `YYYY-MM-DD`, or `None` where `NaiveDate::from_ymd_opt`
/// finds that there is no such date.
pub uninterp spec fn iso_date_text(year: i32, month: u32, day: u32) -> Option<Seq<char>>;

/// The view of an optional string.
pub open spec fn text_of(s: Option<String>) -> Option<Seq<char>> {
    match s {
        Some(t) => Some(t@),
        None => None,
    }
}

/// `NaiveDate::from_ymd_opt` followed by `to_string`: the date as text, or
/// nothing where the three numbers are no date. Both depend on the three
/// numbers alone.
#[verifier::external_body]
pub(crate) fn format_date(year: i32, month: u32, day: u32) -> (text: Option<String>)
    ensures
        text_of(text) == iso_date_text(year, month, day),
{
    match chrono::NaiveDate::from_ymd_opt(year, month, day) {
        Some(date) => Some(date.to_string()),
        None => None,
    }
}

} // verus!
