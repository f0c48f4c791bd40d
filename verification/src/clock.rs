//! Instants and dates.
//!
//! An instant is a number of nanoseconds since the Unix epoch.

use crate::text;
use vstd::prelude::*;

verus! {

pub const NANOS_PER_SEC: i128 = 1_000_000_000;

pub const NANOS_PER_DAY: i128 = 86_400_000_000_000;

/// The start of the year -9999.
pub const CALENDAR_START: i128 = -377_705_116_800_000_000_000;

/// The start of the year 0.
pub const YEAR_ZERO: i128 = -62_167_219_200_000_000_000;

/// The end of the year 9999.
pub const YEAR_TEN_THOUSAND: i128 = 253_402_300_800_000_000_000;

/// An instant that the calendar has: one of the years -9999 to 9999.
pub open spec fn in_calendar(t: i128) -> bool {
    CALENDAR_START <= t < YEAR_TEN_THOUSAND
}

/// An instant that the form of RFC 3339 can write: one that is in the years 0
/// to 9999 at some offset from UTC of less than a day.
pub open spec fn can_be_written(t: i128) -> bool {
    YEAR_ZERO - NANOS_PER_DAY < t < YEAR_TEN_THOUSAND + NANOS_PER_DAY
}

/// `time::OffsetDateTime::now_utc`. The instant depends on the clock; it is
/// one of the calendar.
#[verifier::external_body]
pub(crate) fn now() -> (t: i128)
    ensures
        in_calendar(t),
{
    time::OffsetDateTime::now_utc().unix_timestamp_nanos()
}

/// The instant that a text writes in the form of RFC 3339.
pub uninterp spec fn instant_of(s: Seq<char>) -> Option<i128>;

/// `time::OffsetDateTime::parse` with the format `Rfc3339`. Whether it
/// succeeds, and what it gives, depends on the text alone. The text holds a day
/// of the years 0 to 9999 and an offset of less than a day.
#[verifier::external_body]
pub(crate) fn parse_rfc3339(s: &str) -> (r: Option<i128>)
    ensures
        r == instant_of(s@),
        r matches Some(t) ==> can_be_written(t),
{
    let format = time::format_description::well_known::Rfc3339;
    time::OffsetDateTime::parse(s, &format).ok().map(|t| t.unix_timestamp_nanos())
}

/// An instant in the form of RFC 3339, in UTC.
pub uninterp spec fn rfc3339(t: i128) -> Seq<char>;

/// `time::OffsetDateTime::from_unix_timestamp_nanos`, then
/// `OffsetDateTime::format` with the format `Rfc3339`. Exactly the instants of
/// the years 0 to 9999 have such a form. It depends on the instant alone, and
/// reading it back gives the instant.
#[verifier::external_body]
pub(crate) fn format_rfc3339(t: i128) -> (r: Option<String>)
    ensures
        r is Some <==> YEAR_ZERO <= t < YEAR_TEN_THOUSAND,
        r matches Some(s) ==> s@ == rfc3339(t) && instant_of(s@) == Some(t),
{
    let format = time::format_description::well_known::Rfc3339;
    time::OffsetDateTime::from_unix_timestamp_nanos(t).ok().and_then(|t| t.format(&format).ok())
}

/// The day of an instant in UTC, in the form of ISO 8601: `2026-05-27`.
pub uninterp spec fn iso_date(t: i128) -> Option<Seq<char>>;

/// `time::OffsetDateTime::from_unix_timestamp_nanos`, then `Date::format` with
/// the format `Iso8601::DATE`. Exactly the instants of the years 0 to 9999
/// have such a form. It depends on the instant alone.
#[verifier::external_body]
pub(crate) fn format_date(t: i128) -> (r: Option<String>)
    ensures
        text::view_opt(r) == iso_date(t),
        r is Some <==> YEAR_ZERO <= t < YEAR_TEN_THOUSAND,
{
    let format = time::format_description::well_known::Iso8601::DATE;
    let t = time::OffsetDateTime::from_unix_timestamp_nanos(t).ok()?;
    t.date().format(&format).ok()
}

/// An instant in the form of RFC 3339; none outside the years 0 to 9999.
pub open spec fn stamp(t: i128) -> Option<Seq<char>> {
    if YEAR_ZERO <= t < YEAR_TEN_THOUSAND {
        Some(rfc3339(t))
    } else {
        None
    }
}

/// An instant in the form of RFC 3339; `None` outside the years 0 to 9999.
pub fn timestamp_at(t: i128) -> (r: Option<String>)
    ensures
        text::view_opt(r) == stamp(t),
        r matches Some(s) ==> instant_of(s@) == Some(t),
{
    format_rfc3339(t)
}

/// The current instant in the form of RFC 3339; `None` outside the years 0 to
/// 9999.
pub fn timestamp() -> (r: Option<String>)
    ensures
        exists|t: i128| in_calendar(t) && text::view_opt(r) == #[trigger] stamp(t),
{
    timestamp_at(now())
}

} // verus!
