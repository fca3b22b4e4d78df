//! Dates and times of the `chrono` crate.

use crate::text::{before, opt_view};
use chrono::{Datelike, Timelike};
use vstd::prelude::*;

verus! {

/// A date and time with its offset, as far as the library reads it.
#[derive(Debug)]
pub struct Moment {
    /// Seconds since the start of 1970 in UTC, and the nanoseconds after them.
    pub timestamp: i64,
    pub nanos: u32,
    pub year: i32,
    pub month: u32,
    pub day: u32,
    /// Seconds since midnight, local to the offset.
    pub clock: u32,
}

/// A date and time without an offset, as far as the library reads it.
#[derive(Debug)]
pub struct Reading {
    /// Seconds since the start of 1970 where the reading is one in UTC, and the
    /// nanoseconds after them.
    pub timestamp: i64,
    pub nanos: u32,
    pub month: u32,
    pub day: u32,
    /// Seconds since midnight.
    pub clock: u32,
    /// Date and time with a `T` between them and the fraction that there is.
    pub iso: String,
}

/// What a `Reading` holds.
#[verifier::ext_equal]
pub ghost struct ReadingView {
    pub timestamp: i64,
    pub nanos: u32,
    pub month: u32,
    pub day: u32,
    pub clock: u32,
    pub iso: Seq<char>,
}

impl View for Reading {
    type V = ReadingView;

    open spec fn view(&self) -> ReadingView {
        ReadingView {
            timestamp: self.timestamp,
            nanos: self.nanos,
            month: self.month,
            day: self.day,
            clock: self.clock,
            iso: self.iso@,
        }
    }
}

/// How many digits the fraction of a second is written with: as many threes as
/// it needs, or nine.
#[derive(Clone, Copy, Debug, PartialEq, Eq, Structural)]
pub enum Fraction {
    Short,
    Nine,
}

/// The moment that a text gives in the form of RFC 3339
/// (`chrono::DateTime::parse_from_rfc3339`).
pub uninterp spec fn moment(text: Seq<char>) -> Option<Moment>;

/// The reading that a text gives in a format
/// (`chrono::NaiveDateTime::parse_from_str`).
pub uninterp spec fn reading(text: Seq<char>, format: Seq<char>) -> Option<ReadingView>;

/// The text of a time in UTC (`chrono::DateTime::to_rfc3339_opts`); none where
/// there is no such time.
pub uninterp spec fn instant(timestamp: i64, nanos: u32, fraction: Fraction) -> Option<Seq<char>>;

/// Whether a format holds no item that is in error
/// (`chrono::format::StrftimeItems`).
pub uninterp spec fn format_valid(format: Seq<char>) -> bool;

/// The text of a Unix time in UTC (`chrono::DateTime::from_timestamp`).
pub uninterp spec fn unix_time(seconds: i64) -> Option<Seq<char>>;

/// `chrono::DateTime::parse_from_rfc3339` reads a date and time with an offset.
/// The fields are those of the value: its time in UTC, and its date and clock at
/// its own offset.
#[verifier::external_body]
pub(crate) fn parse_moment(text: &str) -> (r: Option<Moment>)
    ensures
        r == moment(text@),
{
    let t = chrono::DateTime::parse_from_rfc3339(text).ok()?;
    Some(Moment {
        timestamp: t.timestamp(),
        nanos: t.timestamp_subsec_nanos(),
        year: t.year(),
        month: t.month(),
        day: t.day(),
        clock: t.time().num_seconds_from_midnight(),
    })
}

/// `chrono::NaiveDateTime::parse_from_str` reads a date and time in a format.
/// The fields are those of the value; its `Debug` text is date and time with a
/// `T` between them.
#[verifier::external_body]
pub(crate) fn parse_reading(text: &str, format: &str) -> (r: Option<Reading>)
    ensures
        opt_view(r) == reading(text@, format@),
{
    let t = chrono::NaiveDateTime::parse_from_str(text, format).ok()?;
    Some(Reading {
        timestamp: t.and_utc().timestamp(),
        nanos: t.and_utc().timestamp_subsec_nanos(),
        month: t.month(),
        day: t.day(),
        clock: t.time().num_seconds_from_midnight(),
        iso: format!("{:?}", t),
    })
}

/// The start of the year 0, and the last second of the year 9999, in UTC.
pub const FIRST_DATED: i64 = -62_167_219_200;

pub const LAST_DATED: i64 = 253_402_300_799;

/// Whether a time is one whose year is written with four digits, and no leap
/// second.
pub open spec fn is_dated(timestamp: i64, nanos: u32) -> bool {
    FIRST_DATED <= timestamp <= LAST_DATED && nanos < 1_000_000_000
}

/// Whether a time comes before another.
pub open spec fn is_earlier(timestamp: i64, nanos: u32, other: i64, other_nanos: u32) -> bool {
    timestamp < other || (timestamp == other && nanos < other_nanos)
}

/// Whether a text stands to the texts of dated times as the time stands to them.
pub open spec fn keeps_order(text: Seq<char>, timestamp: i64, nanos: u32) -> bool {
    forall|t: i64, n: u32|
        is_dated(t, n) ==> match #[trigger] instant(t, n, Fraction::Nine) {
            Some(other) => {
                &&& before(text, other) == is_earlier(timestamp, nanos, t, n)
                &&& before(other, text) == is_earlier(t, n, timestamp, nanos)
            },
            None => false,
        }
}

/// `chrono::DateTime::from_timestamp` gives the time, where it is in range;
/// `to_rfc3339_opts` writes it with a `Z` and the fraction asked for. With nine
/// digits, and as long as the year has four, every part of the text has its fixed
/// width, from the year down to the fraction, so that the texts are ordered as the
/// times are.
#[verifier::external_body]
pub(crate) fn instant_text(timestamp: i64, nanos: u32, fraction: Fraction) -> (r: Option<String>)
    ensures
        opt_view(r) == instant(timestamp, nanos, fraction),
        fraction == Fraction::Nine && is_dated(timestamp, nanos) ==> r is Some && keeps_order(
            r->0@,
            timestamp,
            nanos,
        ),
{
    let form = match fraction {
        Fraction::Short => chrono::SecondsFormat::AutoSi,
        Fraction::Nine => chrono::SecondsFormat::Nanos,
    };
    chrono::DateTime::from_timestamp(timestamp, nanos).map(|d| d.to_rfc3339_opts(form, true))
}

/// `chrono::format::StrftimeItems` reads a format; an item that it cannot read
/// comes out as an error.
#[verifier::external_body]
pub(crate) fn format_ok(format: &str) -> (r: bool)
    ensures
        r == format_valid(format@),
{
    !chrono::format::StrftimeItems::new(format).any(
        |x| matches!(x, chrono::format::Item::Error),
    )
}

/// `chrono::DateTime::from_timestamp` gives the moment of a Unix time, where it
/// is in range; its text is that of `to_rfc3339`.
#[verifier::external_body]
pub(crate) fn unix_text(seconds: i64) -> (r: Option<String>)
    ensures
        opt_view(r) == unix_time(seconds),
{
    chrono::DateTime::from_timestamp(seconds, 0).map(|d| d.to_rfc3339())
}

/// `chrono::Utc::now` in nanoseconds since 1970; nothing is claimed of it.
#[verifier::external_body]
pub(crate) fn now_nanos() -> (r: Option<i64>) {
    chrono::Utc::now().timestamp_nanos_opt()
}

} // verus!
