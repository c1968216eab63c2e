//! Instants on the UTC calendar: the fields of an instant, its text in a
//! log line, and instants read from text.

use crate::decimal::{lemma_padded_text_len, padded_text, push_padded};
use chrono::{DateTime, Datelike, Timelike};
use vstd::prelude::*;

verus! {

/// The number of nanoseconds in one second.
pub const NANOS_PER_SECOND: i64 = 1_000_000_000;

/// The second that an instant lies in: the floor of its nanoseconds divided
/// by a thousand million. The fraction of a second is cut off, never
/// rounded, so that the nanosecond before the epoch lies in second `-1`.
pub open spec fn whole_seconds(nanos: int) -> int {
    nanos / 1_000_000_000
}

/// The second that an instant lies in.
pub fn seconds_of_nanos(nanos: i64) -> (seconds: i64)
    ensures
        seconds == whole_seconds(nanos as int),
{
    let quotient: i64 = nanos / NANOS_PER_SECOND;
    if nanos % NANOS_PER_SECOND < 0 {
        quotient - 1
    } else {
        quotient
    }
}

/// The seconds of an instant are the floor of its nanoseconds over a
/// thousand million: the instant lies in that second, less than a second
/// after its start.
pub proof fn lemma_seconds_are_the_floor(nanos: int)
    ensures
        whole_seconds(nanos) * 1_000_000_000 <= nanos < (whole_seconds(nanos) + 1) * 1_000_000_000,
{
}

/// The fields of a date and a time of day.
pub struct CalendarFields {
    pub year: int,
    pub month: int,
    pub day: int,
    pub hour: int,
    pub minute: int,
    pub second: int,
}

/// A date and a time of day on the UTC calendar. The year has at most four
/// digits, and month, day, hour, minute and second lie within their ranges.
#[derive(Clone, Copy, Debug, PartialEq, Eq, Structural)]
pub struct UtcTimestamp {
    year: i32,
    month: u32,
    day: u32,
    hour: u32,
    minute: u32,
    second: u32,
}

/// Year, month, day, hour, minute and second, in UTC, of the instant that
/// lies `nanos` nanoseconds after 1970-01-01T00:00:00Z.
pub uninterp spec fn utc_fields(nanos: int) -> (i32, u32, u32, u32, u32, u32);

/// The instant that an RFC 3339 text denotes, in nanoseconds after the epoch:
/// `None` where the text is no RFC 3339 date and time, `Some(None)` where it
/// is one that 64 bits of nanoseconds cannot hold.
pub uninterp spec fn rfc3339_nanos(text: Seq<char>) -> Option<Option<i64>>;

/// The calendar fields of an instant.
pub open spec fn utc_timestamp(nanos: int) -> CalendarFields {
    let f = utc_fields(nanos);
    CalendarFields {
        year: f.0 as int,
        month: f.1 as int,
        day: f.2 as int,
        hour: f.3 as int,
        minute: f.4 as int,
        second: f.5 as int,
    }
}

/// The text of a timestamp in a log line: `YYYY-MM-DDTHH:MM:SSZ`.
pub open spec fn timestamp_text(t: CalendarFields) -> Seq<char> {
    padded_text(t.year as nat, 4) + seq!['-'] + padded_text(t.month as nat, 2) + seq!['-']
        + padded_text(t.day as nat, 2) + seq!['T'] + padded_text(t.hour as nat, 2) + seq![':']
        + padded_text(t.minute as nat, 2) + seq![':'] + padded_text(t.second as nat, 2)
        + seq!['Z']
}

/// Calls `chrono::DateTime::from_timestamp_nanos` and reads the calendar
/// fields of what it returns through `Datelike` and `Timelike`. The fields
/// are named, not computed here. Their ranges are those that chrono
/// documents: an instant of 64 bits of nanoseconds lies between the years
/// 1677 and 2262, a month between 1 and 12, a day between 1 and 31, an hour
/// below 24, a minute and a second below 60.
#[verifier::external_body]
fn calendar_fields(nanos: i64) -> (f: (i32, u32, u32, u32, u32, u32))
    ensures
        f == utc_fields(nanos as int),
        1677 <= f.0 <= 2262,
        1 <= f.1 <= 12,
        1 <= f.2 <= 31,
        f.3 <= 23,
        f.4 <= 59,
        f.5 <= 59,
{
    let t = DateTime::from_timestamp_nanos(nanos);
    (t.year(), t.month(), t.day(), t.hour(), t.minute(), t.second())
}

/// Calls `chrono::DateTime::parse_from_rfc3339` and, on success,
/// `timestamp_nanos_opt` on the parsed instant. The outcome is named, not
/// computed here.
#[verifier::external_body]
pub(crate) fn read_rfc3339(text: &str) -> (r: Option<Option<i64>>)
    ensures
        r == rfc3339_nanos(text@),
{
    match DateTime::parse_from_rfc3339(text) {
        Ok(t) => Some(t.timestamp_nanos_opt()),
        Err(_) => None,
    }
}

impl View for UtcTimestamp {
    type V = CalendarFields;

    closed spec fn view(&self) -> CalendarFields {
        CalendarFields {
            year: self.year as int,
            month: self.month as int,
            day: self.day as int,
            hour: self.hour as int,
            minute: self.minute as int,
            second: self.second as int,
        }
    }
}

impl UtcTimestamp {
    #[verifier::type_invariant]
    spec fn in_range(self) -> bool {
        &&& 0 <= self.year <= 9999
        &&& 1 <= self.month <= 12
        &&& 1 <= self.day <= 31
        &&& self.hour <= 23
        &&& self.minute <= 59
        &&& self.second <= 59
    }

    /// The timestamp of the given fields, where the year has at most four
    /// digits and the other fields lie within their ranges: a month from 1 to
    /// 12, a day from 1 to 31, an hour below 24, a minute and a second below
    /// 60. Whether the month has such a day is not asked.
    pub fn new(year: i32, month: u32, day: u32, hour: u32, minute: u32, second: u32) -> (t: Option<
        UtcTimestamp,
    >)
        ensures
            t is Some <==> 0 <= year <= 9999 && 1 <= month <= 12 && 1 <= day <= 31 && hour <= 23
                && minute <= 59 && second <= 59,
            t is Some ==> t.unwrap()@ == (CalendarFields {
                year: year as int,
                month: month as int,
                day: day as int,
                hour: hour as int,
                minute: minute as int,
                second: second as int,
            }),
    {
        if 0 <= year && year <= 9999 && 1 <= month && month <= 12 && 1 <= day && day <= 31 && hour
            <= 23 && minute <= 59 && second <= 59 {
            Some(UtcTimestamp { year, month, day, hour, minute, second })
        } else {
            None
        }
    }

    /// The UTC timestamp of the instant `nanos` nanoseconds after the epoch.
    pub fn from_nanos(nanos: i64) -> (t: UtcTimestamp)
        ensures
            t@ == utc_timestamp(nanos as int),
    {
        let f = calendar_fields(nanos);
        UtcTimestamp { year: f.0, month: f.1, day: f.2, hour: f.3, minute: f.4, second: f.5 }
    }

    /// The year.
    pub fn year(&self) -> (year: i32)
        ensures
            year == self@.year,
    {
        self.year
    }

    /// The month of the year, from 1.
    pub fn month(&self) -> (month: u32)
        ensures
            month == self@.month,
    {
        self.month
    }

    /// The day of the month, from 1.
    pub fn day(&self) -> (day: u32)
        ensures
            day == self@.day,
    {
        self.day
    }

    /// The hour of the day.
    pub fn hour(&self) -> (hour: u32)
        ensures
            hour == self@.hour,
    {
        self.hour
    }

    /// The minute of the hour.
    pub fn minute(&self) -> (minute: u32)
        ensures
            minute == self@.minute,
    {
        self.minute
    }

    /// The second of the minute.
    pub fn second(&self) -> (second: u32)
        ensures
            second == self@.second,
    {
        self.second
    }

    /// Appends the timestamp as `YYYY-MM-DDTHH:MM:SSZ`.
    pub fn push_text(&self, out: &mut String)
        ensures
            final(out)@ == old(out)@ + timestamp_text(self@),
    {
        proof {
            use_type_invariant(self);
        }
        push_padded(out, self.year as u64, 4);
        out.push('-');
        push_padded(out, self.month as u64, 2);
        out.push('-');
        push_padded(out, self.day as u64, 2);
        out.push('T');
        push_padded(out, self.hour as u64, 2);
        out.push(':');
        push_padded(out, self.minute as u64, 2);
        out.push(':');
        push_padded(out, self.second as u64, 2);
        out.push('Z');
        assert(out@ =~= old(out)@ + timestamp_text(self@));
    }

    /// The timestamp as `YYYY-MM-DDTHH:MM:SSZ`.
    pub fn to_text(&self) -> (text: String)
        ensures
            text@ == timestamp_text(self@),
    {
        let mut text = String::new();
        self.push_text(&mut text);
        text
    }
}

/// The timestamp of a line has twenty characters, whatever the instant.
pub proof fn lemma_timestamp_text_len(t: CalendarFields)
    ensures
        timestamp_text(t).len() == 20,
{
    lemma_padded_text_len(t.year as nat, 4);
    lemma_padded_text_len(t.month as nat, 2);
    lemma_padded_text_len(t.day as nat, 2);
    lemma_padded_text_len(t.hour as nat, 2);
    lemma_padded_text_len(t.minute as nat, 2);
    lemma_padded_text_len(t.second as nat, 2);
}

} // verus!
