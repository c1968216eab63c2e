//! The location record and the log line that it is written as.

use crate::calendar::{
    lemma_timestamp_text_len, seconds_of_nanos, timestamp_text, utc_timestamp, whole_seconds,
    CalendarFields, UtcTimestamp,
};
use crate::json::{payload_text, push_payload};
use crate::order::Timed;
use vstd::prelude::*;
use vstd::string::StringExecFns;

verus! {

/// What a location record holds.
pub struct RecordModel {
    /// The tracker id of the run.
    pub tid: Seq<char>,
    /// The instant of the fix, in nanoseconds after the epoch.
    pub timestamp_nanos: i64,
    /// Latitude and longitude in E7 units: degrees times ten million.
    pub lat_e7: i64,
    pub lon_e7: i64,
    /// Accuracy, altitude and vertical accuracy, where the fix has them.
    pub acc: Option<i64>,
    pub alt: Option<i64>,
    pub vac: Option<i64>,
}

impl Timed for RecordModel {
    /// The instant of the fix in whole seconds after the epoch.
    open spec fn seconds(&self) -> int {
        whole_seconds(self.timestamp_nanos as int)
    }
}

impl RecordModel {
    /// The record type, which every record has.
    pub open spec fn record_type(self) -> Seq<char> {
        "location"@
    }

    /// The instant of the fix on the UTC calendar.
    pub open spec fn timestamp(self) -> CalendarFields {
        utc_timestamp(self.timestamp_nanos as int)
    }

    /// The payload of the record's line.
    pub open spec fn payload(self) -> Seq<char> {
        payload_text(
            self.tid,
            self.seconds(),
            self.lat_e7 as int,
            self.lon_e7 as int,
            self.acc,
            self.alt,
            self.vac,
        )
    }

    /// The record's line.
    pub open spec fn line(self) -> Seq<char> {
        line_text(self.timestamp(), self.payload())
    }
}

/// A line of the log: the timestamp, a tab, an asterisk, seventeen spaces,
/// a tab, the payload and a line feed.
pub open spec fn line_text(timestamp: CalendarFields, payload: Seq<char>) -> Seq<char> {
    timestamp_text(timestamp) + "\t*                 \t"@ + payload + "\n"@
}

/// Frames a payload as a line of the log.
pub fn frame_line(timestamp: &UtcTimestamp, payload: &str) -> (line: String)
    ensures
        line@ == line_text(timestamp@, payload@),
{
    let mut line = String::new();
    timestamp.push_text(&mut line);
    line.append("\t*                 \t");
    line.append(payload);
    line.append("\n");
    line
}

/// One location fix, ready to be written to a log.
#[derive(Debug)]
pub struct LocationRecord {
    tid: String,
    tst: i64,
    timestamp_nanos: i64,
    lat_e7: i64,
    lon_e7: i64,
    acc: Option<i64>,
    alt: Option<i64>,
    vac: Option<i64>,
}

impl View for LocationRecord {
    type V = RecordModel;

    closed spec fn view(&self) -> RecordModel {
        RecordModel {
            tid: self.tid@,
            timestamp_nanos: self.timestamp_nanos,
            lat_e7: self.lat_e7,
            lon_e7: self.lon_e7,
            acc: self.acc,
            alt: self.alt,
            vac: self.vac,
        }
    }
}

impl LocationRecord {
    /// The seconds that a record holds are the whole seconds of its
    /// nanoseconds.
    #[verifier::type_invariant]
    spec fn seconds_match_nanos(self) -> bool {
        self.tst == whole_seconds(self.timestamp_nanos as int)
    }

    /// A record of a fix at `timestamp_nanos` nanoseconds after the epoch, at
    /// the E7 coordinates `lat_e7` and `lon_e7`.
    pub fn new(
        tid: String,
        timestamp_nanos: i64,
        lat_e7: i64,
        lon_e7: i64,
        acc: Option<i64>,
        alt: Option<i64>,
        vac: Option<i64>,
    ) -> (record: LocationRecord)
        ensures
            record@ == (RecordModel { tid: tid@, timestamp_nanos, lat_e7, lon_e7, acc, alt, vac }),
    {
        LocationRecord {
            tid,
            tst: seconds_of_nanos(timestamp_nanos),
            timestamp_nanos,
            lat_e7,
            lon_e7,
            acc,
            alt,
            vac,
        }
    }

    /// The record type: always `location`.
    pub fn record_type(&self) -> (t: &'static str)
        ensures
            t@ == self@.record_type(),
    {
        "location"
    }

    /// The tracker id.
    pub fn tid(&self) -> (tid: &str)
        ensures
            tid@ == self@.tid,
    {
        self.tid.as_str()
    }

    /// The instant of the fix in whole seconds after the epoch.
    pub fn tst(&self) -> (tst: i64)
        ensures
            tst == self@.seconds(),
    {
        proof {
            use_type_invariant(self);
        }
        self.tst
    }

    /// The instant of the fix in nanoseconds after the epoch.
    pub fn timestamp_nanos(&self) -> (nanos: i64)
        ensures
            nanos == self@.timestamp_nanos,
    {
        self.timestamp_nanos
    }

    /// The latitude in E7 units.
    pub fn lat_e7(&self) -> (lat: i64)
        ensures
            lat == self@.lat_e7,
    {
        self.lat_e7
    }

    /// The longitude in E7 units.
    pub fn lon_e7(&self) -> (lon: i64)
        ensures
            lon == self@.lon_e7,
    {
        self.lon_e7
    }

    /// The accuracy, where the fix has one.
    pub fn acc(&self) -> (acc: Option<i64>)
        ensures
            acc == self@.acc,
    {
        self.acc
    }

    /// The altitude, where the fix has one.
    pub fn alt(&self) -> (alt: Option<i64>)
        ensures
            alt == self@.alt,
    {
        self.alt
    }

    /// The vertical accuracy, where the fix has one.
    pub fn vac(&self) -> (vac: Option<i64>)
        ensures
            vac == self@.vac,
    {
        self.vac
    }

    /// The instant of the fix on the UTC calendar.
    pub fn get_timestamp(&self) -> (t: UtcTimestamp)
        ensures
            t@ == self@.timestamp(),
    {
        UtcTimestamp::from_nanos(self.timestamp_nanos)
    }

    /// The payload of the record's line: a JSON object.
    pub fn payload(&self) -> (text: String)
        ensures
            text@ == self@.payload(),
    {
        proof {
            use_type_invariant(self);
        }
        let mut text = String::new();
        push_payload(
            &mut text,
            self.tid.as_str(),
            self.tst,
            self.lat_e7,
            self.lon_e7,
            self.acc,
            self.alt,
            self.vac,
        );
        text
    }

    /// The record's line in the log.
    pub fn create_owntrack_line(&self) -> (line: String)
        ensures
            line@ == self@.line(),
    {
        let timestamp = self.get_timestamp();
        let payload = self.payload();
        frame_line(&timestamp, payload.as_str())
    }
}

/// What each of a sequence of records holds.
pub open spec fn models(records: Seq<LocationRecord>) -> Seq<RecordModel> {
    records.map_values(|r: LocationRecord| r@)
}

/// The layout of a line: twenty characters of timestamp, a tab, an
/// asterisk, seventeen spaces and a tab, then the payload, then a line feed
/// and nothing after it.
pub proof fn lemma_line_layout(timestamp: CalendarFields, payload: Seq<char>)
    ensures
        line_text(timestamp, payload).len() == 41 + payload.len(),
        line_text(timestamp, payload).subrange(0, 20) == timestamp_text(timestamp),
        line_text(timestamp, payload)[20] == '\t',
        line_text(timestamp, payload)[21] == '*',
        forall|i: int| 22 <= i < 39 ==> line_text(timestamp, payload)[i] == ' ',
        line_text(timestamp, payload)[39] == '\t',
        line_text(timestamp, payload).subrange(40, 40 + payload.len() as int) == payload,
        line_text(timestamp, payload).last() == '\n',
{
    reveal_strlit("\t*                 \t");
    reveal_strlit("\n");
    lemma_timestamp_text_len(timestamp);
    let line = line_text(timestamp, payload);
    assert(line.subrange(0, 20) =~= timestamp_text(timestamp));
    assert(line.subrange(40, 40 + payload.len() as int) =~= payload);
}

} // verus!
