//! Location fixes: the raw rows of a location history and the rows that
//! normalisation makes of them.

use crate::calendar::{seconds_of_nanos, whole_seconds};
use crate::order::Timed;
use vstd::prelude::*;

verus! {

/// The timestamp of a raw row as the source holds it.
#[derive(Debug)]
pub enum RawTimestamp {
    /// A date and time in RFC 3339 text, such as `2015-01-11T12:12:00.123Z`.
    Text(String),
    /// Nanoseconds after 1970-01-01T00:00:00Z.
    EpochNanos(i64),
}

/// One row of a location history: a fix as the source holds it.
#[derive(Debug)]
pub struct RawFix {
    /// The tag of the device that took the fix.
    pub device_tag: Option<i64>,
    /// Latitude and longitude in E7 units: degrees times ten million.
    pub latitude_e7: Option<i64>,
    pub longitude_e7: Option<i64>,
    /// When the fix was taken.
    pub timestamp: Option<RawTimestamp>,
    pub accuracy: Option<i64>,
    pub altitude: Option<i64>,
    pub vertical_accuracy: Option<i64>,
}

/// Why a row could not be normalised.
#[derive(Clone, Copy, Debug, PartialEq, Eq, Structural)]
pub enum TransformError {
    /// A row lacks its timestamp, or has a latitude without a longitude.
    MissingField,
    /// A timestamp is a date and time, but one that 64 bits of nanoseconds
    /// cannot hold.
    TypeMismatch,
    /// A timestamp text is no RFC 3339 date and time.
    UnparseableTimestamp,
}

/// A place on the globe in E7 units: degrees times ten million.
#[derive(Clone, Copy, Debug, PartialEq, Eq)]
pub struct Position {
    pub lat_e7: i64,
    pub lon_e7: i64,
}

/// A row after normalisation: its instant is known, and its position is
/// whole or absent.
#[derive(Clone, Copy, Debug, PartialEq, Eq)]
pub struct NormalizedRow {
    pub device_tag: Option<i64>,
    /// The position, absent where the raw row has no latitude.
    pub position: Option<Position>,
    /// The instant of the fix in nanoseconds after the epoch.
    pub timestamp_nanos: i64,
    pub accuracy: Option<i64>,
    pub altitude: Option<i64>,
    pub vertical_accuracy: Option<i64>,
}

impl Timed for NormalizedRow {
    open spec fn seconds(&self) -> int {
        whole_seconds(self.timestamp_nanos as int)
    }
}

impl NormalizedRow {
    /// The instant of the fix in whole seconds after the epoch.
    pub fn tst(&self) -> (tst: i64)
        ensures
            tst == self.seconds(),
    {
        seconds_of_nanos(self.timestamp_nanos)
    }
}

impl TransformError {
    /// A sentence that says what went wrong.
    pub fn message(&self) -> (text: &'static str)
        ensures
            text@ == match *self {
                TransformError::MissingField => "a row lacks a required field"@,
                TransformError::TypeMismatch => "a timestamp does not fit into nanoseconds"@,
                TransformError::UnparseableTimestamp => "a timestamp cannot be parsed"@,
            },
    {
        match self {
            TransformError::MissingField => "a row lacks a required field",
            TransformError::TypeMismatch => "a timestamp does not fit into nanoseconds",
            TransformError::UnparseableTimestamp => "a timestamp cannot be parsed",
        }
    }
}

} // verus!
