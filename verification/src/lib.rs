//! Turns a location history into month-by-month logs of OwnTracks-style
//! lines.
//!
//! The raw fixes of a history are normalised, filtered and sorted by time
//! ([`transform`]), each becomes a [`LocationRecord`] with a line of text of
//! its own, and the lines are grouped by UTC calendar month into the files
//! that a run writes ([`plan_writes`]).
//!
//! Coordinates are held as integers in E7 units, degrees times ten million,
//! from the raw fix to the digits in the line. Instants are nanoseconds after
//! the epoch. Calendar fields and the reading of date texts come from chrono,
//! the JSON spelling of the tracker id from serde_json.

pub mod calendar;
pub mod coordinate;
pub mod decimal;
pub mod fix;
pub mod json;
pub mod order;
pub mod partition;
pub mod record;
pub mod sort;
pub mod transform;

pub use crate::fix::{RawFix, RawTimestamp, TransformError};
pub use crate::partition::{plan_writes, Bucket, BucketKey, WritePlan};
pub use crate::record::LocationRecord;
pub use crate::transform::transform;
