//! From the raw rows of a location history to its records: every row is
//! normalised, the rows of the excluded device and the rows without a
//! position are dropped, the rest is sorted by time and built into records.
//!
//! A row that cannot be normalised ends the run: the first such row, in the
//! order of the input, decides the error, whether or not a filter would have
//! dropped it.

use crate::calendar::{read_rfc3339, rfc3339_nanos};
use crate::fix::{NormalizedRow, Position, RawFix, RawTimestamp, TransformError};
use crate::order::{
    ascending, at_second, is_stable_sort, lemma_at_second_contains, lemma_at_second_member,
    lemma_sorted_items_are_items, lemma_stable_sort_map, lemma_stable_sort_unique, Timed,
};
use crate::record::{models, LocationRecord, RecordModel};
use crate::sort::sort_by_seconds;
use vstd::prelude::*;

verus! {

/// The instant that the reading of a timestamp text came to: the text was
/// no date and time, or one beyond 64 bits of nanoseconds, or it gave an
/// instant.
pub open spec fn instant_of_reading(reading: Option<Option<i64>>) -> Result<i64, TransformError> {
    match reading {
        None => Err(TransformError::UnparseableTimestamp),
        Some(None) => Err(TransformError::TypeMismatch),
        Some(Some(nanos)) => Ok(nanos),
    }
}

/// The instant of a raw timestamp in nanoseconds after the epoch.
pub open spec fn normalized_instant(timestamp: Option<RawTimestamp>) -> Result<
    i64,
    TransformError,
> {
    match timestamp {
        None => Err(TransformError::MissingField),
        Some(RawTimestamp::EpochNanos(nanos)) => Ok(nanos),
        Some(RawTimestamp::Text(text)) => instant_of_reading(rfc3339_nanos(text@)),
    }
}

/// The position of a raw row: none without a latitude, and an error where a
/// latitude comes without its longitude.
pub open spec fn normalized_position(latitude_e7: Option<i64>, longitude_e7: Option<i64>) -> Result<
    Option<Position>,
    TransformError,
> {
    match (latitude_e7, longitude_e7) {
        (None, _) => Ok(None),
        (Some(lat_e7), Some(lon_e7)) => Ok(Some(Position { lat_e7, lon_e7 })),
        (Some(_), None) => Err(TransformError::MissingField),
    }
}

/// A raw row normalised: first its position, then its instant.
pub open spec fn normalized(row: RawFix) -> Result<NormalizedRow, TransformError> {
    match normalized_position(row.latitude_e7, row.longitude_e7) {
        Err(e) => Err(e),
        Ok(position) => match normalized_instant(row.timestamp) {
            Err(e) => Err(e),
            Ok(timestamp_nanos) => Ok(
                NormalizedRow {
                    device_tag: row.device_tag,
                    position,
                    timestamp_nanos,
                    accuracy: row.accuracy,
                    altitude: row.altitude,
                    vertical_accuracy: row.vertical_accuracy,
                },
            ),
        },
    }
}

/// All rows normalised, in their order, or the error of the first row that
/// cannot be.
pub open spec fn normalized_rows(rows: Seq<RawFix>) -> Result<Seq<NormalizedRow>, TransformError>
    decreases rows.len(),
{
    if rows.len() == 0 {
        Ok(Seq::empty())
    } else {
        match normalized_rows(rows.drop_last()) {
            Err(e) => Err(e),
            Ok(front) => match normalized(rows.last()) {
                Err(e) => Err(e),
                Ok(row) => Ok(front.push(row)),
            },
        }
    }
}

/// Whether a row passes both filters: its device is not the excluded one,
/// which a row without a device tag never is, and it has a position.
pub open spec fn is_retained(row: NormalizedRow, excluded: int) -> bool {
    &&& match row.device_tag {
        Some(tag) => tag != excluded,
        None => true,
    }
    &&& row.position is Some
}

/// The test of the two filters for one excluded device.
pub open spec fn retained(excluded: int) -> spec_fn(NormalizedRow) -> bool {
    |row: NormalizedRow| is_retained(row, excluded)
}

/// The rows that pass both filters, in their order.
pub open spec fn retained_rows(rows: Seq<NormalizedRow>, excluded: int) -> Seq<NormalizedRow> {
    rows.filter(retained(excluded))
}

/// The record of a row that has a position.
pub open spec fn record_of(row: NormalizedRow, tid: Seq<char>) -> RecordModel {
    RecordModel {
        tid,
        timestamp_nanos: row.timestamp_nanos,
        lat_e7: row.position.unwrap().lat_e7,
        lon_e7: row.position.unwrap().lon_e7,
        acc: row.accuracy,
        alt: row.altitude,
        vac: row.vertical_accuracy,
    }
}

/// The making of records for one tracker id.
pub open spec fn record_builder(tid: Seq<char>) -> spec_fn(NormalizedRow) -> RecordModel {
    |row: NormalizedRow| record_of(row, tid)
}

/// `records` is what the transform makes of normalised rows: the records
/// of the rows that pass the filters, sorted by their seconds, with the
/// records of one second in the order of their rows.
pub open spec fn is_transform_output(
    rows: Seq<NormalizedRow>,
    tid: Seq<char>,
    excluded: int,
    records: Seq<RecordModel>,
) -> bool {
    is_stable_sort(retained_rows(rows, excluded).map_values(record_builder(tid)), records)
}

/// `records` is what the transform makes of raw rows, all of which can be
/// normalised.
pub open spec fn is_transform_of(
    rows: Seq<RawFix>,
    tid: Seq<char>,
    excluded: int,
    records: Seq<RecordModel>,
) -> bool {
    &&& normalized_rows(rows) is Ok
    &&& is_transform_output(normalized_rows(rows).unwrap(), tid, excluded, records)
}

/// The instant that the reading of a timestamp text came to.
pub fn instant_of(reading: Option<Option<i64>>) -> (instant: Result<i64, TransformError>)
    ensures
        instant == instant_of_reading(reading),
{
    match reading {
        None => Err(TransformError::UnparseableTimestamp),
        Some(None) => Err(TransformError::TypeMismatch),
        Some(Some(nanos)) => Ok(nanos),
    }
}

/// Normalises a raw timestamp to nanoseconds after the epoch. A text is
/// read as an RFC 3339 date and time.
pub fn normalize_timestamp(timestamp: &Option<RawTimestamp>) -> (instant: Result<
    i64,
    TransformError,
>)
    ensures
        instant == normalized_instant(*timestamp),
{
    match timestamp {
        None => Err(TransformError::MissingField),
        Some(RawTimestamp::EpochNanos(nanos)) => Ok(*nanos),
        Some(RawTimestamp::Text(text)) => instant_of(read_rfc3339(text.as_str())),
    }
}

/// Normalises one raw row.
pub fn normalize(row: &RawFix) -> (normal: Result<NormalizedRow, TransformError>)
    ensures
        normal == normalized(*row),
{
    let position = match (row.latitude_e7, row.longitude_e7) {
        (None, _) => None,
        (Some(lat_e7), Some(lon_e7)) => Some(Position { lat_e7, lon_e7 }),
        (Some(_), None) => {
            return Err(TransformError::MissingField);
        },
    };
    match normalize_timestamp(&row.timestamp) {
        Err(e) => Err(e),
        Ok(timestamp_nanos) => Ok(
            NormalizedRow {
                device_tag: row.device_tag,
                position,
                timestamp_nanos,
                accuracy: row.accuracy,
                altitude: row.altitude,
                vertical_accuracy: row.vertical_accuracy,
            },
        ),
    }
}

/// Once a row has failed, no later row mends the run.
proof fn lemma_failure_stays(rows: Seq<RawFix>, n: int)
    requires
        0 <= n <= rows.len(),
        normalized_rows(rows.take(n)) is Err,
    ensures
        normalized_rows(rows) == normalized_rows(rows.take(n)),
    decreases rows.len(),
{
    if n < rows.len() {
        assert(rows.drop_last().take(n) =~= rows.take(n));
        lemma_failure_stays(rows.drop_last(), n);
    } else {
        assert(rows.take(n) =~= rows);
    }
}

/// Normalises all rows, in their order, and stops at the first that cannot
/// be normalised.
pub fn normalize_rows(rows: &Vec<RawFix>) -> (normal: Result<Vec<NormalizedRow>, TransformError>)
    ensures
        match normal {
            Ok(out) => normalized_rows(rows@) == Ok::<Seq<NormalizedRow>, TransformError>(out@),
            Err(e) => normalized_rows(rows@) == Err::<Seq<NormalizedRow>, TransformError>(e),
        },
{
    let mut out: Vec<NormalizedRow> = Vec::new();
    let mut i: usize = 0;
    assert(rows@.take(0) =~= Seq::<RawFix>::empty());
    while i < rows.len()
        invariant
            i <= rows.len(),
            normalized_rows(rows@.take(i as int)) == Ok::<Seq<NormalizedRow>, TransformError>(
                out@,
            ),
        decreases rows.len() - i,
    {
        proof {
            assert(rows@.take(i + 1).drop_last() =~= rows@.take(i as int));
            assert(rows@.take(i + 1).last() == rows@[i as int]);
        }
        match normalize(&rows[i]) {
            Ok(row) => {
                out.push(row);
            },
            Err(e) => {
                proof {
                    lemma_failure_stays(rows@, i + 1);
                }
                return Err(e);
            },
        }
        i = i + 1;
    }
    assert(rows@.take(i as int) =~= rows@);
    Ok(out)
}

/// Whether a row passes both filters.
pub fn passes_filters(row: &NormalizedRow, exclude_device: i32) -> (kept: bool)
    ensures
        kept == is_retained(*row, exclude_device as int),
{
    let other_device = match row.device_tag {
        Some(tag) => tag != exclude_device as i64,
        None => true,
    };
    other_device && row.position.is_some()
}

/// The rows that pass both filters, in their order.
pub fn retain_rows(rows: &Vec<NormalizedRow>, exclude_device: i32) -> (kept: Vec<NormalizedRow>)
    ensures
        kept@ == retained_rows(rows@, exclude_device as int),
{
    let mut kept: Vec<NormalizedRow> = Vec::new();
    let mut i: usize = 0;
    proof {
        assert(rows@.take(0) =~= Seq::<NormalizedRow>::empty());
        reveal(Seq::filter);
    }
    while i < rows.len()
        invariant
            i <= rows.len(),
            kept@ == retained_rows(rows@.take(i as int), exclude_device as int),
        decreases rows.len() - i,
    {
        let row = rows[i];
        proof {
            assert(rows@.take(i + 1) =~= rows@.take(i as int).push(row));
            rows@.take(i as int).lemma_filter_push(row, retained(exclude_device as int));
        }
        if passes_filters(&row, exclude_device) {
            kept.push(row);
        }
        i = i + 1;
    }
    assert(rows@.take(i as int) =~= rows@);
    kept
}

/// Builds the record of a row that has passed the filters, for the tracker
/// id of the run.
pub fn to_record(row: &NormalizedRow, tracker_id: &str) -> (record: LocationRecord)
    requires
        row.position is Some,
    ensures
        record@ == record_of(*row, tracker_id@),
{
    let position = row.position.unwrap();
    LocationRecord::new(
        tracker_id.to_owned(),
        row.timestamp_nanos,
        position.lat_e7,
        position.lon_e7,
        row.accuracy,
        row.altitude,
        row.vertical_accuracy,
    )
}

/// Builds the records of rows that have passed the filters, in their order.
pub fn build_records(rows: &Vec<NormalizedRow>, tracker_id: &str) -> (records: Vec<LocationRecord>)
    requires
        forall|i: int| 0 <= i < rows.len() ==> rows[i].position is Some,
    ensures
        models(records@) == rows@.map_values(record_builder(tracker_id@)),
{
    let mut records: Vec<LocationRecord> = Vec::new();
    let mut i: usize = 0;
    while i < rows.len()
        invariant
            i <= rows.len(),
            records.len() == i,
            forall|j: int| 0 <= j < rows.len() ==> rows[j].position is Some,
            forall|j: int| 0 <= j < i ==> records[j]@ == record_of(rows[j], tracker_id@),
        decreases rows.len() - i,
    {
        records.push(to_record(&rows[i], tracker_id));
        i = i + 1;
    }
    assert(models(records@) =~= rows@.map_values(record_builder(tracker_id@)));
    records
}

/// The records of normalised rows: the rows of the excluded device and the
/// rows without a position are dropped, the rest is sorted by whole seconds,
/// rows of one second in the order in which they came, and built into
/// records.
pub fn transform_rows(rows: &Vec<NormalizedRow>, tracker_id: &str, exclude_device: i32) -> (records:
    Vec<LocationRecord>)
    ensures
        is_transform_output(rows@, tracker_id@, exclude_device as int, models(records@)),
{
    let kept = retain_rows(rows, exclude_device);
    let sorted = sort_by_seconds(&kept);
    proof {
        assert forall|i: int| 0 <= i < sorted.len() implies sorted[i].position is Some by {
            lemma_sorted_items_are_items(kept@, sorted@, i);
            let j = choose|j: int| 0 <= j < kept.len() && kept[j] == sorted[i];
            rows@.lemma_filter_pred(retained(exclude_device as int), j);
        }
    }
    let records = build_records(&sorted, tracker_id);
    proof {
        lemma_stable_sort_map(kept@, sorted@, record_builder(tracker_id@));
    }
    records
}

/// The records of a location history. Every row is normalised; the first
/// row that cannot be ends the run with its error. Of the normalised rows,
/// those of the excluded device and those without a position are dropped;
/// the rest is sorted by whole seconds, rows of one second in the order in
/// which they came, and built into records with the tracker id.
pub fn transform(rows: Vec<RawFix>, tracker_id: &str, exclude_device: i32) -> (result: Result<
    Vec<LocationRecord>,
    TransformError,
>)
    ensures
        match result {
            Ok(records) => is_transform_of(
                rows@,
                tracker_id@,
                exclude_device as int,
                models(records@),
            ),
            Err(e) => normalized_rows(rows@) == Err::<Seq<NormalizedRow>, TransformError>(e),
        },
{
    match normalize_rows(&rows) {
        Err(e) => Err(e),
        Ok(normal) => Ok(transform_rows(&normal, tracker_id, exclude_device)),
    }
}

/// Rows normalise as a whole when each of them does, and then each to its
/// own normalised row. Where one does not, the error of the run is that of
/// the first such row.
pub proof fn lemma_normalized_rows(rows: Seq<RawFix>)
    ensures
        match normalized_rows(rows) {
            Ok(normal) => {
                &&& normal.len() == rows.len()
                &&& forall|i: int|
                    0 <= i < rows.len() ==> normalized(#[trigger] rows[i]) == Ok::<
                        NormalizedRow,
                        TransformError,
                    >(normal[i])
            },
            Err(e) => exists|i: int|
                {
                    &&& 0 <= i < rows.len()
                    &&& normalized(#[trigger] rows[i]) == Err::<NormalizedRow, TransformError>(e)
                    &&& forall|j: int| 0 <= j < i ==> normalized(#[trigger] rows[j]) is Ok
                },
        },
    decreases rows.len(),
{
    if rows.len() > 0 {
        let front = rows.drop_last();
        lemma_normalized_rows(front);
        match normalized_rows(front) {
            Ok(normal) => {
                if normalized(rows.last()) is Err {
                    let last = rows.len() - 1;
                    assert(normalized(rows[last]) is Err);
                    assert forall|j: int| 0 <= j < last implies normalized(#[trigger] rows[j])
                        is Ok by {
                        assert(rows[j] == front[j]);
                    }
                } else {
                    let all = normalized_rows(rows).unwrap();
                    assert forall|i: int| 0 <= i < rows.len() implies normalized(
                        #[trigger] rows[i],
                    ) == Ok::<NormalizedRow, TransformError>(all[i]) by {
                        if i < front.len() {
                            assert(rows[i] == front[i]);
                        }
                    }
                }
            },
            Err(e) => {
                let i = choose|i: int|
                    {
                        &&& 0 <= i < front.len()
                        &&& normalized(#[trigger] front[i]) == Err::<NormalizedRow, TransformError>(
                            e,
                        )
                        &&& forall|j: int| 0 <= j < i ==> normalized(#[trigger] front[j]) is Ok
                    };
                assert(rows[i] == front[i]);
                assert forall|j: int| 0 <= j < i implies normalized(#[trigger] rows[j]) is Ok by {
                    assert(rows[j] == front[j]);
                }
            },
        }
    }
}

/// Rows of which each can be normalised normalise as a whole.
pub proof fn lemma_normalized_rows_ok(rows: Seq<RawFix>)
    requires
        forall|i: int| 0 <= i < rows.len() ==> normalized(#[trigger] rows[i]) is Ok,
    ensures
        normalized_rows(rows) is Ok,
    decreases rows.len(),
{
    if rows.len() > 0 {
        let front = rows.drop_last();
        assert forall|i: int| 0 <= i < front.len() implies normalized(#[trigger] front[i])
            is Ok by {
            assert(front[i] == rows[i]);
        }
        lemma_normalized_rows_ok(front);
        assert(normalized(rows[rows.len() - 1]) is Ok);
    }
}

/// A row that fails the test of a filter can be taken out of the input of
/// the filter: the output stays what it is.
proof fn lemma_filter_without<T>(s: Seq<T>, pred: spec_fn(T) -> bool, i: int)
    requires
        0 <= i < s.len(),
        !pred(s[i]),
    ensures
        s.remove(i).filter(pred) == s.filter(pred),
{
    let front = s.take(i);
    let back = s.skip(i + 1);
    assert(s =~= front.push(s[i]) + back);
    assert(s.remove(i) =~= front + back);
    front.lemma_filter_push(s[i], pred);
    Seq::filter_distributes_over_add(front.push(s[i]), back, pred);
    Seq::filter_distributes_over_add(front, back, pred);
}

/// A row that the filters drop leaves no trace: what the transform makes of
/// the rows, it makes of the rows without that row.
pub proof fn lemma_dropped_row_leaves_no_trace(
    rows: Seq<RawFix>,
    tid: Seq<char>,
    excluded: int,
    records: Seq<RecordModel>,
    i: int,
)
    requires
        0 <= i < rows.len(),
        is_transform_of(rows, tid, excluded, records),
        !is_retained(normalized(rows[i]).unwrap(), excluded),
    ensures
        is_transform_of(rows.remove(i), tid, excluded, records),
{
    let rest = rows.remove(i);
    let normal = normalized_rows(rows).unwrap();
    lemma_normalized_rows(rows);
    assert forall|j: int| 0 <= j < rest.len() implies normalized(#[trigger] rest[j]) is Ok by {
        if j < i {
            assert(rest[j] == rows[j]);
        } else {
            assert(rest[j] == rows[j + 1]);
        }
    }
    lemma_normalized_rows_ok(rest);
    lemma_normalized_rows(rest);
    let normal_rest = normalized_rows(rest).unwrap();
    assert forall|j: int| 0 <= j < normal_rest.len() implies normal_rest[j] == normal.remove(
        i,
    )[j] by {
        if j < i {
            assert(rest[j] == rows[j]);
        } else {
            assert(rest[j] == rows[j + 1]);
        }
    }
    assert(normal_rest =~= normal.remove(i));
    assert(normalized(rows[i]) == Ok::<NormalizedRow, TransformError>(normal[i]));
    lemma_filter_without(normal, retained(excluded), i);
}

/// A row that passes the filters has its record in the output.
pub proof fn lemma_retained_row_is_in_output(
    rows: Seq<RawFix>,
    tid: Seq<char>,
    excluded: int,
    records: Seq<RecordModel>,
    i: int,
)
    requires
        0 <= i < rows.len(),
        is_transform_of(rows, tid, excluded, records),
        is_retained(normalized(rows[i]).unwrap(), excluded),
    ensures
        records.contains(record_of(normalized(rows[i]).unwrap(), tid)),
{
    let normal = normalized_rows(rows).unwrap();
    lemma_normalized_rows(rows);
    assert(normalized(rows[i]) == Ok::<NormalizedRow, TransformError>(normal[i]));
    let row = normal[i];
    let kept = retained_rows(normal, excluded);
    normal.lemma_filter_contains(retained(excluded), i);
    let j = choose|j: int| 0 <= j < kept.len() && kept[j] == row;
    let source = kept.map_values(record_builder(tid));
    let record = record_of(row, tid);
    assert(source[j] == record);
    lemma_at_second_contains(source, j);
    assert(at_second(records, record.seconds()) == at_second(source, record.seconds()));
    lemma_at_second_member(records, record.seconds(), record);
}

/// Every record of the output is the record of a row of the input that
/// passes the filters: a row with a position, and not of the excluded
/// device.
pub proof fn lemma_every_record_has_its_row(
    rows: Seq<RawFix>,
    tid: Seq<char>,
    excluded: int,
    records: Seq<RecordModel>,
    j: int,
) -> (i: int)
    requires
        is_transform_of(rows, tid, excluded, records),
        0 <= j < records.len(),
    ensures
        0 <= i < rows.len(),
        normalized(rows[i]) is Ok,
        is_retained(normalized(rows[i]).unwrap(), excluded),
        records[j] == record_of(normalized(rows[i]).unwrap(), tid),
{
    let normal = normalized_rows(rows).unwrap();
    let kept = retained_rows(normal, excluded);
    let source = kept.map_values(record_builder(tid));
    lemma_normalized_rows(rows);
    lemma_sorted_items_are_items(source, records, j);
    let m = choose|m: int| 0 <= m < source.len() && source[m] == records[j];
    normal.lemma_filter_pred(retained(excluded), m);
    assert(kept.contains(kept[m]));
    normal.lemma_filter_contains_rev(retained(excluded), kept[m]);
    let i = choose|i: int| 0 <= i < normal.len() && normal[i] == kept[m];
    assert(normalized(rows[i]) == Ok::<NormalizedRow, TransformError>(normal[i]));
    i
}

/// Exclusion: a row of the excluded device has no part in the output. It
/// does not pass the filters, and what the transform makes of the rows, it
/// makes of the rows without that row.
pub proof fn lemma_excluded_row_leaves_no_trace(
    rows: Seq<RawFix>,
    tid: Seq<char>,
    excluded: int,
    records: Seq<RecordModel>,
    i: int,
)
    requires
        0 <= i < rows.len(),
        rows[i].device_tag is Some,
        rows[i].device_tag.unwrap() == excluded,
        is_transform_of(rows, tid, excluded, records),
    ensures
        !is_retained(normalized(rows[i]).unwrap(), excluded),
        is_transform_of(rows.remove(i), tid, excluded, records),
{
    lemma_normalized_rows(rows);
    lemma_dropped_row_leaves_no_trace(rows, tid, excluded, records, i);
}

/// Retention of rows without a device tag: such a row is never taken for a
/// row of the excluded device. With a latitude its record is in the output;
/// without one it has no part in the output.
pub proof fn lemma_untagged_row_is_kept(
    rows: Seq<RawFix>,
    tid: Seq<char>,
    excluded: int,
    records: Seq<RecordModel>,
    i: int,
)
    requires
        0 <= i < rows.len(),
        rows[i].device_tag is None,
        is_transform_of(rows, tid, excluded, records),
    ensures
        rows[i].latitude_e7 is Some ==> records.contains(
            record_of(normalized(rows[i]).unwrap(), tid),
        ),
        rows[i].latitude_e7 is None ==> is_transform_of(rows.remove(i), tid, excluded, records),
{
    lemma_normalized_rows(rows);
    if rows[i].latitude_e7 is Some {
        lemma_retained_row_is_in_output(rows, tid, excluded, records, i);
    } else {
        lemma_dropped_row_leaves_no_trace(rows, tid, excluded, records, i);
    }
}

/// The output of the transform is in ascending order of seconds and holds
/// one record for each row that passes the filters.
pub proof fn lemma_output_is_ordered(
    rows: Seq<RawFix>,
    tid: Seq<char>,
    excluded: int,
    records: Seq<RecordModel>,
)
    requires
        is_transform_of(rows, tid, excluded, records),
    ensures
        ascending(records),
        records.len() == retained_rows(normalized_rows(rows).unwrap(), excluded).len(),
{
}

/// The output is determined by the input: two runs on the same rows, with
/// the same tracker id and the same excluded device, give the same records
/// in the same order.
pub proof fn lemma_output_is_determined(
    rows: Seq<RawFix>,
    tid: Seq<char>,
    excluded: int,
    first: Seq<RecordModel>,
    second: Seq<RecordModel>,
)
    requires
        is_transform_of(rows, tid, excluded, first),
        is_transform_of(rows, tid, excluded, second),
    ensures
        first == second,
{
    lemma_stable_sort_unique(
        retained_rows(normalized_rows(rows).unwrap(), excluded).map_values(record_builder(tid)),
        first,
        second,
    );
}

} // verus!
