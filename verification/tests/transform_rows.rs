use owntracks_export::fix::{NormalizedRow, Position, RawFix, RawTimestamp, TransformError};
use owntracks_export::record::LocationRecord;
use owntracks_export::sort::sort_by_seconds;
use owntracks_export::transform::{
    build_records, instant_of, normalize, normalize_rows, normalize_timestamp, passes_filters,
    retain_rows, to_record, transform, transform_rows,
};

fn fix(tag: Option<i64>, lat: Option<i64>, lon: Option<i64>, text: &str) -> RawFix {
    RawFix {
        device_tag: tag,
        latitude_e7: lat,
        longitude_e7: lon,
        timestamp: Some(RawTimestamp::Text(String::from(text))),
        accuracy: Some(20),
        altitude: None,
        vertical_accuracy: None,
    }
}

fn fix_at(tag: Option<i64>, lat: Option<i64>, nanos: i64) -> RawFix {
    RawFix {
        device_tag: tag,
        latitude_e7: lat,
        longitude_e7: Some(640_000_000),
        timestamp: Some(RawTimestamp::EpochNanos(nanos)),
        accuracy: None,
        altitude: None,
        vertical_accuracy: None,
    }
}

fn row(tag: Option<i64>, lat_e7: i64, nanos: i64) -> NormalizedRow {
    NormalizedRow {
        device_tag: tag,
        position: Some(Position { lat_e7, lon_e7: -lat_e7 }),
        timestamp_nanos: nanos,
        accuracy: None,
        altitude: None,
        vertical_accuracy: None,
    }
}

fn summary(records: &Vec<LocationRecord>) -> Vec<(i64, i64)> {
    records.iter().map(|r| (r.tst(), r.lat_e7())).collect()
}

#[test]
fn test_transform_records() {
    let mut rows: Vec<RawFix> = Vec::new();
    for i in 0..9 {
        rows.push(fix(
            Some(2),
            Some(420_000_000 + i),
            Some(640_000_000 - i),
            &format!("2015-01-11T12:12:{:02}.000Z", 50 - 5 * i),
        ));
    }
    rows.insert(4, fix(Some(1), None, None, "2015-01-11T12:12:30.000Z"));
    assert_eq!(rows.len(), 10);
    let data = transform(rows, "tt", 1).unwrap();
    assert_eq!(data.len(), 9)
}

#[test]
fn rows_of_the_excluded_device_are_dropped() {
    let rows = vec![
        fix_at(Some(1), Some(1), 3_000_000_000),
        fix_at(Some(2), Some(2), 2_000_000_000),
        fix_at(Some(1), Some(3), 1_000_000_000),
        fix_at(Some(3), Some(4), 0),
    ];
    let records = transform(rows, "tt", 1).unwrap();
    assert_eq!(summary(&records), vec![(0, 4), (2, 2)]);
    let rows = vec![
        fix_at(Some(2), Some(2), 2_000_000_000),
        fix_at(Some(3), Some(4), 0),
    ];
    let without = transform(rows, "tt", 1).unwrap();
    assert_eq!(summary(&without), summary(&records));
}

#[test]
fn excluded_device_is_compared_as_a_number() {
    let rows = vec![
        fix_at(Some(-7), Some(1), 0),
        fix_at(Some(4_294_967_289), Some(2), 0),
        fix_at(Some(i64::MIN), Some(3), 0),
    ];
    let records = transform(rows, "tt", -7).unwrap();
    assert_eq!(summary(&records), vec![(0, 2), (0, 3)]);
}

#[test]
fn rows_without_a_device_tag_are_kept() {
    let rows = vec![
        fix_at(None, Some(1), 0),
        fix_at(None, None, 1_000_000_000),
        fix_at(Some(0), Some(2), 2_000_000_000),
        fix_at(None, Some(3), 3_000_000_000),
    ];
    let records = transform(rows, "tt", 0).unwrap();
    assert_eq!(summary(&records), vec![(0, 1), (3, 3)]);
}

#[test]
fn rows_without_a_latitude_are_dropped() {
    let rows = vec![
        fix_at(Some(5), None, 0),
        RawFix {
            device_tag: Some(5),
            latitude_e7: None,
            longitude_e7: None,
            timestamp: Some(RawTimestamp::EpochNanos(5)),
            accuracy: None,
            altitude: None,
            vertical_accuracy: None,
        },
        fix_at(Some(5), Some(0), 0),
    ];
    let records = transform(rows, "tt", 1).unwrap();
    assert_eq!(summary(&records), vec![(0, 0)]);
    assert_eq!(transform(Vec::new(), "tt", 1).unwrap().len(), 0);
}

#[test]
fn output_is_sorted_by_seconds_and_ties_stay_in_place() {
    let rows = vec![
        fix_at(None, Some(1), 5_900_000_000),
        fix_at(None, Some(2), 3_000_000_000),
        fix_at(None, Some(3), 5_100_000_000),
        fix_at(None, Some(4), -1),
        fix_at(None, Some(5), 3_999_999_999),
        fix_at(None, Some(6), 5_000_000_000),
        fix_at(None, Some(7), 4_000_000_000),
        fix_at(None, Some(8), -1_000_000_000),
    ];
    let records = transform(rows, "tt", 1).unwrap();
    assert_eq!(
        summary(&records),
        vec![(-1, 4), (-1, 8), (3, 2), (3, 5), (4, 7), (5, 1), (5, 3), (5, 6)]
    );
    for pair in records.windows(2) {
        assert!(pair[0].tst() <= pair[1].tst());
    }
}

#[test]
fn sort_agrees_with_the_stable_sort_of_the_standard_library() {
    let mut rows: Vec<NormalizedRow> = Vec::new();
    let mut seed: u64 = 42;
    for i in 0..1000 {
        seed = seed.wrapping_mul(6364136223846793005).wrapping_add(1442695040888963407);
        let second = ((seed >> 33) % 50) as i64 - 25;
        let nanos = second * 1_000_000_000 + ((seed >> 20) % 1_000_000_000) as i64;
        rows.push(row(None, i, nanos));
    }
    let sorted = sort_by_seconds(&rows);
    let mut expected = rows.clone();
    expected.sort_by_key(|r| r.tst());
    assert_eq!(sorted, expected);
    assert_eq!(sort_by_seconds(&Vec::new()), Vec::new());
    let one = vec![row(None, 1, 1)];
    assert_eq!(sort_by_seconds(&one), one);
}

#[test]
fn records_carry_the_fields_of_their_rows() {
    let rows = vec![RawFix {
        device_tag: Some(9),
        latitude_e7: Some(123_456_789),
        longitude_e7: Some(-987_654_321),
        timestamp: Some(RawTimestamp::Text(String::from("2015-01-11T12:12:00.250Z"))),
        accuracy: Some(0),
        altitude: Some(-3),
        vertical_accuracy: None,
    }];
    let records = transform(rows, "xy", 1).unwrap();
    assert_eq!(records.len(), 1);
    let record = &records[0];
    assert_eq!(record.record_type(), "location");
    assert_eq!(record.tid(), "xy");
    assert_eq!(record.timestamp_nanos(), 1_420_978_320_250_000_000);
    assert_eq!(record.tst(), 1_420_978_320);
    assert_eq!(record.lat_e7(), 123_456_789);
    assert_eq!(record.lon_e7(), -987_654_321);
    assert_eq!(record.acc(), Some(0));
    assert_eq!(record.alt(), Some(-3));
    assert_eq!(record.vac(), None);
    assert_eq!(
        record.create_owntrack_line(),
        "2015-01-11T12:12:00Z\t*                 \t{\"_type\":\"location\",\"tid\":\"xy\",\"tst\":1420978320,\"lat\":12.3456789,\"lon\":-98.7654321,\"acc\":0,\"alt\":-3}\n"
    );
}

#[test]
fn timestamp_texts_are_read_as_rfc_3339() {
    let texts = [
        ("1970-01-01T00:00:00Z", 0i64),
        ("2015-01-11T12:12:00Z", 1_420_978_320_000_000_000),
        ("2015-01-11T13:12:00+01:00", 1_420_978_320_000_000_000),
        ("2015-01-11T12:12:00.123456789Z", 1_420_978_320_123_456_789),
        ("1969-12-31T23:59:59.5Z", -500_000_000),
        ("2262-04-11T23:47:16.854775807Z", i64::MAX),
    ];
    for (text, nanos) in texts {
        let timestamp = Some(RawTimestamp::Text(String::from(text)));
        assert_eq!(normalize_timestamp(&timestamp), Ok(nanos), "{}", text);
    }
    assert_eq!(
        normalize_timestamp(&Some(RawTimestamp::EpochNanos(-5))),
        Ok(-5)
    );
    assert_eq!(instant_of(Some(Some(7))), Ok(7));
}

#[test]
fn a_missing_timestamp_is_a_missing_field() {
    assert_eq!(normalize_timestamp(&None), Err(TransformError::MissingField));
    let mut raw = fix_at(None, Some(1), 0);
    raw.timestamp = None;
    assert_eq!(normalize(&raw), Err(TransformError::MissingField));
    assert_eq!(
        transform(vec![fix_at(None, Some(1), 0), raw], "tt", 1).err(),
        Some(TransformError::MissingField)
    );
}

#[test]
fn a_latitude_without_longitude_is_a_missing_field() {
    let mut raw = fix_at(None, Some(1), 0);
    raw.longitude_e7 = None;
    assert_eq!(normalize(&raw), Err(TransformError::MissingField));
    let mut no_position = fix_at(None, None, 0);
    no_position.longitude_e7 = None;
    assert_eq!(normalize(&no_position).unwrap().position, None);
    let lonely_longitude = fix_at(None, None, 0);
    assert_eq!(normalize(&lonely_longitude).unwrap().position, None);
}

#[test]
fn a_text_that_is_no_date_cannot_be_parsed() {
    for text in ["", "yesterday", "2015-01-11", "2015-13-11T12:12:00Z", "2015-01-11T12:12:00"] {
        let timestamp = Some(RawTimestamp::Text(String::from(text)));
        assert_eq!(
            normalize_timestamp(&timestamp),
            Err(TransformError::UnparseableTimestamp),
            "{}",
            text
        );
    }
    assert_eq!(instant_of(None), Err(TransformError::UnparseableTimestamp));
    let rows = vec![fix(None, Some(1), Some(1), "soon")];
    assert_eq!(
        transform(rows, "tt", 1).err(),
        Some(TransformError::UnparseableTimestamp)
    );
}

#[test]
fn a_date_beyond_the_nanoseconds_is_a_type_mismatch() {
    for text in [
        "2262-04-11T23:47:16.854775808Z",
        "9999-12-31T23:59:59Z",
        "1677-09-21T00:12:43.145224191Z",
        "0001-01-01T00:00:00Z",
    ] {
        let timestamp = Some(RawTimestamp::Text(String::from(text)));
        assert_eq!(
            normalize_timestamp(&timestamp),
            Err(TransformError::TypeMismatch),
            "{}",
            text
        );
    }
    assert_eq!(instant_of(Some(None)), Err(TransformError::TypeMismatch));
    let rows = vec![fix(None, Some(1), Some(1), "3000-01-01T00:00:00Z")];
    assert_eq!(
        transform(rows, "tt", 1).err(),
        Some(TransformError::TypeMismatch)
    );
}

#[test]
fn the_first_row_that_fails_decides_the_error() {
    let rows = vec![
        fix(None, Some(1), Some(1), "2015-01-11T12:12:00Z"),
        fix(None, Some(1), Some(1), "3000-01-01T00:00:00Z"),
        fix(None, Some(1), Some(1), "soon"),
    ];
    assert_eq!(normalize_rows(&rows).err(), Some(TransformError::TypeMismatch));
    let rows = vec![
        fix(None, Some(1), Some(1), "soon"),
        fix(None, Some(1), Some(1), "3000-01-01T00:00:00Z"),
    ];
    assert_eq!(
        normalize_rows(&rows).err(),
        Some(TransformError::UnparseableTimestamp)
    );
    let rows = vec![
        fix(None, Some(1), None, "soon"),
        fix(None, Some(1), Some(1), "soon"),
    ];
    assert_eq!(normalize_rows(&rows).err(), Some(TransformError::MissingField));
}

#[test]
fn a_row_that_a_filter_would_drop_still_ends_the_run() {
    let rows = vec![
        fix(Some(2), Some(1), Some(1), "2015-01-11T12:12:00Z"),
        fix(Some(1), Some(1), Some(1), "soon"),
    ];
    assert_eq!(
        transform(rows, "tt", 1).err(),
        Some(TransformError::UnparseableTimestamp)
    );
    let rows = vec![fix(Some(2), None, None, "soon")];
    assert_eq!(
        transform(rows, "tt", 1).err(),
        Some(TransformError::UnparseableTimestamp)
    );
}

#[test]
fn stages_of_the_transform() {
    let raw = vec![
        fix_at(Some(1), Some(10), 2_000_000_000),
        fix_at(None, None, 1_000_000_000),
        fix_at(Some(2), Some(30), 1_500_000_000),
        fix_at(None, Some(40), 1_000_000_000),
    ];
    let normal = normalize_rows(&raw).unwrap();
    assert_eq!(normal.len(), 4);
    assert_eq!(normal[0].device_tag, Some(1));
    assert_eq!(
        normal[0].position,
        Some(Position { lat_e7: 10, lon_e7: 640_000_000 })
    );
    assert_eq!(normal[0].timestamp_nanos, 2_000_000_000);
    assert_eq!(normal[0].tst(), 2);
    assert_eq!(normal[1].position, None);
    assert!(!passes_filters(&normal[0], 1));
    assert!(passes_filters(&normal[0], 2));
    assert!(!passes_filters(&normal[1], 1));
    assert!(passes_filters(&normal[3], 1));
    let kept = retain_rows(&normal, 1);
    assert_eq!(kept, vec![normal[2], normal[3]]);
    let sorted = sort_by_seconds(&kept);
    assert_eq!(sorted, vec![normal[2], normal[3]]);
    let records = build_records(&sorted, "tt");
    assert_eq!(summary(&records), vec![(1, 30), (1, 40)]);
    let record = to_record(&normal[0], "zz");
    assert_eq!(record.tid(), "zz");
    assert_eq!(record.lat_e7(), 10);
    assert_eq!(record.lon_e7(), 640_000_000);
    assert_eq!(record.tst(), 2);
    let direct = transform_rows(&normal, "tt", 1);
    assert_eq!(summary(&direct), summary(&records));
}

#[test]
fn errors_say_what_went_wrong() {
    assert_eq!(TransformError::MissingField.message(), "a row lacks a required field");
    assert_eq!(
        TransformError::TypeMismatch.message(),
        "a timestamp does not fit into nanoseconds"
    );
    assert_eq!(
        TransformError::UnparseableTimestamp.message(),
        "a timestamp cannot be parsed"
    );
}
