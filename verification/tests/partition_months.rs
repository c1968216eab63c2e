use owntracks_export::partition::{
    bucket_key, group_lines, keyed_line, plan_writes, Bucket, BucketKey, KeyedLine, WritePlan,
};
use owntracks_export::fix::{RawFix, RawTimestamp};
use owntracks_export::record::LocationRecord;
use owntracks_export::transform::transform;

fn record(nanos: i64) -> LocationRecord {
    LocationRecord::new(String::from("tt"), nanos, 420_000_000, 640_000_000, None, None, None)
}

const DECEMBER_31: i64 = 1_420_070_399_000_000_000;
const JANUARY_1: i64 = 1_420_070_400_000_000_000;
const DAY: i64 = 86_400_000_000_000;

fn keys(buckets: &Vec<Bucket>) -> Vec<(i32, u32, usize)> {
    buckets.iter().map(|b| (b.key.year, b.key.month, b.lines.len())).collect()
}

#[test]
fn december_and_january_land_in_two_files() {
    let records = vec![record(DECEMBER_31), record(JANUARY_1)];
    assert_eq!(bucket_key(&records[0]), BucketKey { year: 2014, month: 12 });
    assert_eq!(bucket_key(&records[1]), BucketKey { year: 2015, month: 1 });
    let plan = plan_writes(&records);
    assert_eq!(keys(&plan.flushed), vec![(2014, 12, 1)]);
    assert_eq!(plan.flushed[0].path(), "rust_output/2014-12.rec");
    assert_eq!(plan.flushed[0].lines[0], records[0].create_owntrack_line());
    let pending = plan.pending.as_ref().unwrap();
    assert_eq!(pending.key, BucketKey { year: 2015, month: 1 });
    assert_eq!(pending.path(), "rust_output/2015-1.rec");
    assert_eq!(pending.lines, vec![records[1].create_owntrack_line()]);
    assert_ne!(plan.flushed[0].path(), pending.path());
    assert_eq!(plan.last_path(), "rust_output/2015-1.rec");
}

#[test]
fn december_is_flushed_when_january_has_come() {
    let mut records = vec![record(DECEMBER_31 - DAY), record(DECEMBER_31)];
    let before = plan_writes(&records);
    assert_eq!(before.flushed.len(), 0);
    assert_eq!(before.pending.as_ref().unwrap().lines.len(), 2);
    assert_eq!(before.last_path(), "rust_output/2014-12.rec");
    records.push(record(JANUARY_1));
    let after = plan_writes(&records);
    assert_eq!(keys(&after.flushed), vec![(2014, 12, 2)]);
    assert_eq!(after.flushed[0].lines, before.pending.as_ref().unwrap().lines);
    assert_eq!(after.pending.as_ref().unwrap().lines.len(), 1);
    records.push(record(JANUARY_1 + DAY));
    let later = plan_writes(&records);
    assert_eq!(keys(&later.flushed), vec![(2014, 12, 2)]);
    assert_eq!(later.pending.as_ref().unwrap().lines.len(), 2);
}

#[test]
fn no_records_no_buckets() {
    let plan: WritePlan = plan_writes(&Vec::new());
    assert_eq!(plan.flushed.len(), 0);
    assert!(plan.pending.is_none());
    assert_eq!(plan.last_path(), "");
}

#[test]
fn lines_of_all_buckets_are_the_lines_of_the_records() {
    let mut records: Vec<LocationRecord> = Vec::new();
    for i in 0..200 {
        records.push(record(DECEMBER_31 - 100 * DAY + i * 3 * DAY / 2));
    }
    let plan = plan_writes(&records);
    let mut emitted: Vec<String> = Vec::new();
    for bucket in &plan.flushed {
        assert!(!bucket.lines.is_empty());
        emitted.extend(bucket.lines.iter().cloned());
    }
    emitted.extend(plan.pending.as_ref().unwrap().lines.iter().cloned());
    let lines: Vec<String> = records.iter().map(|r| r.create_owntrack_line()).collect();
    assert_eq!(emitted, lines);
    let months: Vec<(i32, u32)> = plan.flushed.iter().map(|b| (b.key.year, b.key.month)).collect();
    assert_eq!(
        months,
        vec![(2014, 9), (2014, 10), (2014, 11), (2014, 12), (2015, 1), (2015, 2), (2015, 3), (2015, 4), (2015, 5), (2015, 6)]
    );
    assert_eq!(plan.last_path(), "rust_output/2015-7.rec");
    for pair in plan.flushed.windows(2) {
        assert_ne!(pair[0].key, pair[1].key);
    }
}

#[test]
fn a_month_that_comes_back_starts_a_bucket_of_its_own() {
    let records = vec![record(JANUARY_1), record(DECEMBER_31), record(JANUARY_1 + DAY)];
    let plan = plan_writes(&records);
    assert_eq!(keys(&plan.flushed), vec![(2015, 1, 1), (2014, 12, 1)]);
    assert_eq!(plan.pending.as_ref().unwrap().key, BucketKey { year: 2015, month: 1 });
    assert_eq!(plan.pending.as_ref().unwrap().lines.len(), 1);
}

#[test]
fn months_are_months_of_utc() {
    assert_eq!(bucket_key(&record(-1)), BucketKey { year: 1969, month: 12 });
    assert_eq!(bucket_key(&record(0)), BucketKey { year: 1970, month: 1 });
    assert_eq!(BucketKey { year: 1970, month: 1 }.path(), "rust_output/1970-1.rec");
    assert_eq!(BucketKey { year: 2015, month: 10 }.path(), "rust_output/2015-10.rec");
}

fn keyed(year: i32, month: u32, line: &str) -> KeyedLine {
    KeyedLine { key: BucketKey { year, month }, line: String::from(line) }
}

#[test]
fn lines_are_grouped_by_their_keys() {
    let plan = group_lines(vec![
        keyed(2014, 12, "a"),
        keyed(2014, 12, "b"),
        keyed(2015, 1, "c"),
        keyed(2015, 2, "d"),
        keyed(2015, 2, "e"),
        keyed(2015, 2, "f"),
    ]);
    assert_eq!(keys(&plan.flushed), vec![(2014, 12, 2), (2015, 1, 1)]);
    assert_eq!(plan.flushed[0].lines, vec!["a", "b"]);
    assert_eq!(plan.flushed[1].lines, vec!["c"]);
    let pending = plan.pending.as_ref().unwrap();
    assert_eq!(pending.key, BucketKey { year: 2015, month: 2 });
    assert_eq!(pending.lines, vec!["d", "e", "f"]);
    assert_eq!(plan.last_path(), "rust_output/2015-2.rec");
    let single = group_lines(vec![keyed(2015, 1, "x")]);
    assert_eq!(single.flushed.len(), 0);
    assert_eq!(single.pending.as_ref().unwrap().lines, vec!["x"]);
    let same_month_other_year = group_lines(vec![keyed(2014, 1, "x"), keyed(2015, 1, "y")]);
    assert_eq!(keys(&same_month_other_year.flushed), vec![(2014, 1, 1)]);
}

#[test]
fn a_record_gives_its_line_and_its_month() {
    let item = keyed_line(&record(DECEMBER_31));
    assert_eq!(item.key, BucketKey { year: 2014, month: 12 });
    assert_eq!(item.line, record(DECEMBER_31).create_owntrack_line());
    assert!(item.line.starts_with("2014-12-31T23:59:59Z\t"));
}

#[test]
fn a_run_emits_its_lines_in_ascending_time() {
    let mut rows: Vec<RawFix> = Vec::new();
    let mut seed: u64 = 7;
    for i in 0..500 {
        seed = seed.wrapping_mul(6364136223846793005).wrapping_add(1442695040888963407);
        let day = ((seed >> 33) % 400) as i64;
        rows.push(RawFix {
            device_tag: if i % 7 == 0 { Some(1) } else if i % 5 == 0 { None } else { Some(2) },
            latitude_e7: if i % 11 == 0 { None } else { Some(420_000_000 + i) },
            longitude_e7: Some(640_000_000 - i),
            timestamp: Some(RawTimestamp::EpochNanos(DECEMBER_31 - 200 * DAY + day * DAY + i)),
            accuracy: Some(i),
            altitude: None,
            vertical_accuracy: None,
        });
    }
    let kept = (0..500).filter(|i| i % 7 != 0 && i % 11 != 0).count();
    let records = transform(rows, "tt", 1).unwrap();
    assert_eq!(records.len(), kept);
    let plan = plan_writes(&records);
    let mut emitted: Vec<String> = Vec::new();
    let mut months: Vec<BucketKey> = Vec::new();
    for bucket in &plan.flushed {
        months.push(bucket.key);
        emitted.extend(bucket.lines.iter().cloned());
    }
    let pending = plan.pending.as_ref().unwrap();
    months.push(pending.key);
    emitted.extend(pending.lines.iter().cloned());
    assert_eq!(emitted.len(), kept);
    let mut last = i64::MIN;
    for line in &emitted {
        let payload = line.split('\t').nth(2).unwrap();
        let value: serde_json::Value = serde_json::from_str(payload).unwrap();
        let tst = value["tst"].as_i64().unwrap();
        assert!(last <= tst);
        last = tst;
        assert_ne!(value["acc"].as_i64().unwrap() % 7, 0);
    }
    for pair in months.windows(2) {
        assert!((pair[0].year, pair[0].month) < (pair[1].year, pair[1].month));
    }
    assert_eq!(plan.last_path(), pending.path());
}
