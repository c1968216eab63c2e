//! Records grouped by UTC calendar month, and the plan of what a run
//! writes: one file for each month, named by year and month.
//!
//! A bucket is flushed when a record of another month follows it. Nothing
//! follows the bucket of the last month, so a run leaves that bucket
//! unwritten and only reports its path. The plan keeps that bucket apart as
//! pending: whoever wants the last month on disk as well writes the pending
//! bucket after the flushed ones.

use crate::calendar::utc_fields;
use crate::decimal::{decimal_text, push_decimal};
use crate::record::{models, LocationRecord, RecordModel};
use vstd::prelude::*;
use vstd::string::StringExecFns;

verus! {

/// The calendar month, in UTC, that a bucket collects.
#[derive(Clone, Copy, Debug, PartialEq, Eq, Structural)]
pub struct BucketKey {
    pub year: i32,
    pub month: u32,
}

/// The month of a record: year and month of its instant in UTC.
pub open spec fn key_of(record: RecordModel) -> BucketKey {
    BucketKey {
        year: utc_fields(record.timestamp_nanos as int).0,
        month: utc_fields(record.timestamp_nanos as int).1,
    }
}

/// The file of a month: `rust_output/<year>-<month>.rec`, the month without
/// a leading zero.
pub open spec fn path_text(key: BucketKey) -> Seq<char> {
    "rust_output/"@ + decimal_text(key.year as int) + "-"@ + decimal_text(key.month as int)
        + ".rec"@
}

/// A line and the month that it belongs to.
#[derive(Debug)]
pub struct KeyedLine {
    pub key: BucketKey,
    pub line: String,
}

/// What a keyed line holds: its month and its text.
pub struct KeyedText {
    pub key: BucketKey,
    pub line: Seq<char>,
}

impl View for KeyedLine {
    type V = KeyedText;

    open spec fn view(&self) -> KeyedText {
        KeyedText { key: self.key, line: self.line@ }
    }
}

/// What each of a sequence of keyed lines holds.
pub open spec fn keyed_texts(items: Seq<KeyedLine>) -> Seq<KeyedText> {
    items.map_values(|item: KeyedLine| item@)
}

/// The line of a record with the month of the record.
pub open spec fn keyed(record: RecordModel) -> KeyedText {
    KeyedText { key: key_of(record), line: record.line() }
}

/// The lines of records with their months, in the order of the records.
pub open spec fn keyed_lines(records: Seq<RecordModel>) -> Seq<KeyedText> {
    records.map_values(|r: RecordModel| keyed(r))
}

/// The lines in runs: each run is the longest stretch of neighbours of one
/// month. A month that comes back after another month starts a run of its
/// own.
pub open spec fn month_runs(items: Seq<KeyedText>) -> Seq<Seq<KeyedText>>
    decreases items.len(),
{
    if items.len() == 0 {
        Seq::empty()
    } else {
        let front = month_runs(items.drop_last());
        let item = items.last();
        if front.len() > 0 && front.last().last().key == item.key {
            front.drop_last().push(front.last().push(item))
        } else {
            front.push(seq![item])
        }
    }
}

/// What a bucket holds: its month and its lines.
pub struct BucketModel {
    pub key: BucketKey,
    pub lines: Seq<Seq<char>>,
}

/// The texts of keyed lines, in their order.
pub open spec fn lines_of(items: Seq<KeyedText>) -> Seq<Seq<char>> {
    items.map_values(|item: KeyedText| item.line)
}

/// The texts of strings, in their order.
pub open spec fn texts_of(lines: Seq<String>) -> Seq<Seq<char>> {
    lines.map_values(|line: String| line@)
}

/// The bucket of a run: the month of its lines, and the lines.
pub open spec fn bucket_of(run: Seq<KeyedText>) -> BucketModel {
    BucketModel { key: run.first().key, lines: lines_of(run) }
}

/// The lines of one month, in the order in which they came.
#[derive(Debug)]
pub struct Bucket {
    pub key: BucketKey,
    pub lines: Vec<String>,
}

impl View for Bucket {
    type V = BucketModel;

    open spec fn view(&self) -> BucketModel {
        BucketModel { key: self.key, lines: texts_of(self.lines@) }
    }
}

/// What a run writes and what it leaves.
#[derive(Debug)]
pub struct WritePlan {
    /// The buckets to write, in their order: one file each.
    pub flushed: Vec<Bucket>,
    /// The bucket of the last month, which is not written.
    pub pending: Option<Bucket>,
}

/// `plan` is the write plan of the lines: its flushed buckets are the
/// buckets of all runs but the last, and the bucket of the last run is
/// pending. Without lines there is neither.
pub open spec fn is_write_plan(items: Seq<KeyedText>, plan: WritePlan) -> bool {
    let runs = month_runs(items);
    &&& plan.pending is Some <==> runs.len() > 0
    &&& plan.pending is Some ==> {
        &&& plan.flushed.len() == runs.len() - 1
        &&& plan.pending.unwrap()@ == bucket_of(runs.last())
    }
    &&& plan.pending is None ==> plan.flushed.len() == 0
    &&& forall|b: int|
        0 <= b < plan.flushed.len() ==> (#[trigger] plan.flushed[b])@ == bucket_of(runs[b])
}

impl BucketKey {
    /// The file of the month: `rust_output/<year>-<month>.rec`.
    pub fn path(&self) -> (path: String)
        ensures
            path@ == path_text(*self),
    {
        let mut path = String::new();
        path.append("rust_output/");
        push_decimal(&mut path, self.year as i64);
        path.append("-");
        push_decimal(&mut path, self.month as i64);
        path.append(".rec");
        path
    }
}

impl Bucket {
    /// The file of the bucket.
    pub fn path(&self) -> (path: String)
        ensures
            path@ == path_text(self.key),
    {
        self.key.path()
    }
}

impl WritePlan {
    /// The path that a run reports when it ends: that of the last month,
    /// whose bucket is pending. Without lines it is empty.
    pub fn last_path(&self) -> (path: String)
        ensures
            path@ == match self.pending {
                Some(bucket) => path_text(bucket.key),
                None => Seq::<char>::empty(),
            },
    {
        match &self.pending {
            Some(bucket) => bucket.path(),
            None => String::new(),
        }
    }
}

/// The month of a record.
pub fn bucket_key(record: &LocationRecord) -> (key: BucketKey)
    ensures
        key == key_of(record@),
{
    let t = record.get_timestamp();
    BucketKey { year: t.year(), month: t.month() }
}

/// The line of a record with the month of the record.
pub fn keyed_line(record: &LocationRecord) -> (item: KeyedLine)
    ensures
        item@ == keyed(record@),
{
    KeyedLine { key: bucket_key(record), line: record.create_owntrack_line() }
}

/// Groups lines by month, in the order in which they come, and plans the
/// writes: a bucket for each run of lines of one month. All buckets but the
/// last are to be written; the last one stays pending.
pub fn group_lines(items: Vec<KeyedLine>) -> (plan: WritePlan)
    ensures
        is_write_plan(keyed_texts(items@), plan),
{
    let mut flushed: Vec<Bucket> = Vec::new();
    let mut key = BucketKey { year: 0, month: 0 };
    let mut lines: Vec<String> = Vec::new();
    let ghost all = keyed_texts(items@);
    let ghost mut seen: int = 0;
    assert(all.take(0) =~= Seq::<KeyedText>::empty());
    for item in it: items.into_iter()
        invariant
            seen == it.index(),
            it.seq() == items@,
            all == keyed_texts(items@),
            0 <= seen <= all.len(),
            seen == 0 ==> flushed.len() == 0 && lines.len() == 0,
            seen > 0 ==> {
                let runs = month_runs(all.take(seen));
                &&& runs.len() == flushed.len() + 1
                &&& runs.last().len() > 0
                &&& key == runs.last().first().key
                &&& key == runs.last().last().key
                &&& texts_of(lines@) == lines_of(runs.last())
            },
            forall|b: int|
                0 <= b < flushed.len() ==> (#[trigger] flushed[b])@ == bucket_of(
                    month_runs(all.take(seen))[b],
                ),
    {
        let ghost before = all.take(seen);
        let ghost runs = month_runs(before);
        proof {
            assert(all[seen] == item@);
            assert(all.take(seen + 1) =~= before.push(item@));
            assert(before.push(item@).drop_last() =~= before);
        }
        let KeyedLine { key: item_key, line } = item;
        if lines.len() > 0 && item_key == key {
            let ghost lines_before = lines@;
            lines.push(line);
            proof {
                let grown = runs.drop_last().push(runs.last().push(item@));
                assert(month_runs(all.take(seen + 1)) == grown);
                assert forall|j: int| 0 <= j < lines@.len() implies texts_of(lines@)[j]
                    == lines_of(grown.last())[j] by {
                    if j < lines_before.len() {
                        assert(texts_of(lines_before)[j] == lines_of(runs.last())[j]);
                    }
                }
                assert(texts_of(lines@) =~= lines_of(grown.last()));
            }
        } else {
            if lines.len() > 0 {
                flushed.push(Bucket { key, lines });
            }
            key = item_key;
            lines = Vec::new();
            lines.push(line);
            proof {
                let grown = runs.push(seq![item@]);
                assert(month_runs(all.take(seen + 1)) == grown);
                assert(texts_of(lines@) =~= lines_of(grown.last()));
            }
        }
        proof {
            seen = seen + 1;
        }
    }
    assert(all.take(seen) =~= all);
    if lines.len() > 0 {
        WritePlan { flushed, pending: Some(Bucket { key, lines }) }
    } else {
        WritePlan { flushed, pending: None }
    }
}

/// Groups records by month, in the order in which they come, and plans the
/// writes: a bucket for each run of records of one month, with the lines of
/// its records. All buckets but the last are to be written; the last one
/// stays pending.
pub fn plan_writes(records: &Vec<LocationRecord>) -> (plan: WritePlan)
    ensures
        is_write_plan(keyed_lines(models(records@)), plan),
{
    let mut items: Vec<KeyedLine> = Vec::new();
    let mut i: usize = 0;
    while i < records.len()
        invariant
            i <= records.len(),
            items.len() == i,
            forall|j: int| 0 <= j < i ==> items[j]@ == keyed(records[j]@),
        decreases records.len() - i,
    {
        items.push(keyed_line(&records[i]));
        i = i + 1;
    }
    assert(keyed_texts(items@) =~= keyed_lines(models(records@)));
    group_lines(items)
}

/// Every run holds lines, all of one month, and the last run ends with the
/// last of the lines. Runs that are neighbours are of different months.
pub proof fn lemma_runs_are_months(items: Seq<KeyedText>)
    ensures
        items.len() > 0 ==> month_runs(items).len() > 0 && month_runs(items).last().last()
            == items.last(),
        forall|b: int|
            0 <= b < month_runs(items).len() ==> (#[trigger] month_runs(items)[b]).len() > 0,
        forall|b: int, j: int|
            0 <= b < month_runs(items).len() && 0 <= j < month_runs(items)[b].len() ==> (
            #[trigger] month_runs(items)[b][j]).key == month_runs(items)[b].first().key,
        forall|b: int|
            0 <= b < month_runs(items).len() - 1 ==> (#[trigger] month_runs(items)[b]).first().key
                != month_runs(items)[b + 1].first().key,
    decreases items.len(),
{
    if items.len() > 0 {
        let front = month_runs(items.drop_last());
        let item = items.last();
        let runs = month_runs(items);
        lemma_runs_are_months(items.drop_last());
        if front.len() > 0 && front.last().last().key == item.key {
            let last = front.len() - 1;
            assert forall|b: int, j: int| 0 <= b < runs.len() && 0 <= j < runs[b].len() implies (
            #[trigger] runs[b][j]).key == runs[b].first().key by {
                if b < last {
                    assert(runs[b] == front[b]);
                } else if j < front[last].len() {
                    assert(runs[b][j] == front[last][j]);
                    assert(runs[b].first() == front[last].first());
                } else {
                    assert(front[last][front[last].len() - 1].key == front[last].first().key);
                }
            }
            assert forall|b: int| 0 <= b < runs.len() - 1 implies (#[trigger] runs[b]).first().key
                != runs[b + 1].first().key by {
                assert(runs[b] == front[b]);
                assert(runs[b + 1].first() == front[b + 1].first());
            }
        } else {
            assert forall|b: int, j: int| 0 <= b < runs.len() && 0 <= j < runs[b].len() implies (
            #[trigger] runs[b][j]).key == runs[b].first().key by {
                if b < front.len() {
                    assert(runs[b] == front[b]);
                }
            }
            assert forall|b: int| 0 <= b < runs.len() - 1 implies (#[trigger] runs[b]).first().key
                != runs[b + 1].first().key by {
                assert(runs[b] == front[b]);
                if b + 1 < front.len() {
                    assert(runs[b + 1] == front[b + 1]);
                } else {
                    let last = front.len() - 1;
                    assert(front[last][front[last].len() - 1].key == front[last].first().key);
                }
            }
        }
    }
}

/// The runs, one after the other, are the lines: grouping changes no line
/// and no order.
pub proof fn lemma_runs_keep_the_order(items: Seq<KeyedText>)
    ensures
        month_runs(items).flatten() == items,
    decreases items.len(),
{
    broadcast use Seq::lemma_flatten_push;

    if items.len() == 0 {
        assert(month_runs(items).flatten() =~= items);
    } else {
        let front = month_runs(items.drop_last());
        let item = items.last();
        lemma_runs_keep_the_order(items.drop_last());
        if front.len() > 0 && front.last().last().key == item.key {
            assert(front =~= front.drop_last().push(front.last()));
            assert(front.drop_last().push(front.last()).flatten() =~= front.drop_last().flatten()
                + front.last());
            assert(front.flatten() == front.drop_last().flatten() + front.last());
            assert(month_runs(items).flatten() =~= front.drop_last().flatten()
                + front.last().push(item));
            assert(front.drop_last().flatten() + front.last().push(item) =~= (
            front.drop_last().flatten() + front.last()).push(item));
            assert(items =~= items.drop_last().push(item));
        } else {
            assert(month_runs(items).flatten() =~= front.flatten() + seq![item]);
            assert(items =~= items.drop_last().push(item));
        }
    }
}

/// The order of what is emitted: the lines of the buckets, bucket after
/// bucket, are the lines of the records, record after record. The records
/// of the transform ascend in time, and so does what is emitted.
pub proof fn lemma_emission_keeps_the_order(records: Seq<RecordModel>)
    ensures
        month_runs(keyed_lines(records)).flatten() == keyed_lines(records),
        lines_of(month_runs(keyed_lines(records)).flatten()).len() == records.len(),
        forall|i: int|
            0 <= i < records.len() ==> lines_of(month_runs(keyed_lines(records)).flatten())[i]
                == (#[trigger] records[i]).line(),
{
    lemma_runs_keep_the_order(keyed_lines(records));
}

/// The boundary between months: a line of another month than the last line
/// closes the run of that line as it stands and opens a run of its own,
/// while a line of the same month joins the last run. So a bucket is flushed
/// when the first line of another month has come, and not before.
pub proof fn lemma_month_change_closes_the_run(items: Seq<KeyedText>, next: KeyedText)
    requires
        items.len() > 0,
    ensures
        next.key != items.last().key ==> month_runs(items.push(next)) == month_runs(items).push(
            seq![next],
        ),
        next.key == items.last().key ==> month_runs(items.push(next)) == month_runs(
            items,
        ).drop_last().push(month_runs(items).last().push(next)),
{
    lemma_runs_are_months(items);
    assert(items.push(next).drop_last() =~= items);
}

/// Whether the month `a` comes before the month `b`.
pub open spec fn is_earlier_month(a: BucketKey, b: BucketKey) -> bool {
    a.year < b.year || (a.year == b.year && a.month < b.month)
}

/// The months of the lines never go back in time.
pub open spec fn months_ascend(items: Seq<KeyedText>) -> bool {
    forall|i: int, j: int|
        0 <= i <= j < items.len() ==> !is_earlier_month(
            (#[trigger] items[j]).key,
            (#[trigger] items[i]).key,
        )
}

/// Where the months of the lines never go back in time, every run is of a
/// later month than the runs before it: a month has one bucket, and a
/// bucket once flushed is not come back to.
pub proof fn lemma_ascending_months_have_one_run(items: Seq<KeyedText>)
    requires
        months_ascend(items),
    ensures
        forall|b: int, c: int|
            0 <= b < c < month_runs(items).len() ==> is_earlier_month(
                (#[trigger] month_runs(items)[b]).first().key,
                (#[trigger] month_runs(items)[c]).first().key,
            ),
    decreases items.len(),
{
    if items.len() > 0 {
        let rest = items.drop_last();
        let front = month_runs(rest);
        let item = items.last();
        let runs = month_runs(items);
        assert forall|i: int, j: int| 0 <= i <= j < rest.len() implies !is_earlier_month(
            (#[trigger] rest[j]).key,
            (#[trigger] rest[i]).key,
        ) by {
            assert(rest[i] == items[i]);
            assert(rest[j] == items[j]);
        }
        lemma_ascending_months_have_one_run(rest);
        lemma_runs_are_months(rest);
        if front.len() > 0 && front.last().last().key == item.key {
            assert forall|b: int, c: int| 0 <= b < c < runs.len() implies is_earlier_month(
                (#[trigger] runs[b]).first().key,
                (#[trigger] runs[c]).first().key,
            ) by {
                assert(runs[b] == front[b]);
                assert(runs[c].first() == front[c].first());
            }
        } else {
            assert forall|b: int, c: int| 0 <= b < c < runs.len() implies is_earlier_month(
                (#[trigger] runs[b]).first().key,
                (#[trigger] runs[c]).first().key,
            ) by {
                assert(runs[b] == front[b]);
                if c < front.len() {
                    assert(runs[c] == front[c]);
                } else {
                    // The new run is of the month of the last line, which
                    // is no earlier than the last line before it and is not
                    // of its month.
                    let last = front.len() - 1;
                    let before = rest.len() - 1;
                    assert(front[last].last() == rest[before]);
                    assert(rest[before] == items[before]);
                    assert(!is_earlier_month(items[items.len() - 1].key, items[before].key));
                    assert(front[last][front[last].len() - 1].key == front[last].first().key);
                    if b < last {
                        assert(is_earlier_month(front[b].first().key, front[last].first().key));
                    }
                }
            }
        }
    }
}

} // verus!
