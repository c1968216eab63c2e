//! Sorting rows by their seconds: a merge sort that leaves ties in place.

use crate::fix::NormalizedRow;
use crate::order::{
    ascending, at_second, is_stable_sort, lemma_at_second_add, lemma_at_second_none,
    lemma_at_second_push, Timed,
};
use vstd::prelude::*;

verus! {

/// Merges two ascending runs into one. Of two rows of one second, the row
/// of the left run comes first.
fn merge(left: &Vec<NormalizedRow>, right: &Vec<NormalizedRow>) -> (out: Vec<NormalizedRow>)
    requires
        ascending(left@),
        ascending(right@),
        left.len() + right.len() <= usize::MAX,
    ensures
        out.len() == left.len() + right.len(),
        ascending(out@),
        forall|k: int| #[trigger] at_second(out@, k) == at_second(left@, k) + at_second(right@, k),
{
    let mut out: Vec<NormalizedRow> = Vec::new();
    let mut i: usize = 0;
    let mut j: usize = 0;
    proof {
        assert forall|k: int| #[trigger]
            at_second(out@, k) == at_second(left@.take(0), k) + at_second(right@.take(0), k) by {
            lemma_at_second_none(out@, k);
            lemma_at_second_none(left@.take(0), k);
            lemma_at_second_none(right@.take(0), k);
        }
    }
    while i < left.len() || j < right.len()
        invariant
            i <= left.len(),
            j <= right.len(),
            out.len() == i + j,
            left.len() + right.len() <= usize::MAX,
            ascending(left@),
            ascending(right@),
            ascending(out@),
            forall|a: int, b: int|
                0 <= a < out.len() && i <= b < left.len() ==> out[a].seconds() <= left[b].seconds(),
            forall|a: int, b: int|
                0 <= a < out.len() && j <= b < right.len() ==> out[a].seconds()
                    <= right[b].seconds(),
            forall|a: int, b: int|
                0 <= a < j && i <= b < left.len() ==> right[a].seconds() < left[b].seconds(),
            forall|k: int| #[trigger]
                at_second(out@, k) == at_second(left@.take(i as int), k) + at_second(
                    right@.take(j as int),
                    k,
                ),
        decreases left.len() - i + right.len() - j,
    {
        let from_left = if i == left.len() {
            false
        } else if j == right.len() {
            true
        } else {
            left[i].tst() <= right[j].tst()
        };
        let ghost before = out@;
        if from_left {
            let row = left[i];
            out.push(row);
            proof {
                assert(left@.take(i + 1) =~= left@.take(i as int).push(row));
                assert forall|k: int| #[trigger]
                    at_second(out@, k) == at_second(left@.take(i + 1), k) + at_second(
                        right@.take(j as int),
                        k,
                    ) by {
                    lemma_at_second_push(before, row, k);
                    lemma_at_second_push(left@.take(i as int), row, k);
                    assert(at_second(before, k) == at_second(left@.take(i as int), k) + at_second(
                        right@.take(j as int),
                        k,
                    ));
                    if row.seconds() == k {
                        lemma_at_second_none(right@.take(j as int), k);
                        assert(at_second(out@, k) =~= at_second(left@.take(i + 1), k) + at_second(
                            right@.take(j as int),
                            k,
                        ));
                    }
                }
            }
            i = i + 1;
        } else {
            let row = right[j];
            out.push(row);
            proof {
                assert(right@.take(j + 1) =~= right@.take(j as int).push(row));
                assert forall|k: int| #[trigger]
                    at_second(out@, k) == at_second(left@.take(i as int), k) + at_second(
                        right@.take(j + 1),
                        k,
                    ) by {
                    lemma_at_second_push(before, row, k);
                    lemma_at_second_push(right@.take(j as int), row, k);
                    assert(at_second(before, k) == at_second(left@.take(i as int), k) + at_second(
                        right@.take(j as int),
                        k,
                    ));
                    if row.seconds() == k {
                        assert(at_second(out@, k) =~= at_second(left@.take(i as int), k)
                            + at_second(right@.take(j + 1), k));
                    }
                }
            }
            j = j + 1;
        }
    }
    proof {
        assert(left@.take(i as int) =~= left@);
        assert(right@.take(j as int) =~= right@);
    }
    out
}

/// The rows from `lo` up to `hi`, sorted.
fn sort_range(rows: &Vec<NormalizedRow>, lo: usize, hi: usize) -> (sorted: Vec<NormalizedRow>)
    requires
        lo <= hi <= rows.len(),
    ensures
        is_stable_sort(rows@.subrange(lo as int, hi as int), sorted@),
    decreases hi - lo,
{
    let ghost input = rows@.subrange(lo as int, hi as int);
    if hi - lo <= 1 {
        let mut sorted: Vec<NormalizedRow> = Vec::new();
        if hi - lo == 1 {
            sorted.push(rows[lo]);
        }
        assert(sorted@ =~= input);
        sorted
    } else {
        let mid: usize = lo + (hi - lo) / 2;
        let left = sort_range(rows, lo, mid);
        let right = sort_range(rows, mid, hi);
        let sorted = merge(&left, &right);
        proof {
            let front = rows@.subrange(lo as int, mid as int);
            let back = rows@.subrange(mid as int, hi as int);
            assert(input =~= front + back);
            assert forall|k: int| #[trigger] at_second(sorted@, k) == at_second(input, k) by {
                lemma_at_second_add(front, back, k);
                assert(at_second(left@, k) == at_second(front, k));
                assert(at_second(right@, k) == at_second(back, k));
            }
        }
        sorted
    }
}

/// Sorts rows by their whole seconds, earliest first. Rows of one second
/// keep the order in which they came.
pub fn sort_by_seconds(rows: &Vec<NormalizedRow>) -> (sorted: Vec<NormalizedRow>)
    ensures
        is_stable_sort(rows@, sorted@),
{
    assert(rows@.subrange(0, rows.len() as int) =~= rows@);
    sort_range(rows, 0, rows.len())
}

} // verus!
