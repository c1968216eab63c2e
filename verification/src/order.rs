//! Order by time: what it means for a sequence to be another one sorted by
//! its seconds with ties left in place, and the facts that follow from it.

use vstd::prelude::*;

verus! {

/// A value that belongs to one second of time.
pub trait Timed {
    /// Whole seconds after the epoch.
    spec fn seconds(&self) -> int;
}

/// The test of whether an item belongs to the second `k`.
pub open spec fn in_second<T: Timed>(k: int) -> spec_fn(T) -> bool {
    |x: T| x.seconds() == k
}

/// The items of `s` that belong to the second `k`, in the order of `s`.
pub open spec fn at_second<T: Timed>(s: Seq<T>, k: int) -> Seq<T> {
    s.filter(in_second::<T>(k))
}

/// No item comes before an item of an earlier second.
pub open spec fn ascending<T: Timed>(s: Seq<T>) -> bool {
    forall|i: int, j: int| 0 <= i <= j < s.len() ==> s[i].seconds() <= s[j].seconds()
}

/// `output` holds the items of `input` in ascending order of their seconds,
/// and the items of any one second in the order that they have in `input`.
/// Only one sequence is such an output of a given input.
pub open spec fn is_stable_sort<T: Timed>(input: Seq<T>, output: Seq<T>) -> bool {
    &&& output.len() == input.len()
    &&& ascending(output)
    &&& forall|k: int| #[trigger] at_second(output, k) == at_second(input, k)
}

/// What one more item at the end adds to the items of a second.
pub proof fn lemma_at_second_push<T: Timed>(s: Seq<T>, x: T, k: int)
    ensures
        at_second(s.push(x), k) == if x.seconds() == k {
            at_second(s, k).push(x)
        } else {
            at_second(s, k)
        },
{
    s.lemma_filter_push(x, in_second::<T>(k));
}

/// A sequence without an item of the second `k` has nothing at that second.
pub proof fn lemma_at_second_none<T: Timed>(s: Seq<T>, k: int)
    requires
        forall|i: int| 0 <= i < s.len() ==> s[i].seconds() != k,
    ensures
        at_second(s, k) == Seq::<T>::empty(),
{
    let pred = in_second::<T>(k);
    assert(s.all(|y: T| !pred(y)));
    s.lemma_all_neg_filter_empty(pred);
    assert(at_second(s, k) =~= Seq::<T>::empty());
}

/// The items of a second in two sequences joined are those of the first
/// sequence, then those of the second.
pub proof fn lemma_at_second_add<T: Timed>(a: Seq<T>, b: Seq<T>, k: int)
    ensures
        at_second(a + b, k) == at_second(a, k) + at_second(b, k),
{
    Seq::filter_distributes_over_add(a, b, in_second::<T>(k));
}

/// Every item of a sequence is among its items at the item's own second.
pub proof fn lemma_at_second_contains<T: Timed>(s: Seq<T>, i: int)
    requires
        0 <= i < s.len(),
    ensures
        at_second(s, s[i].seconds()).contains(s[i]),
{
    s.lemma_filter_contains(in_second::<T>(s[i].seconds()), i);
}

/// What is among the items of a second is an item of the sequence, at that
/// second.
pub proof fn lemma_at_second_member<T: Timed>(s: Seq<T>, k: int, x: T)
    requires
        at_second(s, k).contains(x),
    ensures
        s.contains(x),
        x.seconds() == k,
{
    let pred = in_second::<T>(k);
    s.lemma_filter_contains_rev(pred, x);
    let i = choose|i: int| 0 <= i < s.filter(pred).len() && s.filter(pred)[i] == x;
    s.lemma_filter_pred(pred, i);
}

/// What a sorted output holds, its input holds.
pub proof fn lemma_sorted_items_are_items<T: Timed>(input: Seq<T>, output: Seq<T>, i: int)
    requires
        is_stable_sort(input, output),
        0 <= i < output.len(),
    ensures
        input.contains(output[i]),
{
    lemma_at_second_contains(output, i);
    assert(at_second(output, output[i].seconds()) == at_second(input, output[i].seconds()));
    lemma_at_second_member(input, output[i].seconds(), output[i]);
}

/// A map that keeps the second of every item carries the items of a second
/// to the items of that second.
pub proof fn lemma_at_second_map<A: Timed, B: Timed>(s: Seq<A>, f: spec_fn(A) -> B, k: int)
    requires
        forall|a: A| #[trigger] f(a).seconds() == a.seconds(),
    ensures
        at_second(s.map_values(f), k) == at_second(s, k).map_values(f),
    decreases s.len(),
{
    if s.len() == 0 {
        lemma_at_second_none(s, k);
        lemma_at_second_none(s.map_values(f), k);
        assert(at_second(s, k).map_values(f) =~= Seq::<B>::empty());
    } else {
        let front = s.drop_last();
        let x = s.last();
        lemma_at_second_map(front, f, k);
        assert(s =~= front.push(x));
        assert(s.map_values(f) =~= front.map_values(f).push(f(x)));
        lemma_at_second_push(front, x, k);
        lemma_at_second_push(front.map_values(f), f(x), k);
        if x.seconds() == k {
            assert(at_second(front, k).push(x).map_values(f) =~= at_second(front, k).map_values(
                f,
            ).push(f(x)));
        }
    }
}

/// A map that keeps the second of every item carries a sorted output to a
/// sorted output of the mapped input.
pub proof fn lemma_stable_sort_map<A: Timed, B: Timed>(
    input: Seq<A>,
    output: Seq<A>,
    f: spec_fn(A) -> B,
)
    requires
        forall|a: A| #[trigger] f(a).seconds() == a.seconds(),
        is_stable_sort(input, output),
    ensures
        is_stable_sort(input.map_values(f), output.map_values(f)),
{
    let mapped_in = input.map_values(f);
    let mapped_out = output.map_values(f);
    assert forall|k: int| #[trigger] at_second(mapped_out, k) == at_second(mapped_in, k) by {
        lemma_at_second_map(input, f, k);
        lemma_at_second_map(output, f, k);
        assert(at_second(output, k) == at_second(input, k));
    }
    assert forall|i: int, j: int| 0 <= i <= j < mapped_out.len() implies mapped_out[i].seconds()
        <= mapped_out[j].seconds() by {
        assert(output[i].seconds() <= output[j].seconds());
    }
}

/// Two ascending sequences with the same items at every second are one
/// sequence.
pub proof fn lemma_ascending_unique<T: Timed>(a: Seq<T>, b: Seq<T>)
    requires
        a.len() == b.len(),
        ascending(a),
        ascending(b),
        forall|k: int| #[trigger] at_second(a, k) == at_second(b, k),
    ensures
        a == b,
    decreases a.len(),
{
    if a.len() == 0 {
        assert(a =~= b);
    } else {
        let x = a.last();
        let y = b.last();
        let a0 = a.drop_last();
        let b0 = b.drop_last();
        assert(a =~= a0.push(x));
        assert(b =~= b0.push(y));
        // The last items belong to the same second: the latest of all.
        assert(x.seconds() <= y.seconds()) by {
            lemma_at_second_contains(a, a.len() - 1);
            lemma_at_second_member(b, x.seconds(), x);
            let i = choose|i: int| 0 <= i < b.len() && b[i] == x;
            assert(b[i].seconds() <= b[b.len() - 1].seconds());
        }
        assert(y.seconds() <= x.seconds()) by {
            lemma_at_second_contains(b, b.len() - 1);
            lemma_at_second_member(a, y.seconds(), y);
            let i = choose|i: int| 0 <= i < a.len() && a[i] == y;
            assert(a[i].seconds() <= a[a.len() - 1].seconds());
        }
        let last_second = x.seconds();
        lemma_at_second_push(a0, x, last_second);
        lemma_at_second_push(b0, y, last_second);
        assert(at_second(a, last_second) == at_second(b, last_second));
        assert(x == y) by {
            assert(at_second(a0, last_second).push(x).last() == x);
            assert(at_second(b0, last_second).push(y).last() == y);
        }
        assert forall|k: int| #[trigger] at_second(a0, k) == at_second(b0, k) by {
            lemma_at_second_push(a0, x, k);
            lemma_at_second_push(b0, y, k);
            assert(at_second(a, k) == at_second(b, k));
            if k == last_second {
                assert(at_second(a0, k) =~= at_second(a0, k).push(x).drop_last());
                assert(at_second(b0, k) =~= at_second(b0, k).push(y).drop_last());
            }
        }
        assert forall|i: int, j: int| 0 <= i <= j < a0.len() implies a0[i].seconds()
            <= a0[j].seconds() by {
            assert(a[i].seconds() <= a[j].seconds());
        }
        assert forall|i: int, j: int| 0 <= i <= j < b0.len() implies b0[i].seconds()
            <= b0[j].seconds() by {
            assert(b[i].seconds() <= b[j].seconds());
        }
        lemma_ascending_unique(a0, b0);
    }
}

/// A sequence has one sorted output and no other.
pub proof fn lemma_stable_sort_unique<T: Timed>(input: Seq<T>, first: Seq<T>, second: Seq<T>)
    requires
        is_stable_sort(input, first),
        is_stable_sort(input, second),
    ensures
        first == second,
{
    assert forall|k: int| #[trigger] at_second(first, k) == at_second(second, k) by {
        assert(at_second(first, k) == at_second(input, k));
        assert(at_second(second, k) == at_second(input, k));
    }
    lemma_ascending_unique(first, second);
}

} // verus!
