//! Percentile selection over already-sorted samples, shared by the
//! dependency-aware simulator and the throughput simulator.
//!
//! The nearest-rank rule: a percentile below or at 0 selects the first
//! element, one at or above 100 selects the last, and anything in between
//! selects the element at `round((p / 100) * (len - 1))`.

use vstd::prelude::*;

verus! {

/// The index that the nearest-rank rule selects in a sorted sample of
/// length `len` (`len > 0`) for a percentile `p`.
///
/// For `0 < p < 100` this is `(p / 100) * (len - 1)` rounded to the
/// nearest integer, halves away from zero.
pub open spec fn percentile_index(len: int, p: int) -> int {
    if p <= 0 {
        0
    } else if p >= 100 {
        len - 1
    } else {
        (2 * p * (len - 1) + 100) / 200
    }
}

/// The selected index always lands inside the sample.
pub proof fn lemma_percentile_index_in_bounds(len: int, p: int)
    requires
        len > 0,
    ensures
        0 <= percentile_index(len, p) < len,
{
    if 0 < p < 100 {
        assert(0 <= (2 * p * (len - 1) + 100) / 200 < len) by (nonlinear_arith)
            requires
                len > 0,
                0 < p < 100,
        ;
    }
}

/// The selected index never moves left as the percentile grows.
pub proof fn lemma_percentile_index_monotone(len: int, p: int, q: int)
    requires
        len > 0,
        p <= q,
    ensures
        percentile_index(len, p) <= percentile_index(len, q),
{
    lemma_percentile_index_in_bounds(len, p);
    lemma_percentile_index_in_bounds(len, q);
    if 0 < p < 100 && 0 < q < 100 {
        assert((2 * p * (len - 1) + 100) / 200 <= (2 * q * (len - 1) + 100) / 200)
            by (nonlinear_arith)
            requires
                len > 0,
                0 < p,
                p <= q,
                q < 100,
        ;
    }
}

/// Ascending order on the sample values this library works with.
pub open spec fn sorted_u64(s: Seq<u64>) -> bool {
    forall|i: int, j: int| 0 <= i <= j < s.len() ==> #[trigger] s[i] <= #[trigger] s[j]
}

/// The value the nearest-rank rule picks from a non-empty sorted sample.
pub open spec fn percentile_of(s: Seq<u64>, p: int) -> u64 {
    s[percentile_index(s.len() as int, p)]
}

/// Percentile 0 is the minimum of a sorted sample, percentile 100 the
/// maximum, and the picked value never decreases as the percentile grows:
/// in particular `p0 <= p50 <= p85 <= p100`.
pub proof fn lemma_percentile_bounds_and_monotone(s: Seq<u64>, p: int, q: int)
    requires
        s.len() > 0,
        sorted_u64(s),
        p <= q,
    ensures
        percentile_of(s, 0) == s.first(),
        percentile_of(s, 100) == s.last(),
        forall|i: int| 0 <= i < s.len() ==> s.first() <= #[trigger] s[i] && s[i] <= s.last(),
        percentile_of(s, p) <= percentile_of(s, q),
{
    lemma_percentile_index_in_bounds(s.len() as int, p);
    lemma_percentile_index_in_bounds(s.len() as int, q);
    lemma_percentile_index_monotone(s.len() as int, p, q);
}

/// Inserts a value into an ascending sequence, after every element at or
/// below it.
pub open spec fn insert_sorted_spec(s: Seq<u64>, x: u64) -> Seq<u64>
    decreases s.len(),
{
    if s.len() == 0 {
        seq![x]
    } else if x < s.last() {
        insert_sorted_spec(s.drop_last(), x).push(s.last())
    } else {
        s.push(x)
    }
}

/// Sorts a sequence of sample values ascending.
pub open spec fn sort_spec(s: Seq<u64>) -> Seq<u64>
    decreases s.len(),
{
    if s.len() == 0 {
        Seq::empty()
    } else {
        insert_sorted_spec(sort_spec(s.drop_last()), s.last())
    }
}

proof fn lemma_insert_sorted_spec(s: Seq<u64>, x: u64)
    requires
        sorted_u64(s),
    ensures
        sorted_u64(insert_sorted_spec(s, x)),
        insert_sorted_spec(s, x).len() == s.len() + 1,
        insert_sorted_spec(s, x).to_multiset() == s.to_multiset().insert(x),
    decreases s.len(),
{
    s.to_multiset_ensures();
    insert_sorted_spec(s, x).to_multiset_ensures();
    if s.len() == 0 {
        assert(s =~= Seq::<u64>::empty());
        assert(insert_sorted_spec(s, x) =~= Seq::<u64>::empty().push(x));
        Seq::<u64>::empty().to_multiset_ensures();
    } else if x < s.last() {
        assert(sorted_u64(s.drop_last()));
        lemma_insert_sorted_spec(s.drop_last(), x);
        let inner = insert_sorted_spec(s.drop_last(), x);
        inner.to_multiset_ensures();
        s.drop_last().to_multiset_ensures();
        assert forall|i: int| 0 <= i < inner.len() implies #[trigger] inner[i] <= s.last() by {
            assert(inner.to_multiset().contains(inner[i]));
            if inner[i] != x {
                assert(s.drop_last().to_multiset().contains(inner[i]));
                let k = choose|k: int|
                    0 <= k < s.drop_last().len() && s.drop_last()[k] == inner[i];
                assert(s[k] == s.drop_last()[k]);
                assert(s[k] <= s.last());
            }
        }
        assert(sorted_u64(inner.push(s.last())));
        assert(s =~= s.drop_last().push(s.last()));
        assert(s.drop_last().push(s.last()).to_multiset() =~= s.drop_last().to_multiset().insert(
            s.last(),
        ));
        assert(insert_sorted_spec(s, x).to_multiset() =~= s.to_multiset().insert(x));
    } else {
        assert(insert_sorted_spec(s, x) == s.push(x));
        assert forall|i: int, j: int|
            0 <= i <= j < s.push(x).len() implies #[trigger] s.push(x)[i] <= #[trigger] s.push(
            x,
        )[j] by {
            if j < s.len() {
            } else if i < s.len() {
                assert(s[i] <= s.last());
            }
        }
    }
}

/// The sort is sorted, keeps the length, and keeps the contents.
pub proof fn lemma_sort_spec_properties(s: Seq<u64>)
    ensures
        sorted_u64(sort_spec(s)),
        sort_spec(s).len() == s.len(),
        sort_spec(s).to_multiset() == s.to_multiset(),
    decreases s.len(),
{
    s.to_multiset_ensures();
    if s.len() == 0 {
        assert(s =~= Seq::<u64>::empty());
        assert(sort_spec(s) =~= Seq::<u64>::empty());
    } else {
        lemma_sort_spec_properties(s.drop_last());
        lemma_insert_sorted_spec(sort_spec(s.drop_last()), s.last());
        s.drop_last().to_multiset_ensures();
        assert(s =~= s.drop_last().push(s.last()));
        assert(s.drop_last().push(s.last()).to_multiset() =~= s.drop_last().to_multiset().insert(
            s.last(),
        ));
        assert(sort_spec(s).to_multiset() =~= s.to_multiset());
    }
}

proof fn lemma_insert_sorted_split(s: Seq<u64>, x: u64, pos: int)
    requires
        0 <= pos <= s.len(),
        forall|i: int| 0 <= i < pos ==> #[trigger] s[i] <= x,
        forall|i: int| pos <= i < s.len() ==> x < #[trigger] s[i],
    ensures
        insert_sorted_spec(s, x) == s.take(pos).push(x) + s.skip(pos),
    decreases s.len(),
{
    if s.len() == 0 {
        assert(insert_sorted_spec(s, x) =~= s.take(pos).push(x) + s.skip(pos));
    } else if pos == s.len() {
        assert(s.take(pos) =~= s);
        assert(s.skip(pos) =~= Seq::<u64>::empty());
        assert(insert_sorted_spec(s, x) =~= s.take(pos).push(x) + s.skip(pos));
    } else {
        assert(x < s.last());
        lemma_insert_sorted_split(s.drop_last(), x, pos);
        assert(s.drop_last().take(pos) =~= s.take(pos));
        assert(s.drop_last().skip(pos).push(s.last()) =~= s.skip(pos));
        assert((s.take(pos).push(x) + s.drop_last().skip(pos)).push(s.last()) =~= s.take(
            pos,
        ).push(x) + s.skip(pos));
    }
}

/// Sorts sample values ascending; the result is exactly `sort_spec` of the
/// input.
pub fn sort_u64s(values: &Vec<u64>) -> (r: Vec<u64>)
    ensures
        r@ == sort_spec(values@),
        sorted_u64(r@),
        r@.len() == values@.len(),
{
    let mut sorted: Vec<u64> = Vec::new();
    let mut i: usize = 0;
    while i < values.len()
        invariant
            i <= values@.len(),
            sorted@ == sort_spec(values@.take(i as int)),
            sorted@.len() == i,
            sorted_u64(sorted@),
        decreases values@.len() - i,
    {
        let x = values[i];
        let mut pos: usize = sorted.len();
        while pos > 0 && sorted[pos - 1] > x
            invariant
                pos <= sorted@.len(),
                sorted_u64(sorted@),
                forall|j: int| pos <= j < sorted@.len() ==> x < #[trigger] sorted@[j],
            decreases pos,
        {
            pos = pos - 1;
        }
        proof {
            assert forall|j: int| 0 <= j < pos implies #[trigger] sorted@[j] <= x by {
                assert(sorted@[j] <= sorted@[pos - 1]);
            }
            lemma_insert_sorted_split(sorted@, x, pos as int);
            lemma_insert_sorted_spec(sorted@, x);
            assert(values@.take(i + 1).drop_last() =~= values@.take(i as int));
            assert(values@.take(i + 1).last() == values@[i as int]);
        }
        sorted.insert(pos, x);
        proof {
            assert(sorted@ =~= sort_spec(values@.take(i + 1)));
        }
        i = i + 1;
    }
    proof {
        assert(values@.take(values@.len() as int) =~= values@);
        lemma_sort_spec_properties(values@);
    }
    sorted
}

/// Returns the percentile value from a vector that is already sorted in
/// ascending order: `None` only on an empty vector, otherwise exactly the
/// element at the nearest-rank index.
pub fn value_sorted<T: Copy>(sorted_values: &Vec<T>, percentile: i64) -> (r: Option<T>)
    ensures
        sorted_values@.len() == 0 ==> r is None,
        sorted_values@.len() > 0 ==> r == Some(
            sorted_values@[percentile_index(sorted_values@.len() as int, percentile as int)],
        ),
{
    if sorted_values.len() == 0 {
        return None;
    }

    let len: usize = sorted_values.len();
    let index: usize = if percentile <= 0 {
        0
    } else if percentile >= 100 {
        len - 1
    } else {
        proof {
            lemma_percentile_index_in_bounds(len as int, percentile as int);
        }
        let p: u128 = percentile as u128;
        let scaled: u128 = 2 * p * ((len - 1) as u128) + 100;
        let idx: u128 = scaled / 200;
        idx as usize
    };

    proof {
        lemma_percentile_index_in_bounds(len as int, percentile as int);
    }
    Some(sorted_values[index])
}

} // verus!
