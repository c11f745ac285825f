//! Median of five and the median-of-medians pivot.
use vstd::prelude::*;
use crate::rank::{
    count_ge, count_le, has_rank, lemma_count_concat, lemma_count_monotone, lemma_count_perm,
    lemma_swap_multiset, lemma_three_at_least, lemma_three_at_most,
};
use crate::select::{select_nth, swap_elements};

verus! {

/// Five handles that refer to five different positions of a window.
spec fn distinct5(a0: usize, a1: usize, a2: usize, a3: usize, a4: usize) -> bool {
    &&& a0 < 5 && a1 < 5 && a2 < 5 && a3 < 5 && a4 < 5
    &&& a0 != a1 && a0 != a2 && a0 != a3 && a0 != a4
    &&& a1 != a2 && a1 != a3 && a1 != a4
    &&& a2 != a3 && a2 != a4
    &&& a3 != a4
}

/// The handles `(a, b)` after one compare-and-swap step: exchanged when
/// the element under `a` is smaller than the one under `b`.
pub open spec fn network_step(s: Seq<i32>, a: int, b: int) -> (int, int) {
    if s[a] < s[b] {
        (b, a)
    } else {
        (a, b)
    }
}

/// The position that the nine-step median-of-five network leaves under
/// the handle `a2`. It depends only on the outcomes of the comparisons.
pub open spec fn network_median(s: Seq<i32>) -> int {
    let (a1, a0) = network_step(s, 1, 0);
    let (a2, a0) = network_step(s, 2, a0);
    let (a3, a0) = network_step(s, 3, a0);
    let (a4, a0) = network_step(s, 4, a0);
    let (a2, a1) = network_step(s, a2, a1);
    let (a3, a1) = network_step(s, a3, a1);
    let (a4, a1) = network_step(s, a4, a1);
    let (a3, a2) = network_step(s, a3, a2);
    let (a4, a2) = network_step(s, a4, a2);
    a2
}

/// One step of the comparison network: afterwards the handle `a` refers
/// to the larger of the two elements and `b` to the smaller.
fn order_handles(array: &[i32], a: &mut usize, b: &mut usize)
    requires
        *old(a) < array@.len(),
        *old(b) < array@.len(),
    ensures
        (*final(a) as int, *final(b) as int) == network_step(array@, *old(a) as int, *old(b) as int),
        (*final(a) == *old(a) && *final(b) == *old(b))
            || (*final(a) == *old(b) && *final(b) == *old(a)),
        array@[*final(b) as int] <= array@[*final(a) as int],
{
    if array[*a] < array[*b] {
        core::mem::swap(a, b);
    }
}

/// Position of the exact median of a window of five elements.
///
/// Five handles start at positions 0 to 4. A fixed network of nine
/// compare-and-swap steps exchanges handles, never elements: the first
/// four leave the minimum under `a0`, the next three the second smallest
/// under `a1`, the last two the third smallest under `a2`.
pub fn median5(array: &[i32]) -> (r: usize)
    requires
        array@.len() == 5,
    ensures
        r < 5,
        r == network_median(array@),
        has_rank(array@, array@[r as int], 2),
{
    let mut a4: usize = 4;
    let mut a3: usize = 3;
    let mut a2: usize = 2;
    let mut a1: usize = 1;
    let mut a0: usize = 0;

    order_handles(array, &mut a1, &mut a0);
    order_handles(array, &mut a2, &mut a0);
    order_handles(array, &mut a3, &mut a0);
    order_handles(array, &mut a4, &mut a0);
    assert(distinct5(a0, a1, a2, a3, a4));
    order_handles(array, &mut a2, &mut a1);
    order_handles(array, &mut a3, &mut a1);
    order_handles(array, &mut a4, &mut a1);
    assert(distinct5(a0, a1, a2, a3, a4));
    order_handles(array, &mut a3, &mut a2);
    order_handles(array, &mut a4, &mut a2);
    assert(distinct5(a0, a1, a2, a3, a4));

    proof {
        let s = array@;
        let m = s[a2 as int];
        lemma_three_at_most(s, a2 as int, a0 as int, a1 as int, m);
        lemma_three_at_least(s, a2 as int, a3 as int, a4 as int, m);
    }
    a2
}

/// Position, in sorted order, of the lower end of the bracket in which
/// the pivot falls: the 30th percentile, rounded down.
pub open spec fn lower_percentile_index(n: int) -> int {
    n * 3 / 10
}

/// Position, in sorted order, of the upper end of the bracket in which
/// the pivot falls: the 70th percentile rounded up, never past the end.
/// A length of the form `10k + 4` gets one position of slack: its four
/// trailing elements take no part in the grouping, and with an even
/// number of groups they can all fall below the pivot.
pub open spec fn upper_percentile_index(n: int) -> int {
    let slack = if n % 10 == 4 { 1int } else { 0int };
    if (n * 7 + 9) / 10 + slack < n - 1 {
        (n * 7 + 9) / 10 + slack
    } else {
        n - 1
    }
}

/// Once `s` is sorted, `v` lies between the values at the two bracket
/// positions: more than `lower_percentile_index` elements are at most
/// `v`, and at most `upper_percentile_index` elements are below it.
pub open spec fn within_percentiles(s: Seq<i32>, v: i32) -> bool {
    &&& s.contains(v)
    &&& count_le(s, v) > lower_percentile_index(s.len() as int)
    &&& count_ge(s, v) >= s.len() - upper_percentile_index(s.len() as int)
}

/// The group of five that starts at position `5 * g`.
pub open spec fn group(s: Seq<i32>, g: int) -> Seq<i32> {
    s.subrange(5 * g, 5 * g + 5)
}

/// `meds` holds, in group order, the median of each full group of five
/// of `s`.
pub open spec fn are_group_medians(s: Seq<i32>, meds: Seq<i32>) -> bool {
    &&& meds.len() == s.len() / 5
    &&& forall|g: int| 0 <= g < meds.len() ==> #[trigger] has_rank(group(s, g), meds[g], 2)
}

/// With `m = n / 5` groups, `3 * (m / 2 + 1)` values at most the pivot
/// and `3 * (m - m / 2)` values at least it place it inside the bracket.
proof fn lemma_bracket_arith(n: int, below: int, above: int)
    requires
        n >= 5,
        below >= 3 * (n / 5 / 2 + 1),
        above >= 3 * (n / 5 - n / 5 / 2),
    ensures
        below > lower_percentile_index(n),
        above >= n - upper_percentile_index(n),
{
    let m = n / 5;
    let r = n % 5;
    let h = m / 2;
    let e = m % 2;
    let q = (n * 7 + 9) / 10;
    assert(n == 5 * m + r && 0 <= r < 5);
    assert(m == 2 * h + e && 0 <= e < 2);
    assert(10 * q <= n * 7 + 9 < 10 * q + 10);
    assert(10 * (n * 3 / 10) <= n * 3);
    assert(n % 10 == 4 <==> (e == 0 && r == 4));
}

/// Each median at most `v` brings three values at most `v` from its own
/// group, and each median at least `v` brings three values at least `v`.
proof fn lemma_group_counts(s: Seq<i32>, meds: Seq<i32>, v: i32, k: int)
    requires
        0 <= k <= meds.len(),
        5 * meds.len() <= s.len(),
        forall|g: int| 0 <= g < meds.len() ==> has_rank(#[trigger] group(s, g), meds[g], 2),
    ensures
        count_le(s.subrange(0, 5 * k), v) >= 3 * count_le(meds.subrange(0, k), v),
        count_ge(s.subrange(0, 5 * k), v) >= 3 * count_ge(meds.subrange(0, k), v),
    decreases k,
{
    if k > 0 {
        lemma_group_counts(s, meds, v, k - 1);
        let gr = group(s, k - 1);
        let med = meds[k - 1];
        assert(s.subrange(0, 5 * k) =~= s.subrange(0, 5 * (k - 1)) + gr);
        assert(meds.subrange(0, k).drop_last() =~= meds.subrange(0, k - 1));
        lemma_count_concat(s.subrange(0, 5 * (k - 1)), gr, v);
        assert(has_rank(gr, med, 2));
        if med <= v {
            lemma_count_monotone(gr, med, v);
        }
        if v <= med {
            lemma_count_monotone(gr, v, med);
        }
    }
}

/// Picks a pivot whose rank lies between the 30th and 70th percentile of
/// the values in `array`, and returns its position and value.
///
/// Under five elements the pivot is the exact median, at position
/// `len / 2`. Otherwise the median of each full group of five is moved to
/// the front, in group order, and the median of those medians is selected
/// at position `num_medians / 2`; a trailing partial group takes no part.
/// The values are only permuted.
pub fn median_of_medians(array: &mut [i32]) -> (r: (usize, i32))
    requires
        old(array)@.len() > 0,
    ensures
        final(array)@.len() == old(array)@.len(),
        final(array)@.to_multiset() == old(array)@.to_multiset(),
        r.0 < final(array)@.len(),
        final(array)@[r.0 as int] == r.1,
        old(array)@.len() < 5 ==> r.0 == old(array)@.len() / 2 && has_rank(
            old(array)@,
            r.1,
            (old(array)@.len() / 2) as int,
        ),
        old(array)@.len() >= 5 ==> r.0 == old(array)@.len() / 5 / 2,
        old(array)@.len() >= 5 ==> has_rank(
            final(array)@.subrange(0, (old(array)@.len() / 5) as int),
            r.1,
            (old(array)@.len() / 5 / 2) as int,
        ),
        old(array)@.len() >= 5 ==> exists|meds: Seq<i32>|
            #[trigger] are_group_medians(old(array)@, meds) && final(array)@.subrange(
                0,
                (old(array)@.len() / 5) as int,
            ).to_multiset() == meds.to_multiset(),
        old(array)@.len() >= 5 ==> final(array)@.subrange(
            5 * (old(array)@.len() / 5) as int,
            old(array)@.len() as int,
        ) == old(array)@.subrange(5 * (old(array)@.len() / 5) as int, old(array)@.len() as int),
        old(array)@.len() >= 5 ==> count_le(old(array)@, r.1) >= 3 * (old(array)@.len() / 5 / 2 + 1),
        old(array)@.len() >= 5 ==> count_ge(old(array)@, r.1) >= 3 * (old(array)@.len() / 5
            - old(array)@.len() / 5 / 2),
        within_percentiles(old(array)@, r.1),
{
    let ghost orig = array@;
    let n = array.len();
    if n < 5 {
        let median = n / 2;
        select_nth(array, n, median);
        assert(array@.subrange(0, n as int) =~= array@);
        assert(orig.subrange(0, n as int) =~= orig);
        return (median, array[median]);
    }
    let num_medians = n / 5;
    let mut i: usize = 0;
    while i < num_medians
        invariant
            i <= num_medians,
            num_medians == n / 5,
            array@.len() == n,
            orig.len() == n,
            array@.to_multiset() == orig.to_multiset(),
            forall|j: int| 5 * i <= j < n ==> array@[j] == orig[j],
            forall|g: int| 0 <= g < i ==> has_rank(#[trigger] group(orig, g), array@[g], 2),
        decreases num_medians - i,
    {
        let start = 5 * i;
        let window = vstd::slice::slice_subrange(array, start, start + 5);
        assert(window@ =~= group(orig, i as int));
        let idx = median5(window);
        let ghost before = array@;
        swap_elements(array, i, start + idx);
        proof {
            lemma_swap_multiset(before, i as int, (start + idx) as int);
        }
        i = i + 1;
    }
    assert(array@.subrange(5 * num_medians as int, n as int) =~= orig.subrange(
        5 * num_medians as int,
        n as int,
    ));
    let ghost meds = array@.subrange(0, num_medians as int);
    let ghost rest = array@.subrange(num_medians as int, n as int);
    assert(array@ =~= meds + rest);
    let idx = num_medians / 2;
    select_nth(array, num_medians, idx);
    let pivot = array[idx];
    proof {
        broadcast use vstd::seq_lib::group_to_multiset_ensures;
        broadcast use vstd::seq_lib::lemma_multiset_commutative;
        let fin = array@;
        assert(fin =~= fin.subrange(0, num_medians as int) + rest);
        assert((meds + rest).to_multiset() == meds.to_multiset().add(rest.to_multiset()));
        assert(fin.to_multiset() == orig.to_multiset());
        assert(fin.contains(pivot));
        assert(fin.to_multiset().count(pivot) > 0);
        assert(orig.contains(pivot));
        let m = num_medians as int;
        assert forall|g: int| 0 <= g < m implies has_rank(#[trigger] group(orig, g), meds[g], 2) by {}
        lemma_group_counts(orig, meds, pivot, m);
        assert(meds.subrange(0, m) =~= meds);
        assert(orig =~= orig.subrange(0, 5 * m) + orig.subrange(5 * m, n as int));
        lemma_count_concat(orig.subrange(0, 5 * m), orig.subrange(5 * m, n as int), pivot);
        lemma_count_perm(meds, fin.subrange(0, m), pivot);
        lemma_bracket_arith(n as int, count_le(orig, pivot) as int, count_ge(orig, pivot) as int);
        assert(are_group_medians(orig, meds));
        assert(fin.subrange(5 * m, n as int) =~= orig.subrange(5 * m, n as int));
    }
    (idx, pivot)
}

} // verus!
