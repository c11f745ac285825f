//! Ranks of values in a sequence, stated by counting.
use vstd::prelude::*;

verus! {

/// Number of elements of `s` that are at most `v`.
pub open spec fn count_le(s: Seq<i32>, v: i32) -> nat
    decreases s.len(),
{
    if s.len() == 0 {
        0
    } else {
        count_le(s.drop_last(), v) + if s.last() <= v { 1nat } else { 0nat }
    }
}

/// Number of elements of `s` that are at least `v`.
pub open spec fn count_ge(s: Seq<i32>, v: i32) -> nat
    decreases s.len(),
{
    if s.len() == 0 {
        0
    } else {
        count_ge(s.drop_last(), v) + if s.last() >= v { 1nat } else { 0nat }
    }
}

/// `v` is the element of rank `k` (0-based) of `s`: once `s` is sorted,
/// position `k` holds `v`. Equivalently, more than `k` elements are at
/// most `v`, and at most `k` elements are below it.
pub open spec fn has_rank(s: Seq<i32>, v: i32, k: int) -> bool {
    &&& s.contains(v)
    &&& count_le(s, v) > k
    &&& count_ge(s, v) >= s.len() - k
}

/// Three different positions of a five-element window hold values at
/// most `v`.
pub proof fn lemma_three_at_most(s: Seq<i32>, i: int, j: int, k: int, v: i32)
    requires
        s.len() == 5,
        0 <= i < 5 && 0 <= j < 5 && 0 <= k < 5,
        i != j && i != k && j != k,
        s[i] <= v && s[j] <= v && s[k] <= v,
    ensures
        count_le(s, v) >= 3,
{
    reveal_with_fuel(count_le, 6);
    assert(s.drop_last().drop_last().drop_last().drop_last().drop_last().len() == 0);
}

/// Three different positions of a five-element window hold values at
/// least `v`.
pub proof fn lemma_three_at_least(s: Seq<i32>, i: int, j: int, k: int, v: i32)
    requires
        s.len() == 5,
        0 <= i < 5 && 0 <= j < 5 && 0 <= k < 5,
        i != j && i != k && j != k,
        s[i] >= v && s[j] >= v && s[k] >= v,
    ensures
        count_ge(s, v) >= 3,
{
    reveal_with_fuel(count_ge, 6);
    assert(s.drop_last().drop_last().drop_last().drop_last().drop_last().len() == 0);
}

/// Raising the threshold counts no fewer values at most it and no more
/// values at least it.
pub proof fn lemma_count_monotone(s: Seq<i32>, x: i32, y: i32)
    requires
        x <= y,
    ensures
        count_le(s, x) <= count_le(s, y),
        count_ge(s, x) >= count_ge(s, y),
    decreases s.len(),
{
    if s.len() > 0 {
        lemma_count_monotone(s.drop_last(), x, y);
    }
}

/// Counting splits over concatenation.
pub proof fn lemma_count_concat(a: Seq<i32>, b: Seq<i32>, v: i32)
    ensures
        count_le(a + b, v) == count_le(a, v) + count_le(b, v),
        count_ge(a + b, v) == count_ge(a, v) + count_ge(b, v),
    decreases b.len(),
{
    if b.len() > 0 {
        lemma_count_concat(a, b.drop_last(), v);
        assert((a + b).drop_last() =~= a + b.drop_last());
    } else {
        assert(a + b =~= a);
    }
}

/// When every element is at most `v`, all of them are counted; likewise
/// for at least `v`.
pub proof fn lemma_count_all(s: Seq<i32>, v: i32)
    ensures
        (forall|i: int| 0 <= i < s.len() ==> s[i] <= v) ==> count_le(s, v) == s.len(),
        (forall|i: int| 0 <= i < s.len() ==> s[i] >= v) ==> count_ge(s, v) == s.len(),
    decreases s.len(),
{
    if s.len() > 0 {
        lemma_count_all(s.drop_last(), v);
    }
}

/// Removing the element at position `i` removes exactly its own share
/// from each count.
pub proof fn lemma_count_remove(s: Seq<i32>, i: int, v: i32)
    requires
        0 <= i < s.len(),
    ensures
        count_le(s, v) == count_le(s.remove(i), v) + if s[i] <= v { 1nat } else { 0nat },
        count_ge(s, v) == count_ge(s.remove(i), v) + if s[i] >= v { 1nat } else { 0nat },
{
    let a = s.subrange(0, i);
    let b = s.subrange(i + 1, s.len() as int);
    assert(s =~= a + (seq![s[i]] + b));
    assert(s.remove(i) =~= a + b);
    lemma_count_concat(a, seq![s[i]] + b, v);
    lemma_count_concat(seq![s[i]], b, v);
    lemma_count_concat(a, b, v);
    reveal_with_fuel(count_le, 2);
    reveal_with_fuel(count_ge, 2);
}

/// Counts depend only on the multiset of values.
pub proof fn lemma_count_perm(a: Seq<i32>, b: Seq<i32>, v: i32)
    requires
        a.to_multiset() == b.to_multiset(),
    ensures
        count_le(a, v) == count_le(b, v),
        count_ge(a, v) == count_ge(b, v),
    decreases a.len(),
{
    broadcast use vstd::seq_lib::group_to_multiset_ensures;
    if a.len() == 0 {
        assert(a.to_multiset().len() == 0);
        assert(b.to_multiset().len() == b.len());
    } else {
        let x = a.last();
        let a1 = a.drop_last();
        assert(a =~= a1.push(x));
        assert(a.to_multiset().count(x) > 0);
        assert(b.contains(x));
        let j = choose|j: int| 0 <= j < b.len() && b[j] == x;
        let b1 = b.remove(j);
        assert(a1.to_multiset() =~= b1.to_multiset());
        lemma_count_perm(a1, b1, v);
        lemma_count_remove(b, j, v);
    }
}

/// Exchanging two elements keeps the multiset of values.
pub proof fn lemma_swap_multiset(s: Seq<i32>, i: int, j: int)
    requires
        0 <= i < s.len(),
        0 <= j < s.len(),
    ensures
        s.update(i, s[j]).update(j, s[i]).to_multiset() == s.to_multiset(),
{
    broadcast use vstd::seq_lib::group_to_multiset_ensures;
    broadcast use vstd::seq_lib::to_multiset_update;
    broadcast use vstd::multiset::group_multiset_axioms;
    let s1 = s.update(i, s[j]);
    if i == j {
        assert(s1.update(j, s[i]) =~= s);
    } else {
        assert(s1[j] == s[j]);
        assert(s.contains(s[i]));
        assert(s.to_multiset().count(s[i]) > 0);
        assert(s1.to_multiset() == s.to_multiset().insert(s[j]).remove(s[i]));
        assert(s1.update(j, s[i]).to_multiset() == s1.to_multiset().insert(s[i]).remove(s[j]));
        assert(s1.update(j, s[i]).to_multiset() =~= s.to_multiset());
    }
}

} // verus!
