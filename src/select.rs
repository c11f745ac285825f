//! Selection of the element of a given rank within a prefix of a slice.
use vstd::prelude::*;
use crate::rank::{has_rank, lemma_count_all, lemma_count_concat,
    lemma_count_perm, lemma_swap_multiset};

verus! {

/// Exchanges the elements at positions `i` and `j`.
pub(crate) fn swap_elements(array: &mut [i32], i: usize, j: usize)
    requires
        i < old(array)@.len(),
        j < old(array)@.len(),
    ensures
        final(array)@ == old(array)@.update(i as int, old(array)@[j as int]).update(
            j as int,
            old(array)@[i as int],
        ),
{
    let t = array[i];
    array[i] = array[j];
    array[j] = t;
}

/// Reorders the first `len` elements of `array` so that position `k`
/// holds the element of rank `k` among them, every earlier position a
/// value at most that one and every later position (below `len`) a value
/// at least that one. The elements from `len` on are left untouched.
///
/// The prefix is ordered by repeated minimum selection up to position
/// `k`: after step `p`, positions `0..=p` hold the `p + 1` smallest values
/// in ascending order.
pub fn select_nth(array: &mut [i32], len: usize, k: usize)
    requires
        k < len <= old(array)@.len(),
    ensures
        final(array)@.len() == old(array)@.len(),
        final(array)@.subrange(0, len as int).to_multiset()
            == old(array)@.subrange(0, len as int).to_multiset(),
        final(array)@.subrange(len as int, final(array)@.len() as int)
            == old(array)@.subrange(len as int, old(array)@.len() as int),
        has_rank(old(array)@.subrange(0, len as int), final(array)@[k as int], k as int),
        forall|i: int| 0 <= i < k ==> final(array)@[i] <= final(array)@[k as int],
        forall|j: int| k < j < len ==> final(array)@[j] >= final(array)@[k as int],
{
    let ghost orig = array@;
    let n = array.len();
    let mut p: usize = 0;
    while p <= k
        invariant
            p <= k + 1,
            k < len <= n,
            array@.len() == n,
            orig.len() == n,
            array@.subrange(0, len as int).to_multiset() == orig.subrange(0, len as int).to_multiset(),
            array@.subrange(len as int, n as int) == orig.subrange(len as int, n as int),
            forall|i: int, j: int| 0 <= i < j < p ==> array@[i] <= array@[j],
            forall|i: int, j: int| 0 <= i < p <= j < len ==> array@[i] <= array@[j],
        decreases k + 1 - p,
    {
        let mut m: usize = p;
        let mut q: usize = p + 1;
        while q < len
            invariant
                p <= m < q <= len,
                len <= array@.len(),
                forall|t: int| p <= t < q ==> array@[m as int] <= array@[t],
            decreases len - q,
        {
            if array[q] < array[m] {
                m = q;
            }
            q = q + 1;
        }
        let ghost before = array@;
        swap_elements(array, p, m);
        proof {
            let pre = before.subrange(0, len as int);
            assert(array@.subrange(0, len as int) =~= pre.update(p as int, pre[m as int]).update(
                m as int,
                pre[p as int],
            ));
            lemma_swap_multiset(pre, p as int, m as int);
            assert(array@.subrange(len as int, n as int) =~= before.subrange(len as int, n as int));
        }
        p = p + 1;
    }
    proof {
        let fin = array@.subrange(0, len as int);
        let v = array@[k as int];
        let lo = fin.subrange(0, k + 1);
        let hi = fin.subrange(k as int, len as int);
        assert(fin =~= lo + fin.subrange(k + 1, len as int));
        assert(fin =~= fin.subrange(0, k as int) + hi);
        lemma_count_concat(lo, fin.subrange(k + 1, len as int), v);
        lemma_count_concat(fin.subrange(0, k as int), hi, v);
        lemma_count_all(lo, v);
        lemma_count_all(hi, v);
        lemma_count_perm(fin, orig.subrange(0, len as int), v);
        broadcast use vstd::seq_lib::group_to_multiset_ensures;
        assert(fin.contains(v));
        assert(fin.to_multiset().count(v) > 0);
        assert(orig.subrange(0, len as int).contains(v));
    }
}

} // verus!
