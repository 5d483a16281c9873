//! Orders of indices: stable descending orders, and moving data along an order.
use vstd::prelude::*;

verus! {

/// Whether index `a` is drawn before index `b`: its key is larger, or the keys are equal and
/// it is the smaller index.
pub open spec fn comes_before(keys: Seq<int>, a: u32, b: u32) -> bool {
    keys[a as int] > keys[b as int] || (keys[a as int] == keys[b as int] && a < b)
}

/// Whether `order` lists the indices of `keys` by descending key, equal keys by index.
pub open spec fn is_stable_descending(keys: Seq<int>, order: Seq<u32>) -> bool {
    &&& order.len() == keys.len()
    &&& forall|i: int| 0 <= i < order.len() ==> (#[trigger] order[i]) < keys.len()
    &&& forall|i: int, j: int|
        0 <= i < j < order.len() ==> #[trigger] comes_before(keys, order[i], order[j])
}

/// Whether `order` lists every index below `n` exactly once.
pub open spec fn is_permutation(order: Seq<u32>, n: nat) -> bool {
    &&& order.len() == n
    &&& order.no_duplicates()
    &&& forall|i: int| 0 <= i < order.len() ==> (#[trigger] order[i]) < n
    &&& forall|k: u32| k < n ==> #[trigger] order.contains(k)
}

/// The keys of a list as mathematical integers.
pub open spec fn as_ints(keys: Seq<i32>) -> Seq<int> {
    Seq::new(keys.len(), |i: int| keys[i] as int)
}

/// `n` distinct indices below `n` are all of them.
pub proof fn distinct_indices_cover(order: Seq<u32>, n: nat)
    requires
        order.len() == n,
        order.no_duplicates(),
        forall|i: int| 0 <= i < order.len() ==> (#[trigger] order[i]) < n,
    ensures
        forall|k: u32| k < n ==> #[trigger] order.contains(k),
    decreases n,
{
    if n > 0 {
        let top = (n - 1) as u32;
        if top == n - 1 && order.contains(top) {
            let at = choose|i: int| 0 <= i < order.len() && order[i] == top;
            let rest = order.remove(at);
            assert forall|i: int| 0 <= i < rest.len() implies (#[trigger] rest[i]) < n - 1 by {
                let source = if i < at { i } else { i + 1 };
                assert(rest[i] == order[source]);
                assert(order[source] != order[at]);
            }
            assert(rest.no_duplicates()) by {
                assert forall|i: int, j: int|
                    0 <= i < rest.len() && 0 <= j < rest.len() && i != j implies rest[i]
                    != rest[j] by {
                    let si = if i < at { i } else { i + 1 };
                    let sj = if j < at { j } else { j + 1 };
                    assert(rest[i] == order[si] && rest[j] == order[sj]);
                }
            }
            distinct_indices_cover(rest, (n - 1) as nat);
            assert forall|k: u32| k < n implies #[trigger] order.contains(k) by {
                if k != top {
                    assert(rest.contains(k));
                    let i = choose|i: int| 0 <= i < rest.len() && rest[i] == k;
                    let source = if i < at { i } else { i + 1 };
                    assert(order[source] == k);
                }
            }
        } else {
            // Without the topmost index the list would hold n distinct values below n - 1.
            let rest = order.drop_last();
            assert forall|i: int| 0 <= i < order.len() implies (#[trigger] order[i]) < n - 1 by {
                assert(order.contains(order[i]));
            }
            distinct_indices_cover(rest, (n - 1) as nat);
            assert(rest.contains(order.last()));
            let i = choose|i: int| 0 <= i < rest.len() && rest[i] == order.last();
            assert(order[i] == order[n - 1]);
        }
    }
}

/// A stable descending order lists every index exactly once: nothing is dropped and nothing
/// is drawn twice.
pub proof fn stable_descending_is_permutation(keys: Seq<int>, order: Seq<u32>)
    requires
        is_stable_descending(keys, order),
    ensures
        is_permutation(order, keys.len()),
{
    assert forall|i: int, j: int|
        0 <= i < order.len() && 0 <= j < order.len() && i != j implies order[i] != order[j] by {
        if i < j {
            assert(comes_before(keys, order[i], order[j]));
        } else {
            assert(comes_before(keys, order[j], order[i]));
        }
    }
    distinct_indices_cover(order, keys.len());
}

/// The keys fix the order: two stable descending orders of the same keys are equal.
pub proof fn stable_descending_is_unique(keys: Seq<int>, first: Seq<u32>, second: Seq<u32>)
    requires
        is_stable_descending(keys, first),
        is_stable_descending(keys, second),
    ensures
        first == second,
{
    stable_descending_is_permutation(keys, first);
    stable_descending_is_permutation(keys, second);
    assert forall|i: int| 0 <= i < first.len() implies first[i] == second[i] by {
        lemma_orders_agree(keys, first, second, i);
    }
    assert(first =~= second);
}

proof fn lemma_orders_agree(keys: Seq<int>, first: Seq<u32>, second: Seq<u32>, i: int)
    requires
        is_stable_descending(keys, first),
        is_stable_descending(keys, second),
        is_permutation(first, keys.len()),
        is_permutation(second, keys.len()),
        0 <= i < first.len(),
    ensures
        first[i] == second[i],
    decreases i,
{
    let x = first[i];
    let y = second[i];
    assert(second.contains(x));
    assert(first.contains(y));
    let p = choose|p: int| 0 <= p < second.len() && second[p] == x;
    let q = choose|q: int| 0 <= q < first.len() && first[q] == y;
    if p < i {
        lemma_orders_agree(keys, first, second, p);
        assert(first[p] == first[i]);
    }
    if q < i {
        lemma_orders_agree(keys, first, second, q);
        assert(second[q] == second[i]);
    }
    if x != y {
        assert(comes_before(keys, second[i], second[p]));
        assert(comes_before(keys, first[i], first[q]));
    }
}

/// Whether `order` lists the indices of `lo..hi` in their stable descending order.
spec fn is_sorted_range(keys: Seq<int>, order: Seq<u32>, lo: int, hi: int) -> bool {
    &&& order.len() == hi - lo
    &&& forall|i: int| 0 <= i < order.len() ==> lo <= #[trigger] order[i] < hi
    &&& forall|i: int, j: int|
        0 <= i < j < order.len() ==> #[trigger] comes_before(keys, order[i], order[j])
}

fn merge(keys: &[i32], left: &Vec<u32>, right: &Vec<u32>, lo: u32, mid: u32, hi: u32) -> (out: Vec<
    u32,
>)
    requires
        lo <= mid <= hi <= keys@.len(),
        is_sorted_range(as_ints(keys@), left@, lo as int, mid as int),
        is_sorted_range(as_ints(keys@), right@, mid as int, hi as int),
    ensures
        is_sorted_range(as_ints(keys@), out@, lo as int, hi as int),
{
    let mut out: Vec<u32> = Vec::with_capacity((hi - lo) as usize);
    let mut i: usize = 0;
    let mut j: usize = 0;
    let ghost k = as_ints(keys@);
    while i < left.len() || j < right.len()
        invariant
            k == as_ints(keys@),
            lo <= mid <= hi <= keys@.len(),
            is_sorted_range(k, left@, lo as int, mid as int),
            is_sorted_range(k, right@, mid as int, hi as int),
            i <= left.len(),
            j <= right.len(),
            out.len() == i + j,
            forall|a: int| 0 <= a < out.len() ==> lo <= #[trigger] out[a] < hi,
            forall|a: int, b: int|
                0 <= a < b < out.len() ==> #[trigger] comes_before(k, out[a], out[b]),
            forall|a: int, b: int|
                0 <= a < out.len() && i <= b < left.len() ==> #[trigger] comes_before(
                    k,
                    out[a],
                    left[b],
                ),
            forall|a: int, b: int|
                0 <= a < out.len() && j <= b < right.len() ==> #[trigger] comes_before(
                    k,
                    out[a],
                    right[b],
                ),
        decreases left.len() - i + right.len() - j,
    {
        let take_left = if i >= left.len() {
            false
        } else if j >= right.len() {
            true
        } else {
            keys[left[i] as usize] >= keys[right[j] as usize]
        };
        if take_left {
            assert forall|b: int| j <= b < right.len() implies #[trigger] comes_before(
                k,
                left[i as int],
                right[b],
            ) by {
                if j < b {
                    assert(comes_before(k, right[j as int], right[b]));
                }
                assert(left[i as int] < mid <= right[j as int]);
            }
            out.push(left[i]);
            i = i + 1;
        } else {
            assert forall|b: int| i <= b < left.len() implies #[trigger] comes_before(
                k,
                right[j as int],
                left[b],
            ) by {
                if i < b {
                    assert(comes_before(k, left[i as int], left[b]));
                }
            }
            out.push(right[j]);
            j = j + 1;
        }
    }
    out
}

fn sort_range(keys: &[i32], lo: u32, hi: u32) -> (out: Vec<u32>)
    requires
        lo <= hi <= keys@.len(),
    ensures
        is_sorted_range(as_ints(keys@), out@, lo as int, hi as int),
    decreases hi - lo,
{
    if hi - lo == 0 {
        return Vec::new();
    }
    if hi - lo == 1 {
        let mut out: Vec<u32> = Vec::new();
        out.push(lo);
        return out;
    }
    let mid: u32 = lo + (hi - lo) / 2;
    let left = sort_range(keys, lo, mid);
    let right = sort_range(keys, mid, hi);
    merge(keys, &left, &right, lo, mid, hi)
}

/// Merge sort: the stable descending order of `keys`.
pub fn stable_descending_order(keys: &[i32]) -> (order: Vec<u32>)
    requires
        keys@.len() <= u32::MAX,
    ensures
        is_stable_descending(as_ints(keys@), order@),
        order@.len() == keys@.len(),
        forall|i: int, j: int|
            0 <= i < j < order@.len() ==> {
                let a = #[trigger] order@[i];
                let b = #[trigger] order@[j];
                &&& a < keys@.len() && b < keys@.len()
                &&& keys@[a as int] > keys@[b as int] || (keys@[a as int] == keys@[b as int] && a
                    < b)
            },
{
    let order = sort_range(keys, 0, keys.len() as u32);
    proof {
        assert forall|i: int, j: int| 0 <= i < j < order@.len() implies {
            let a = #[trigger] order@[i];
            let b = #[trigger] order@[j];
            &&& a < keys@.len() && b < keys@.len()
            &&& keys@[a as int] > keys@[b as int] || (keys@[a as int] == keys@[b as int] && a < b)
        } by {
            stable_orders_descend(as_ints(keys@), order@, i, j);
        }
    }
    order
}

/// `src` read along `order`.
pub open spec fn gathered<T>(src: Seq<T>, order: Seq<u32>) -> Seq<T> {
    Seq::new(order.len(), |i: int| src[order[i] as int])
}

/// Reading a list along a permutation keeps its contents: every item as often as before.
pub proof fn gathering_keeps_contents<T>(src: Seq<T>, order: Seq<u32>)
    requires
        is_permutation(order, src.len()),
    ensures
        gathered(src, order).to_multiset() == src.to_multiset(),
    decreases src.len(),
{
    broadcast use vstd::seq_lib::group_to_multiset_ensures;

    let all = gathered(src, order);
    if src.len() == 0 {
        assert(all =~= src);
    } else {
        let n = src.len();
        // The largest index fits the index type, for the list holds n distinct indices.
        lemma_permutation_fits(order, n);
        let last = (n - 1) as u32;
        assert(order.contains(last));
        let at = choose|i: int| 0 <= i < order.len() && order[i] == last;
        let rest = order.remove(at);
        let shorter = src.drop_last();
        assert forall|i: int| 0 <= i < rest.len() implies (#[trigger] rest[i]) < n - 1 by {
            let source = if i < at { i } else { i + 1 };
            assert(rest[i] == order[source]);
            assert(order[source] != order[at]);
        }
        assert forall|i: int, j: int|
            0 <= i < rest.len() && 0 <= j < rest.len() && i != j implies rest[i] != rest[j] by {
            let si = if i < at { i } else { i + 1 };
            let sj = if j < at { j } else { j + 1 };
            assert(rest[i] == order[si] && rest[j] == order[sj]);
        }
        distinct_indices_cover(rest, (n - 1) as nat);
        gathering_keeps_contents(shorter, rest);
        assert(all.remove(at) =~= gathered(shorter, rest));
        assert(shorter.push(src.last()) =~= src);
        assert(all[at] == src.last());
        assert(all.contains(all[at]));
        assert(all.to_multiset() =~= all.remove(at).to_multiset().insert(all[at]));
    }
}

proof fn lemma_permutation_fits(order: Seq<u32>, n: nat)
    requires
        is_permutation(order, n),
    ensures
        n <= 0x1_0000_0000,
{
    if n > 0x1_0000_0000 {
        let front = order.take(0x1_0000_0000);
        distinct_indices_cover(front, 0x1_0000_0000);
        let extra = order[0x1_0000_0000];
        assert(front.contains(extra));
        let i = choose|i: int| 0 <= i < front.len() && front[i] == extra;
        assert(order[i] == order[0x1_0000_0000]);
    }
}

/// Gathers `src` along `order`.
pub fn permute<T: Copy>(src: &[T], order: &[u32]) -> (out: Vec<T>)
    requires
        forall|i: int| 0 <= i < order@.len() ==> (#[trigger] order@[i]) < src@.len(),
    ensures
        out@ == gathered(src@, order@),
        out@.len() == order@.len(),
        forall|i: int| 0 <= i < out@.len() ==> #[trigger] out@[i] == src@[order@[i] as int],
{
    let mut out: Vec<T> = Vec::with_capacity(order.len());
    let mut i: usize = 0;
    while i < order.len()
        invariant
            i <= order@.len(),
            out@.len() == i,
            forall|a: int| 0 <= a < order@.len() ==> (#[trigger] order@[a]) < src@.len(),
            forall|a: int| 0 <= a < i ==> #[trigger] out@[a] == src@[order@[a] as int],
        decreases order@.len() - i,
    {
        out.push(src[order[i] as usize]);
        i = i + 1;
    }
    out
}

/// Along a stable descending order keys do not increase, and equal keys come in the order of
/// their indices. Every index is listed, none twice.
pub proof fn stable_orders_descend(keys: Seq<int>, order: Seq<u32>, i: int, j: int)
    requires
        is_stable_descending(keys, order),
        0 <= i < j < order.len(),
    ensures
        order.len() == keys.len(),
        order[i] < keys.len(),
        order[j] < keys.len(),
        order[i] != order[j],
        keys[order[i] as int] >= keys[order[j] as int],
        keys[order[i] as int] == keys[order[j] as int] ==> order[i] < order[j],
{
    assert(comes_before(keys, order[i], order[j]));
}

/// What is gathered at a place is what stood at the listed index.
pub proof fn gathering_reads_the_listed_items<T>(src: Seq<T>, order: Seq<u32>, i: int)
    requires
        0 <= i < order.len(),
    ensures
        gathered(src, order).len() == order.len(),
        gathered(src, order)[i] == src[order[i] as int],
{
}

/// Gathering along one order and then along another is gathering along the first one gathered
/// along the second.
pub proof fn gathering_composes<T>(src: Seq<T>, first: Seq<u32>, second: Seq<u32>)
    requires
        forall|i: int| 0 <= i < second.len() ==> (#[trigger] second[i]) < first.len(),
    ensures
        gathered(gathered(src, first), second) == gathered(src, gathered(first, second)),
{
    assert(gathered(gathered(src, first), second) =~= gathered(src, gathered(first, second)));
}

} // verus!
