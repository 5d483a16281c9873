//! Depth sorting: a counting sort on quantized depths for the interactive view, an exact sort
//! for reference images, and the protocol between the renderer and the sorting thread.
use crate::ieee;
use crate::order::{
    as_ints, comes_before, distinct_indices_cover, is_permutation, is_stable_descending,
    stable_descending_is_permutation, stable_descending_is_unique, stable_descending_order,
};
use vstd::prelude::*;

verus! {

/// Number of quantized depths.
pub const BUCKETS: usize = 65536;

/// What the sorting thread is asked for.
#[derive(Clone, Copy)]
pub struct SortRequest {
    /// View direction, as bit patterns.
    pub forward: [u32; 3],
    /// How many splats take part, counted from the most important one.
    pub count: usize,
}

/// Quantized depths as mathematical integers.
pub open spec fn widened(keys: Seq<u16>) -> Seq<int> {
    Seq::new(keys.len(), |i: int| keys[i] as int)
}

/// How many of the first `m` keys equal `b`.
pub open spec fn count_equal(keys: Seq<u16>, m: int, b: int) -> int
    decreases m,
{
    if m <= 0 {
        0
    } else {
        count_equal(keys, m - 1, b) + if keys[m - 1] == b {
            1int
        } else {
            0
        }
    }
}

/// How many of the first `m` keys exceed `b`.
pub open spec fn count_above(keys: Seq<u16>, m: int, b: int) -> int
    decreases m,
{
    if m <= 0 {
        0
    } else {
        count_above(keys, m - 1, b) + if keys[m - 1] > b {
            1int
        } else {
            0
        }
    }
}

/// The place of index `a` in the draw order.
spec fn place(keys: Seq<u16>, a: int) -> int {
    count_above(keys, keys.len() as int, keys[a] as int) + count_equal(keys, a, keys[a] as int)
}

proof fn lemma_count_bounds(keys: Seq<u16>, m: int, b: int)
    requires
        0 <= m,
    ensures
        0 <= count_equal(keys, m, b),
        0 <= count_above(keys, m, b),
        count_equal(keys, m, b) + count_above(keys, m, b) <= m,
        count_above(keys, m, b - 1) == count_equal(keys, m, b) + count_above(keys, m, b),
    decreases m,
{
    if m > 0 {
        lemma_count_bounds(keys, m - 1, b);
    }
}

proof fn lemma_count_above_decreases(keys: Seq<u16>, m: int, low: int, high: int)
    requires
        low <= high,
    ensures
        count_above(keys, m, high) <= count_above(keys, m, low),
    decreases m,
{
    if m > 0 {
        lemma_count_above_decreases(keys, m - 1, low, high);
    }
}

proof fn lemma_count_equal_increases(keys: Seq<u16>, a: int, m: int)
    requires
        0 <= a < m <= keys.len(),
    ensures
        count_equal(keys, a, keys[a] as int) < count_equal(keys, m, keys[a] as int),
    decreases m,
{
    if a < m - 1 {
        lemma_count_equal_increases(keys, a, m - 1);
    }
}

proof fn lemma_place_in_range(keys: Seq<u16>, a: int)
    requires
        0 <= a < keys.len(),
    ensures
        0 <= place(keys, a) < keys.len(),
{
    let n = keys.len() as int;
    lemma_count_equal_increases(keys, a, n);
    lemma_count_bounds(keys, n, keys[a] as int);
    lemma_count_bounds(keys, a, keys[a] as int);
}

proof fn lemma_place_follows_order(keys: Seq<u16>, a: u32, b: u32)
    requires
        a < keys.len(),
        b < keys.len(),
        comes_before(widened(keys), a, b),
    ensures
        place(keys, a as int) < place(keys, b as int),
{
    let n = keys.len() as int;
    let ka = keys[a as int] as int;
    let kb = keys[b as int] as int;
    if ka > kb {
        lemma_count_equal_increases(keys, a as int, n);
        lemma_count_bounds(keys, n, ka);
        lemma_count_above_decreases(keys, n, kb, ka - 1);
        lemma_count_bounds(keys, b as int, kb);
    } else {
        lemma_count_equal_increases(keys, a as int, b as int);
    }
}

proof fn lemma_places_differ(keys: Seq<u16>, a: u32, b: u32)
    requires
        a < keys.len(),
        b < keys.len(),
        a != b,
    ensures
        place(keys, a as int) != place(keys, b as int),
{
    if comes_before(widened(keys), a, b) {
        lemma_place_follows_order(keys, a, b);
    } else {
        lemma_place_follows_order(keys, b, a);
    }
}

proof fn lemma_places_filled(keys: Seq<u16>, out: Seq<u32>)
    requires
        keys.len() <= u32::MAX,
        out.len() == keys.len(),
        forall|a: int| 0 <= a < keys.len() ==> out[#[trigger] place(keys, a)] == a,
    ensures
        is_stable_descending(widened(keys), out),
{
    let n = keys.len();
    let places = Seq::new(n, |a: int| place(keys, a) as u32);
    assert forall|a: int| 0 <= a < n implies (#[trigger] places[a]) < n && places[a] == place(
        keys,
        a,
    ) by {
        lemma_place_in_range(keys, a);
    }
    assert forall|a: int, b: int| 0 <= a < n && 0 <= b < n && a != b implies places[a]
        != places[b] by {
        lemma_places_differ(keys, a as u32, b as u32);
    }
    distinct_indices_cover(places, n);
    assert forall|i: int| 0 <= i < n implies (#[trigger] out[i]) < n && place(keys, out[i] as int)
        == i by {
        assert(places.contains(i as u32));
        let a = choose|a: int| 0 <= a < n && places[a] == i as u32;
        assert(out[place(keys, a)] == a);
    }
    assert forall|i: int, j: int| 0 <= i < j < n implies #[trigger] comes_before(
        widened(keys),
        out[i],
        out[j],
    ) by {
        if !comes_before(widened(keys), out[i], out[j]) {
            assert(out[i] < n && out[j] < n);
            if out[i] == out[j] {
                assert(place(keys, out[i] as int) == place(keys, out[j] as int));
            } else {
                lemma_place_follows_order(keys, out[j], out[i]);
            }
        }
    }
}

fn zero_fill(counts: &mut [u32])
    ensures
        final(counts)@ == Seq::new(old(counts)@.len(), |b: int| 0u32),
{
    let mut b: usize = 0;
    while b < counts.len()
        invariant
            b <= counts@.len(),
            counts@.len() == old(counts)@.len(),
            forall|x: int| 0 <= x < b ==> counts@[x] == 0,
        decreases counts@.len() - b,
    {
        counts[b] = 0;
        b = b + 1;
    }
}

/// Back-to-front order of the first `req.count` splats by quantized depth, in one counting
/// pass: the largest depth comes first, equal depths keep the order of their indices.
///
/// `quantized` holds one depth per splat. `keys`, `counts` and `out` are buffers that are
/// reused from one call to the next: afterwards `keys` holds the depths that took part,
/// `counts[b]` how many of them are at least `b`, and `out` the order.
pub fn counting_sort(
    quantized: &[u16],
    req: &SortRequest,
    keys: &mut Vec<u16>,
    counts: &mut [u32],
    out: &mut Vec<u32>,
)
    requires
        old(counts)@.len() >= BUCKETS,
        req.count <= u32::MAX || quantized@.len() <= u32::MAX,
    ensures
        final(keys)@ == quantized@.take(drawn(req.count, quantized@.len())),
        final(out)@.len() <= req.count,
        final(out)@.len() <= quantized@.len(),
        final(out)@.len() == req.count || final(out)@.len() == quantized@.len(),
        forall|i: int, j: int|
            0 <= i < j < final(out)@.len() ==> {
                let a = #[trigger] final(out)@[i];
                let b = #[trigger] final(out)@[j];
                &&& a < final(out)@.len() && b < final(out)@.len()
                &&& quantized@[a as int] > quantized@[b as int] || (quantized@[a as int]
                    == quantized@[b as int] && a < b)
            },
        is_stable_descending(widened(final(keys)@), final(out)@),
        final(counts)@.len() == old(counts)@.len(),
        forall|b: int|
            0 <= b < final(counts)@.len() ==> #[trigger] final(counts)@[b] == count_above(
                final(keys)@,
                final(keys)@.len() as int,
                b - 1,
            ),
{
    let n: usize = if req.count < quantized.len() { req.count } else { quantized.len() };
    keys.clear();
    keys.reserve(n);
    out.clear();
    out.resize(n, 0);
    zero_fill(counts);
    let ghost chosen = quantized@.take(n as int);
    let mut i: usize = 0;
    while i < n
        invariant
            i <= n <= u32::MAX,
            n <= quantized@.len(),
            chosen == quantized@.take(n as int),
            keys@ == quantized@.take(i as int),
            counts@.len() == old(counts)@.len(),
            counts@.len() >= BUCKETS,
            out@.len() == n,
            forall|b: int|
                0 <= b < counts@.len() ==> #[trigger] counts@[b] == count_equal(
                    chosen,
                    i as int,
                    b,
                ),
        decreases n - i,
    {
        let k: u16 = quantized[i];
        keys.push(k);
        proof {
            lemma_count_bounds(chosen, i as int, k as int);
            assert(chosen[i as int] == k);
        }
        counts[k as usize] = counts[k as usize] + 1;
        i = i + 1;
        proof {
            assert(keys@ =~= quantized@.take(i as int));
        }
    }
    // Running sum from the far end down, so that the largest depth lands first.
    let mut running: u32 = 0;
    let mut b: usize = BUCKETS;
    proof {
        assert(chosen =~= keys@);
        lemma_nothing_above(chosen, n as int, BUCKETS - 1);
        assert forall|x: int| BUCKETS <= x < counts@.len() implies #[trigger] counts@[x]
            == 0 && count_above(chosen, n as int, x - 1) == 0 by {
            lemma_count_bounds(chosen, n as int, x);
            lemma_nothing_above(chosen, n as int, x - 1);
        }
    }
    while b > 0
        invariant
            b <= BUCKETS,
            n <= u32::MAX,
            chosen.len() == n,
            counts@.len() == old(counts)@.len(),
            counts@.len() >= BUCKETS,
            running == count_above(chosen, n as int, b - 1),
            forall|x: int|
                0 <= x < b ==> #[trigger] counts@[x] == count_equal(chosen, n as int, x),
            forall|x: int|
                b <= x < BUCKETS ==> #[trigger] counts@[x] == count_above(chosen, n as int, x),
            forall|x: int|
                BUCKETS <= x < counts@.len() ==> #[trigger] counts@[x] == count_above(
                    chosen,
                    n as int,
                    x - 1,
                ),
        decreases b,
    {
        b = b - 1;
        let c: u32 = counts[b];
        proof {
            lemma_count_bounds(chosen, n as int, b as int);
        }
        counts[b] = running;
        running = running + c;
    }
    let mut i: usize = 0;
    while i < n
        invariant
            i <= n <= u32::MAX,
            keys@ == chosen,
            chosen.len() == n,
            counts@.len() == old(counts)@.len(),
            counts@.len() >= BUCKETS,
            out@.len() == n,
            forall|x: int|
                0 <= x < BUCKETS ==> #[trigger] counts@[x] == count_above(chosen, n as int, x)
                    + count_equal(chosen, i as int, x),
            forall|x: int|
                BUCKETS <= x < counts@.len() ==> #[trigger] counts@[x] == count_above(
                    chosen,
                    n as int,
                    x - 1,
                ),
            forall|a: int| 0 <= a < i ==> out@[#[trigger] place(chosen, a)] == a,
        decreases n - i,
    {
        let k: u16 = keys[i];
        let slot: u32 = counts[k as usize];
        proof {
            lemma_place_in_range(chosen, i as int);
            assert(slot == place(chosen, i as int));
            assert forall|a: int| 0 <= a < i implies place(chosen, a) != slot && 0 <= place(
                chosen,
                a,
            ) < n by {
                lemma_places_differ(chosen, a as u32, i as u32);
                lemma_place_in_range(chosen, a);
            }
        }
        out[slot as usize] = i as u32;
        counts[k as usize] = slot + 1;
        i = i + 1;
    }
    proof {
        lemma_places_filled(chosen, out@);
        assert forall|i: int, j: int| 0 <= i < j < out@.len() implies {
            let a = #[trigger] out@[i];
            let b = #[trigger] out@[j];
            &&& a < out@.len() && b < out@.len()
            &&& quantized@[a as int] > quantized@[b as int] || (quantized@[a as int]
                == quantized@[b as int] && a < b)
        } by {
            counted_order_is_back_to_front(chosen, out@, i, j);
        }
        assert forall|x: int| 0 <= x < counts@.len() implies #[trigger] counts@[x] == count_above(
            chosen,
            n as int,
            x - 1,
        ) by {
            lemma_count_bounds(chosen, n as int, x);
        }
    }
}

proof fn lemma_nothing_above(keys: Seq<u16>, m: int, b: int)
    requires
        b >= BUCKETS - 1,
    ensures
        count_above(keys, m, b) == 0,
    decreases m,
{
    if m > 0 {
        lemma_nothing_above(keys, m - 1, b);
    }
}

/// How many of `available` splats take part under a cap of `count`.
pub open spec fn drawn(count: usize, available: nat) -> int {
    if count < available {
        count as int
    } else {
        available as int
    }
}

/// Ordering keys of a list of bit patterns.
pub open spec fn ranks(depths: Seq<u32>) -> Seq<int> {
    Seq::new(depths.len(), |i: int| ieee::rank(depths[i]))
}

/// Deterministic full-precision back-to-front order of the first `count` splats, for
/// reference images: the largest depth comes first, equal depths keep the order of their
/// indices, and a depth that is NaN comes last.
///
/// `depths` holds the depth of each splat along the view direction, as bit patterns.
pub fn exact_back_to_front_order(depths: &[u32], count: usize) -> (order: Vec<u32>)
    requires
        count <= u32::MAX || depths@.len() <= u32::MAX,
    ensures
        is_stable_descending(ranks(depths@.take(drawn(count, depths@.len()))), order@),
        order@.len() <= count,
        order@.len() <= depths@.len(),
        order@.len() == count || order@.len() == depths@.len(),
        forall|i: int, j: int|
            0 <= i < j < order@.len() ==> {
                let a = #[trigger] order@[i];
                let b = #[trigger] order@[j];
                &&& a < order@.len() && b < order@.len() && a != b
                &&& ieee::is_nan(depths@[a as int]) ==> ieee::is_nan(depths@[b as int]) && a < b
                &&& !ieee::is_nan(depths@[a as int]) && !ieee::is_nan(depths@[b as int])
                    ==> ieee::value(depths@[a as int]) > ieee::value(depths@[b as int]) || (
                ieee::value(depths@[a as int]) == ieee::value(depths@[b as int]) && a < b)
            },
{
    let n: usize = if count < depths.len() { count } else { depths.len() };
    let keys = order_keys(depths, n);
    let ghost chosen = depths@.take(n as int);
    proof {
        assert(as_ints(keys@) =~= ranks(chosen));
    }
    let order = stable_descending_order(keys.as_slice());
    proof {
        assert forall|i: int, j: int| 0 <= i < j < order@.len() implies {
            let a = #[trigger] order@[i];
            let b = #[trigger] order@[j];
            &&& a < order@.len() && b < order@.len() && a != b
            &&& ieee::is_nan(depths@[a as int]) ==> ieee::is_nan(depths@[b as int]) && a < b
            &&& !ieee::is_nan(depths@[a as int]) && !ieee::is_nan(depths@[b as int])
                ==> ieee::value(depths@[a as int]) > ieee::value(depths@[b as int]) || (ieee::value(
                depths@[a as int],
            ) == ieee::value(depths@[b as int]) && a < b)
        } by {
            let a = order@[i];
            let b = order@[j];
            assert(comes_before(ranks(chosen), a, b));
            assert(chosen[a as int] == depths@[a as int] && chosen[b as int] == depths@[b as int]);
            ieee::nan_patterns_lie_beyond_infinity(depths@[a as int]);
            ieee::nan_patterns_lie_beyond_infinity(depths@[b as int]);
            if !ieee::is_nan(depths@[a as int]) && !ieee::is_nan(depths@[b as int]) {
                ieee::rank_orders_values(depths@[a as int], depths@[b as int]);
            }
        }
    }
    order
}

/// The ordering keys of the first `n` patterns.
pub fn order_keys(depths: &[u32], n: usize) -> (keys: Vec<i32>)
    requires
        n <= depths@.len(),
    ensures
        keys@.len() == n,
        forall|i: int| 0 <= i < n ==> #[trigger] keys@[i] == ieee::rank(depths@[i]),
{
    let mut keys: Vec<i32> = Vec::with_capacity(n);
    let mut i: usize = 0;
    while i < n
        invariant
            i <= n <= depths@.len(),
            keys@.len() == i,
            forall|a: int| 0 <= a < i ==> #[trigger] keys@[a] == ieee::rank(depths@[a]),
        decreases n - i,
    {
        keys.push(ieee::order_key(depths[i]));
        i = i + 1;
    }
    keys
}

/// Whether `low` and `high` bound the numbers of a list tightly: each is a number, the list
/// lies between them, and each occurs in the list unless the list holds no smaller (larger)
/// number than infinity (negative infinity).
pub open spec fn is_extent(depths: Seq<u32>, low: u32, high: u32) -> bool {
    &&& !ieee::is_nan(low)
    &&& !ieee::is_nan(high)
    &&& low == ieee::INFINITY || depths.contains(low)
    &&& high == ieee::NEG_INFINITY || depths.contains(high)
    &&& forall|i: int|
        0 <= i < depths.len() && !ieee::is_nan(#[trigger] depths[i]) ==> ieee::value(low)
            <= ieee::value(depths[i]) <= ieee::value(high)
}

/// Nearest and farthest depth; NaN is ignored. Without any number the result is
/// `(infinity, -infinity)`.
pub fn depth_extent(depths: &[u32]) -> (extent: (u32, u32))
    ensures
        is_extent(depths@, extent.0, extent.1),
{
    let mut low: u32 = ieee::INFINITY;
    let mut high: u32 = ieee::NEG_INFINITY;
    let mut i: usize = 0;
    proof {
        assert(is_extent(depths@.take(0), low, high));
    }
    while i < depths.len()
        invariant
            i <= depths@.len(),
            is_extent(depths@.take(i as int), low, high),
        decreases depths@.len() - i,
    {
        let d: u32 = depths[i];
        let ghost seen = depths@.take(i as int);
        let ghost next = depths@.take(i + 1);
        let ghost before_low = low;
        let ghost before_high = high;
        low = ieee::min(low, d);
        high = ieee::max(high, d);
        proof {
            if !ieee::is_nan(d) {
                lemma_between_infinities(d);
            }
            assert(next[i as int] == d);
            assert(low == before_low || low == d);
            assert(high == before_high || high == d);
            if low == before_low && low != ieee::INFINITY {
                let a = choose|a: int| 0 <= a < seen.len() && seen[a] == low;
                assert(next[a] == low);
            }
            if high == before_high && high != ieee::NEG_INFINITY {
                let a = choose|a: int| 0 <= a < seen.len() && seen[a] == high;
                assert(next[a] == high);
            }
            assert forall|a: int|
                0 <= a < next.len() && !ieee::is_nan(#[trigger] next[a]) implies ieee::value(low)
                <= ieee::value(next[a]) <= ieee::value(high) by {
                if a < i {
                    assert(seen[a] == next[a]);
                }
            }
        }
        i = i + 1;
    }
    proof {
        assert(depths@.take(i as int) =~= depths@);
    }
    (low, high)
}

proof fn lemma_between_infinities(d: u32)
    requires
        !ieee::is_nan(d),
    ensures
        ieee::value(ieee::NEG_INFINITY) <= ieee::value(d) <= ieee::value(ieee::INFINITY),
{
    ieee::rank_orders_values(d, ieee::INFINITY);
    ieee::rank_orders_values(ieee::NEG_INFINITY, d);
}

/// Depths do not increase along an exact back-to-front order, and splats at the same depth
/// stay in the order of their importance.
pub proof fn exact_order_is_back_to_front(depths: Seq<u32>, order: Seq<u32>, i: int, j: int)
    requires
        is_stable_descending(ranks(depths), order),
        0 <= i < j < order.len(),
        !ieee::is_nan(depths[order[i] as int]),
        !ieee::is_nan(depths[order[j] as int]),
    ensures
        ieee::value(depths[order[i] as int]) >= ieee::value(depths[order[j] as int]),
        ieee::value(depths[order[i] as int]) == ieee::value(depths[order[j] as int]) ==> order[i]
            < order[j],
{
    ieee::rank_orders_values(depths[order[i] as int], depths[order[j] as int]);
    assert(comes_before(ranks(depths), order[i], order[j]));
}

/// Quantized depths misplace splats within one bucket only: where a deeper splat never has a
/// smaller key, two splats with different keys are drawn back to front.
pub proof fn counting_sort_errs_within_buckets(
    keys: Seq<u16>,
    depths: Seq<u32>,
    counted: Seq<u32>,
    i: int,
    j: int,
)
    requires
        keys.len() == depths.len(),
        forall|a: int| 0 <= a < depths.len() ==> !ieee::is_nan(#[trigger] depths[a]),
        forall|a: int, b: int|
            0 <= a < keys.len() && 0 <= b < keys.len() && ieee::value(depths[a]) <= ieee::value(
                depths[b],
            ) ==> #[trigger] keys[a] <= #[trigger] keys[b],
        is_stable_descending(widened(keys), counted),
        0 <= i < j < counted.len(),
    ensures
        keys[counted[i] as int] == keys[counted[j] as int] || ieee::value(depths[counted[i] as int])
            > ieee::value(depths[counted[j] as int]),
{
    assert(comes_before(widened(keys), counted[i], counted[j]));
    assert(keys[counted[i] as int] >= keys[counted[j] as int]);
}

/// Where the quantized depths rank the splats as the exact depths do, the counting sort and
/// the exact sort give the same order.
pub proof fn counting_sort_agrees_with_exact_sort(
    keys: Seq<u16>,
    depths: Seq<u32>,
    counted: Seq<u32>,
    exact: Seq<u32>,
)
    requires
        keys.len() == depths.len(),
        forall|a: int, b: int|
            0 <= a < keys.len() && 0 <= b < keys.len() ==> (#[trigger] keys[a] < #[trigger] keys[b]
                <==> ieee::rank(depths[a]) < ieee::rank(depths[b])),
        is_stable_descending(widened(keys), counted),
        is_stable_descending(ranks(depths), exact),
    ensures
        counted == exact,
{
    assert forall|i: int, j: int| 0 <= i < j < counted.len() implies #[trigger] comes_before(
        ranks(depths),
        counted[i],
        counted[j],
    ) by {
        let a = counted[i] as int;
        let b = counted[j] as int;
        assert(comes_before(widened(keys), counted[i], counted[j]));
        assert(keys[a] < keys[b] <==> ieee::rank(depths[a]) < ieee::rank(depths[b]));
        assert(keys[b] < keys[a] <==> ieee::rank(depths[b]) < ieee::rank(depths[a]));
    }
    stable_descending_is_unique(ranks(depths), counted, exact);
}

/// The two sorts differ only where quantization made a tie: where a deeper splat never has a
/// smaller key and no two splats share one, they give the same order.
pub proof fn sorts_differ_only_on_ties(
    keys: Seq<u16>,
    depths: Seq<u32>,
    counted: Seq<u32>,
    exact: Seq<u32>,
)
    requires
        keys.len() == depths.len(),
        forall|a: int| 0 <= a < depths.len() ==> !ieee::is_nan(#[trigger] depths[a]),
        forall|a: int, b: int|
            0 <= a < keys.len() && 0 <= b < keys.len() && ieee::value(depths[a]) <= ieee::value(
                depths[b],
            ) ==> #[trigger] keys[a] <= #[trigger] keys[b],
        keys.no_duplicates(),
        is_stable_descending(widened(keys), counted),
        is_stable_descending(ranks(depths), exact),
    ensures
        counted == exact,
{
    assert forall|a: int, b: int| 0 <= a < keys.len() && 0 <= b < keys.len() implies (
    #[trigger] keys[a] < #[trigger] keys[b] <==> ieee::rank(depths[a]) < ieee::rank(depths[b])) by {
        ieee::rank_orders_values(depths[a], depths[b]);
        ieee::rank_orders_values(depths[b], depths[a]);
    }
    counting_sort_agrees_with_exact_sort(keys, depths, counted, exact);
}

/// What the sorting thread has for the renderer.
pub enum Reply {
    /// A finished order.
    Order(Vec<u32>),
    /// Nothing yet.
    Empty,
    /// The thread is gone.
    Disconnected,
}

/// The renderer's side of the sorting thread. The render thread never waits: it keeps drawing
/// the previous order until a fresh one shows up.
#[derive(Clone, Copy, PartialEq, Eq, Structural, Debug)]
pub struct Sorter {
    /// Whether a request is in flight; keeps the queue from growing without bound.
    pub pending: bool,
    /// Whether the thread still takes requests.
    pub alive: bool,
}

impl Sorter {
    pub fn new() -> (sorter: Self)
        ensures
            !sorter.pending,
            sorter.alive,
    {
        Sorter { pending: false, alive: true }
    }

    /// Whether a new order is to be asked for.
    pub open spec fn wants(self, count: usize) -> bool {
        !self.pending && self.alive && count != 0
    }

    /// The state after a request was handed to the thread, or could not be.
    pub open spec fn after_send(self, delivered: bool) -> Sorter {
        if delivered {
            Sorter { pending: true, alive: self.alive }
        } else {
            Sorter { pending: self.pending, alive: false }
        }
    }

    /// The state after a look at what the thread has ready.
    pub open spec fn after_poll(self, reply: Reply) -> Sorter {
        match reply {
            Reply::Order(_) => Sorter { pending: false, alive: self.alive },
            Reply::Empty => self,
            Reply::Disconnected => Sorter { pending: false, alive: false },
        }
    }

    /// Asks for a new order unless one is already being computed: whether a request for
    /// `count` splats is to be sent. `request_sent` reports how sending it went.
    pub fn request(&self, count: usize) -> (send: bool)
        ensures
            send == self.wants(count),
            send <==> !self.pending && self.alive && count > 0,
    {
        !(self.pending || !self.alive || count == 0)
    }

    /// Records whether the thread took the request.
    pub fn request_sent(&mut self, delivered: bool)
        ensures
            *final(self) == old(self).after_send(delivered),
            final(self).pending == (old(self).pending || delivered),
            final(self).alive == (old(self).alive && delivered),
    {
        if delivered {
            self.pending = true;
        } else {
            self.alive = false;
        }
    }

    /// Picks up a finished order, if there is one.
    pub fn poll(&mut self, reply: Reply) -> (order: Option<Vec<u32>>)
        ensures
            *final(self) == old(self).after_poll(reply),
            order == (match reply {
                Reply::Order(finished) => Some(finished),
                _ => None,
            }),
            final(self).pending == (old(self).pending && reply is Empty),
            final(self).alive == (old(self).alive && !(reply is Disconnected)),
    {
        match reply {
            Reply::Order(order) => {
                self.pending = false;
                Some(order)
            },
            Reply::Empty => None,
            Reply::Disconnected => {
                self.alive = false;
                self.pending = false;
                None
            },
        }
    }
}

/// One exchange between the renderer and the sorting thread.
pub enum Exchange {
    /// The renderer asked for an order of `count` splats; `delivered` tells whether a request
    /// that was sent arrived.
    Asked { count: usize, delivered: bool },
    /// The renderer looked for a finished order.
    Polled(Reply),
}

/// The renderer's state after a history of exchanges, with the number of requests that were
/// delivered and not yet answered.
pub open spec fn after_history(history: Seq<Exchange>) -> (Sorter, int)
    decreases history.len(),
{
    if history.len() == 0 {
        (Sorter { pending: false, alive: true }, 0)
    } else {
        let (sorter, open) = after_history(history.drop_last());
        match history.last() {
            Exchange::Asked { count, delivered } => if sorter.wants(count) {
                (
                    sorter.after_send(delivered),
                    open + if delivered {
                        1int
                    } else {
                        0
                    },
                )
            } else {
                (sorter, open)
            },
            Exchange::Polled(reply) => (
                sorter.after_poll(reply),
                match reply {
                    Reply::Order(_) => open - 1,
                    Reply::Empty => open,
                    Reply::Disconnected => 0,
                },
            ),
        }
    }
}

/// Whether every finished order in a history answers a request that was open.
pub open spec fn answers_only_requests(history: Seq<Exchange>) -> bool
    decreases history.len(),
{
    history.len() == 0 || {
        &&& answers_only_requests(history.drop_last())
        &&& history.last() matches Exchange::Polled(Reply::Order(_)) ==> after_history(
            history.drop_last(),
        ).1 > 0
    }
}

/// At most one request is ever in flight, and `pending` tells whether one is.
pub proof fn one_request_in_flight(history: Seq<Exchange>)
    requires
        answers_only_requests(history),
    ensures
        0 <= after_history(history).1 <= 1,
        after_history(history).0.pending <==> after_history(history).1 == 1,
    decreases history.len(),
{
    if history.len() > 0 {
        one_request_in_flight(history.drop_last());
    }
}

/// As many splats take part as are asked for, or all of them where there are fewer.
pub proof fn requests_are_met_in_full(count: usize, available: nat)
    ensures
        0 <= drawn(count, available) <= count,
        drawn(count, available) <= available,
        drawn(count, available) == count || drawn(count, available) == available,
{
}

/// A request for at least as many splats as there are orders every one of them, each once.
pub proof fn full_requests_order_every_splat(keys: Seq<u16>, count: usize, order: Seq<u32>)
    requires
        count >= keys.len(),
        is_stable_descending(widened(keys.take(drawn(count, keys.len()))), order),
    ensures
        is_permutation(order, keys.len()),
{
    assert(keys.take(drawn(count, keys.len())) =~= keys);
    stable_descending_is_permutation(widened(keys), order);
}

/// The same of the exact order.
pub proof fn full_requests_order_every_depth(depths: Seq<u32>, count: usize, order: Seq<u32>)
    requires
        count >= depths.len(),
        is_stable_descending(ranks(depths.take(drawn(count, depths.len()))), order),
    ensures
        is_permutation(order, depths.len()),
{
    assert(depths.take(drawn(count, depths.len())) =~= depths);
    stable_descending_is_permutation(ranks(depths), order);
}

/// A smaller request leaves the order of the splats that take part as it is: two of them stand
/// to each other as they do in the order of all.
pub proof fn smaller_requests_keep_the_order(
    keys: Seq<u16>,
    count: int,
    part: Seq<u32>,
    whole: Seq<u32>,
    i: int,
    j: int,
    p: int,
    q: int,
)
    requires
        0 <= count <= keys.len(),
        is_stable_descending(widened(keys.take(count)), part),
        is_stable_descending(widened(keys), whole),
        0 <= i < j < part.len(),
        0 <= p < whole.len(),
        0 <= q < whole.len(),
        whole[p] == part[i],
        whole[q] == part[j],
    ensures
        p < q,
{
    assert(comes_before(widened(keys.take(count)), part[i], part[j]));
    if q < p {
        assert(comes_before(widened(keys), whole[q], whole[p]));
    }
}

/// Along the counted order the quantized depths do not increase, and equal ones stay in the order
/// of the scene.
pub proof fn counted_order_is_back_to_front(keys: Seq<u16>, order: Seq<u32>, i: int, j: int)
    requires
        is_stable_descending(widened(keys), order),
        0 <= i < j < order.len(),
    ensures
        keys[order[i] as int] >= keys[order[j] as int],
        keys[order[i] as int] == keys[order[j] as int] ==> order[i] < order[j],
        order[i] < keys.len(),
        order[j] < keys.len(),
{
    assert(comes_before(widened(keys), order[i], order[j]));
}

/// A depth that is no number is drawn after all that are.
pub proof fn numbers_come_before_nan(depths: Seq<u32>, order: Seq<u32>, i: int, j: int)
    requires
        is_stable_descending(ranks(depths), order),
        0 <= i < j < order.len(),
        ieee::is_nan(depths[order[i] as int]),
    ensures
        ieee::is_nan(depths[order[j] as int]),
{
    assert(comes_before(ranks(depths), order[i], order[j]));
    ieee::nan_patterns_lie_beyond_infinity(depths[order[i] as int]);
}

/// The extent of a list holds every number of it and reaches no further than the list does.
pub proof fn extents_are_tight(depths: Seq<u32>, low: u32, high: u32, i: int)
    requires
        is_extent(depths, low, high),
        0 <= i < depths.len(),
        !ieee::is_nan(depths[i]),
    ensures
        ieee::value(low) <= ieee::value(depths[i]) <= ieee::value(high),
        depths.contains(low) || low == ieee::INFINITY,
        depths.contains(high) || high == ieee::NEG_INFINITY,
{
}

/// Extents are unique, but for the sign of a zero.
pub proof fn extents_are_unique(
    depths: Seq<u32>,
    low: u32,
    high: u32,
    other_low: u32,
    other_high: u32,
)
    requires
        is_extent(depths, low, high),
        is_extent(depths, other_low, other_high),
    ensures
        ieee::value(low) == ieee::value(other_low),
        ieee::value(high) == ieee::value(other_high),
{
    ieee::infinities_bound_numbers(low);
    ieee::infinities_bound_numbers(high);
    ieee::infinities_bound_numbers(other_low);
    ieee::infinities_bound_numbers(other_high);
    lemma_extent_is_reached(depths, low, high, other_low, other_high);
    lemma_extent_is_reached(depths, other_low, other_high, low, high);
}

proof fn lemma_extent_is_reached(
    depths: Seq<u32>,
    low: u32,
    high: u32,
    other_low: u32,
    other_high: u32,
)
    requires
        is_extent(depths, low, high),
        is_extent(depths, other_low, other_high),
        ieee::value(other_low) <= ieee::value(ieee::INFINITY),
        ieee::value(ieee::NEG_INFINITY) <= ieee::value(other_high),
    ensures
        ieee::value(other_low) <= ieee::value(low),
        ieee::value(high) <= ieee::value(other_high),
{
    if low != ieee::INFINITY {
        let a = choose|a: int| 0 <= a < depths.len() && depths[a] == low;
        assert(!ieee::is_nan(depths[a]));
    }
    if high != ieee::NEG_INFINITY {
        let a = choose|a: int| 0 <= a < depths.len() && depths[a] == high;
        assert(!ieee::is_nan(depths[a]));
    }
}

/// An order that is picked up frees the sorter for the next request, and nothing else does while
/// the thread lives.
pub proof fn answers_free_the_sorter(sorter: Sorter, reply: Reply, count: usize)
    requires
        sorter.alive,
        count > 0,
    ensures
        sorter.after_poll(Reply::Empty) == sorter,
        reply is Order ==> sorter.after_poll(reply).wants(count),
        sorter.pending ==> !sorter.wants(count),
        !sorter.pending ==> sorter.wants(count),
        sorter.wants(count) ==> !sorter.after_send(true).wants(count),
        sorter.wants(count) ==> sorter.after_send(true).after_poll(reply).wants(count) == (reply
            is Order),
{
}

/// A thread that is gone is never asked again: neither after a request that it did not take nor
/// after it was found gone, whatever happens then.
pub proof fn lost_threads_are_left_alone(
    history: Seq<Exchange>,
    later: Seq<Exchange>,
    count: usize,
)
    requires
        !after_history(history).0.alive,
    ensures
        !after_history(history + later).0.alive,
        !after_history(history + later).0.wants(count),
    decreases later.len(),
{
    let all = history + later;
    if later.len() > 0 {
        lost_threads_are_left_alone(history, later.drop_last(), count);
        assert(all.drop_last() =~= history + later.drop_last());
        assert(all.last() == later.last());
    } else {
        assert(all =~= history);
    }
}

/// A thread is lost by a request that it does not take and by a poll that finds it gone, and by
/// nothing else; no splats are never asked for.
pub proof fn threads_are_lost_once_gone(sorter: Sorter, reply: Reply)
    ensures
        !sorter.after_send(false).alive,
        sorter.after_send(false).pending == sorter.pending,
        sorter.after_send(true).alive == sorter.alive,
        sorter.after_send(true).pending,
        reply is Disconnected ==> !sorter.after_poll(reply).alive && !sorter.after_poll(
            reply,
        ).pending,
        !(reply is Disconnected) ==> sorter.after_poll(reply).alive == sorter.alive,
        !sorter.wants(0),
{
}

/// Counts start at nothing and grow by one with each key that counts.
pub proof fn counts_grow_by_one(keys: Seq<u16>, m: int, b: int)
    requires
        0 <= m < keys.len(),
    ensures
        count_equal(keys, 0, b) == 0,
        count_above(keys, 0, b) == 0,
        keys[m] == b ==> count_equal(keys, m + 1, b) == count_equal(keys, m, b) + 1,
        keys[m] != b ==> count_equal(keys, m + 1, b) == count_equal(keys, m, b),
        keys[m] > b ==> count_above(keys, m + 1, b) == count_above(keys, m, b) + 1,
        keys[m] <= b ==> count_above(keys, m + 1, b) == count_above(keys, m, b),
{
}

} // verus!
