//! View-dependent optical-depth priors: histograms over depth, baked for a set of camera
//! directions, and the choice of the baked directions nearest to a camera.
use crate::ieee;
use vstd::arithmetic::power2::{lemma_pow2_adds, pow2};
use vstd::prelude::*;

verus! {

pub const DIRECTIONAL_VIEW_COUNT: usize = 64;

pub const DIRECTIONAL_DEPTH_BINS: usize = 64;

pub const SPATIAL_PRIOR_WIDTH: usize = 8;

pub const SPATIAL_PRIOR_HEIGHT: usize = 8;

pub const SPATIAL_PRIOR_DEPTH_BINS: usize = 32;

pub const HQ_DIRECTIONAL_VIEW_COUNT: usize = 512;

pub const HQ_SPATIAL_PRIOR_WIDTH: usize = 20;

pub const HQ_SPATIAL_PRIOR_HEIGHT: usize = 12;

/// Values of a directional prior.
pub const DIRECTIONAL_PRIOR_LEN: usize = 4096;

/// Values of a spatial prior.
pub const SPATIAL_PRIOR_LEN: usize = 131072;

/// Values of a high-quality spatial prior.
pub const HQ_SPATIAL_PRIOR_LEN: usize = 3932160;

/// Bit pattern of 1/64, the share of a bin in a flat histogram of 64 bins.
pub const FLAT_DIRECTIONAL_BIN: u32 = 0x3c80_0000;

/// Bit pattern of 1/32, the share of a bin in a flat histogram of 32 bins.
pub const FLAT_SPATIAL_BIN: u32 = 0x3d00_0000;

/// Whether direction `i` can be chosen: its product with the view direction is a number above
/// negative infinity.
pub open spec fn is_eligible(dots: Seq<u32>, i: int) -> bool {
    !ieee::is_nan(dots[i]) && ieee::value(dots[i]) > ieee::value(ieee::NEG_INFINITY)
}

/// Whether direction `a` is chosen ahead of direction `b`: it is nearer, or as near and
/// earlier in the list.
pub open spec fn is_nearer(dots: Seq<u32>, a: int, b: int) -> bool {
    ieee::value(dots[a]) > ieee::value(dots[b]) || (ieee::value(dots[a]) == ieee::value(dots[b])
        && a < b)
}

/// Whether a slot of the result names a direction.
pub open spec fn is_filled(slot: (u32, usize)) -> bool {
    slot.0 != ieee::NEG_INFINITY
}

/// Whether direction `i` is named by one of the slots.
pub open spec fn is_chosen(nearest: Seq<(u32, usize)>, i: int) -> bool {
    ||| is_filled(nearest[0]) && nearest[0].1 == i
    ||| is_filled(nearest[1]) && nearest[1].1 == i
    ||| is_filled(nearest[2]) && nearest[2].1 == i
}

/// Whether `nearest` names the three nearest directions, the nearest first, each with its
/// product. Slots that no direction is left for come last and hold `(-infinity, 0)`.
pub open spec fn are_nearest(dots: Seq<u32>, nearest: Seq<(u32, usize)>) -> bool {
    &&& nearest.len() == 3
    &&& forall|j: int|
        0 <= j < 3 ==> if is_filled(#[trigger] nearest[j]) {
            nearest[j].1 < dots.len() && nearest[j].0 == dots[nearest[j].1 as int] && is_eligible(
                dots,
                nearest[j].1 as int,
            )
        } else {
            nearest[j].1 == 0
        }
    &&& is_filled(nearest[1]) ==> is_filled(nearest[0]) && is_nearer(
        dots,
        nearest[0].1 as int,
        nearest[1].1 as int,
    )
    &&& is_filled(nearest[2]) ==> is_filled(nearest[1]) && is_nearer(
        dots,
        nearest[1].1 as int,
        nearest[2].1 as int,
    )
    &&& forall|i: int|
        0 <= i < dots.len() && #[trigger] is_eligible(dots, i) && !is_chosen(nearest, i)
            ==> is_filled(nearest[2]) && is_nearer(dots, nearest[2].1 as int, i)
}

/// The three baked directions nearest to a camera. `dots` holds the product of each baked
/// direction with the view direction.
pub fn nearest_directions(dots: &[u32]) -> (nearest: [(u32, usize); 3])
    ensures
        are_nearest(dots@, nearest@),
{
    let mut first: (u32, usize) = (ieee::NEG_INFINITY, 0);
    let mut second: (u32, usize) = (ieee::NEG_INFINITY, 0);
    let mut third: (u32, usize) = (ieee::NEG_INFINITY, 0);
    let mut i: usize = 0;
    while i < dots.len()
        invariant
            i <= dots@.len(),
            are_nearest(dots@.take(i as int), seq![first, second, third]),
        decreases dots@.len() - i,
    {
        let dot: u32 = dots[i];
        let ghost seen = dots@.take(i as int);
        let ghost next = dots@.take(i + 1);
        let ghost held = seq![first, second, third];
        if ieee::less(first.0, dot) {
            third = second;
            second = first;
            first = (dot, i);
        } else if ieee::less(second.0, dot) {
            third = second;
            second = (dot, i);
        } else if ieee::less(third.0, dot) {
            third = (dot, i);
        }
        proof {
            let kept = seq![first, second, third];
            assert(next[i as int] == dot);
            assert forall|a: int| 0 <= a < i implies seen[a] == next[a] by {}
            lemma_next_direction(seen, next, held, kept, i);
        }
        i = i + 1;
    }
    proof {
        assert(dots@.take(i as int) =~= dots@);
    }
    let nearest: [(u32, usize); 3] = [first, second, third];
    proof {
        assert(nearest@ =~= seq![first, second, third]);
    }
    nearest
}

/// Whether `kept` is what `held` becomes when direction `i` is looked at.
spec fn is_inserted(held: Seq<(u32, usize)>, kept: Seq<(u32, usize)>, dot: u32, i: usize) -> bool {
    let beats = |slot: (u32, usize)|
        !ieee::is_nan(slot.0) && !ieee::is_nan(dot) && ieee::value(slot.0) < ieee::value(dot);
    if beats(held[0]) {
        kept == seq![(dot, i), held[0], held[1]]
    } else if beats(held[1]) {
        kept == seq![held[0], (dot, i), held[1]]
    } else if beats(held[2]) {
        kept == seq![held[0], held[1], (dot, i)]
    } else {
        kept == held
    }
}

proof fn lemma_next_direction(
    seen: Seq<u32>,
    next: Seq<u32>,
    held: Seq<(u32, usize)>,
    kept: Seq<(u32, usize)>,
    i: usize,
)
    requires
        next.len() == i + 1,
        seen.len() == i,
        forall|a: int| 0 <= a < i ==> #[trigger] seen[a] == next[a],
        are_nearest(seen, held),
        kept.len() == 3,
        is_inserted(held, kept, next[i as int], i),
    ensures
        are_nearest(next, kept),
{
    let dot = next[i as int];
    assert(held[0].0 == ieee::NEG_INFINITY || seen[held[0].1 as int] == next[held[0].1 as int]);
    assert(held[1].0 == ieee::NEG_INFINITY || seen[held[1].1 as int] == next[held[1].1 as int]);
    assert(held[2].0 == ieee::NEG_INFINITY || seen[held[2].1 as int] == next[held[2].1 as int]);
    assert(!ieee::is_nan(ieee::NEG_INFINITY));
    assert forall|a: int|
        0 <= a < next.len() && #[trigger] is_eligible(next, a) && !is_chosen(kept, a) implies
        is_filled(kept[2]) && is_nearer(next, kept[2].1 as int, a) by {
        if a < i {
            assert(is_eligible(seen, a));
        }
    }
}

/// Where every product is a number above negative infinity and there are three directions or
/// more, three different ones are named, the nearest first, and none that is left out is nearer
/// than the third.
pub proof fn nearest_are_ordered(dots: Seq<u32>, nearest: Seq<(u32, usize)>)
    requires
        are_nearest(dots, nearest),
        dots.len() >= 3,
        forall|i: int| 0 <= i < dots.len() ==> #[trigger] is_eligible(dots, i),
    ensures
        forall|j: int|
            0 <= j < 3 ==> (#[trigger] nearest[j]).1 < dots.len() && nearest[j].0
                == dots[nearest[j].1 as int],
        nearest[0].1 != nearest[1].1,
        nearest[0].1 != nearest[2].1,
        nearest[1].1 != nearest[2].1,
        ieee::value(nearest[0].0) >= ieee::value(nearest[1].0) >= ieee::value(nearest[2].0),
        forall|i: int|
            0 <= i < dots.len() && i != nearest[0].1 && i != nearest[1].1 && i != nearest[2].1
                ==> ieee::value(#[trigger] dots[i]) <= ieee::value(nearest[2].0),
{
    assert(is_eligible(dots, 0) && is_eligible(dots, 1) && is_eligible(dots, 2));
    assert(is_filled(nearest[0]) && is_filled(nearest[1]) && is_filled(nearest[2]));
    assert forall|i: int|
        0 <= i < dots.len() && i != nearest[0].1 && i != nearest[1].1 && i != nearest[2].1 implies
        ieee::value(#[trigger] dots[i]) <= ieee::value(nearest[2].0) by {
        assert(is_eligible(dots, i));
    }
}

/// The nearest directions are determined by the products: every search for them finds the same.
pub proof fn nearest_are_unique(
    dots: Seq<u32>,
    first: Seq<(u32, usize)>,
    second: Seq<(u32, usize)>,
)
    requires
        are_nearest(dots, first),
        are_nearest(dots, second),
    ensures
        first == second,
{
    lemma_same_slot(dots, first, second, 0);
    lemma_same_slot(dots, first, second, 1);
    lemma_same_slot(dots, first, second, 2);
    assert(first =~= second);
}

/// Searches that agree before slot `j` agree on it.
proof fn lemma_same_slot(dots: Seq<u32>, first: Seq<(u32, usize)>, second: Seq<(u32, usize)>, j: int)
    requires
        are_nearest(dots, first),
        are_nearest(dots, second),
        0 <= j < 3,
        forall|k: int| 0 <= k < j ==> first[k] == second[k],
    ensures
        first[j] == second[j],
{
    let a = first[j].1 as int;
    let b = second[j].1 as int;
    assert(is_filled(first[j]) ==> is_eligible(dots, a));
    assert(is_filled(second[j]) ==> is_eligible(dots, b));
    assert(is_filled(first[0]) ==> is_eligible(dots, first[0].1 as int));
    assert(is_filled(first[1]) ==> is_eligible(dots, first[1].1 as int));
    assert(is_filled(first[2]) ==> is_eligible(dots, first[2].1 as int));
    assert(is_filled(second[0]) ==> is_eligible(dots, second[0].1 as int));
    assert(is_filled(second[1]) ==> is_eligible(dots, second[1].1 as int));
    assert(is_filled(second[2]) ==> is_eligible(dots, second[2].1 as int));
}

/// A directional prior that keeps coarse screen-space information.
#[derive(Clone)]
pub struct SpatialDirectionalHistogramPrior {
    pub directions: Vec<[u32; 3]>,
    pub histograms: Vec<u32>,
    pub radius: u32,
}

impl SpatialDirectionalHistogramPrior {
    /// Place of a bin: values are laid out by view, then tile row, tile column and depth.
    pub open spec fn place(view: int, x: int, y: int, depth: int) -> int {
        ((view * SPATIAL_PRIOR_HEIGHT + y) * SPATIAL_PRIOR_WIDTH + x) * SPATIAL_PRIOR_DEPTH_BINS + depth
    }

    /// Whether the four coordinates name a bin.
    pub open spec fn is_bin(view: int, x: int, y: int, depth: int) -> bool {
        &&& 0 <= view < DIRECTIONAL_VIEW_COUNT
        &&& 0 <= x < SPATIAL_PRIOR_WIDTH
        &&& 0 <= y < SPATIAL_PRIOR_HEIGHT
        &&& 0 <= depth < SPATIAL_PRIOR_DEPTH_BINS
    }

    pub open spec fn well_formed(self) -> bool {
        &&& self.directions@.len() == DIRECTIONAL_VIEW_COUNT
        &&& self.histograms@.len() == SPATIAL_PRIOR_LEN
    }

    /// Place of a bin among the values.
    pub fn index(view: usize, x: usize, y: usize, depth: usize) -> (at: usize)
        requires
            Self::place(view as int, x as int, y as int, depth as int) <= usize::MAX,
        ensures
            at == Self::place(view as int, x as int, y as int, depth as int),
    {
        ((view * SPATIAL_PRIOR_HEIGHT + y) * SPATIAL_PRIOR_WIDTH + x) * SPATIAL_PRIOR_DEPTH_BINS + depth
    }

    /// A prior with every bin empty.
    pub fn new(directions: Vec<[u32; 3]>, radius: u32) -> (prior: Self)
        requires
            directions@.len() == DIRECTIONAL_VIEW_COUNT,
        ensures
            prior.well_formed(),
            prior.directions == directions,
            prior.radius == radius,
            forall|i: int| 0 <= i < SPATIAL_PRIOR_LEN ==> #[trigger] prior.histograms@[i] == ieee::ZERO,
    {
        let histograms: Vec<u32> = vec![ieee::ZERO; SPATIAL_PRIOR_LEN];
        SpatialDirectionalHistogramPrior { directions, histograms, radius }
    }

    /// The value of a bin.
    pub fn get(&self, view: usize, x: usize, y: usize, depth: usize) -> (bits: u32)
        requires
            self.well_formed(),
            Self::is_bin(view as int, x as int, y as int, depth as int),
        ensures
            bits == self.histograms@[Self::place(view as int, x as int, y as int, depth as int)],
    {
        self.histograms[Self::index(view, x, y, depth)]
    }

    /// Replaces the value of a bin.
    pub fn set(&mut self, view: usize, x: usize, y: usize, depth: usize, bits: u32)
        requires
            old(self).well_formed(),
            Self::is_bin(view as int, x as int, y as int, depth as int),
        ensures
            final(self).well_formed(),
            final(self).directions == old(self).directions,
            final(self).radius == old(self).radius,
            final(self).histograms@ == old(self).histograms@.update(
                Self::place(view as int, x as int, y as int, depth as int),
                bits,
            ),
    {
        let at: usize = Self::index(view, x, y, depth);
        self.histograms[at] = bits;
    }

    /// Closes the histogram of one cell. `sum` is the sum of its bins: where it is positive
    /// the bins become `shares`, their quotients by the sum; otherwise the histogram becomes
    /// flat. Bins of other cells stay.
    pub fn normalize(&mut self, view: usize, x: usize, y: usize, sum: u32, shares: &[u32])
        requires
            old(self).well_formed(),
            Self::is_bin(view as int, x as int, y as int, 0),
            shares@.len() == SPATIAL_PRIOR_DEPTH_BINS,
        ensures
            final(self).well_formed(),
            final(self).directions == old(self).directions,
            final(self).radius == old(self).radius,
            forall|i: int|
                0 <= i < SPATIAL_PRIOR_LEN ==> #[trigger] final(self).histograms@[i] == ({
                    let depth = i - Self::place(view as int, x as int, y as int, 0);
                    if !(0 <= depth < SPATIAL_PRIOR_DEPTH_BINS) {
                        old(self).histograms@[i]
                    } else if !ieee::is_nan(sum) && ieee::value(sum) > 0 {
                        shares@[depth]
                    } else {
                        FLAT_SPATIAL_BIN
                    }
                }),
    {
        let base: usize = Self::index(view, x, y, 0);
        proof {
            assert(ieee::value(ieee::ZERO) == 0);
        }
        let positive = ieee::less(ieee::ZERO, sum);
        let mut d: usize = 0;
        while d < SPATIAL_PRIOR_DEPTH_BINS
            invariant
                d <= SPATIAL_PRIOR_DEPTH_BINS,
                base + SPATIAL_PRIOR_DEPTH_BINS <= SPATIAL_PRIOR_LEN,
                shares@.len() == SPATIAL_PRIOR_DEPTH_BINS,
                self.well_formed(),
                self.directions == old(self).directions,
                self.radius == old(self).radius,
                forall|i: int|
                    0 <= i < SPATIAL_PRIOR_LEN ==> #[trigger] self.histograms@[i] == (if !(base <= i < base
                        + d) {
                        old(self).histograms@[i]
                    } else if positive {
                        shares@[i - base]
                    } else {
                        FLAT_SPATIAL_BIN
                    }),
            decreases SPATIAL_PRIOR_DEPTH_BINS - d,
        {
            self.histograms[base + d] = if positive { shares[d] } else { FLAT_SPATIAL_BIN };
            d = d + 1;
        }
    }

    /// Place of a bin in the volume that is handed to the shaders: tile row, tile column, then
    /// camera depth.
    pub fn output_index(x: usize, y: usize, bin: usize) -> (at: usize)
        requires
            x < SPATIAL_PRIOR_WIDTH,
            y < SPATIAL_PRIOR_HEIGHT,
            bin < DIRECTIONAL_DEPTH_BINS,
        ensures
            at == (y * SPATIAL_PRIOR_WIDTH + x) * DIRECTIONAL_DEPTH_BINS + bin,
            at < SPATIAL_PRIOR_WIDTH * SPATIAL_PRIOR_HEIGHT * DIRECTIONAL_DEPTH_BINS,
    {
        (y * SPATIAL_PRIOR_WIDTH + x) * DIRECTIONAL_DEPTH_BINS + bin
    }

    /// The four cells that a point between cells `(x, y)` and `(x + 1, y + 1)` falls on, held
    /// inside the grid: a sample is spread over them or blended from them.
    pub fn taps(x: usize, y: usize) -> (cells: [(usize, usize); 4])
        requires
            x < SPATIAL_PRIOR_WIDTH,
            y < SPATIAL_PRIOR_HEIGHT,
        ensures
            cells@ == ({
                let x1 = if x + 1 < SPATIAL_PRIOR_WIDTH { (x + 1) as usize } else { x };
                let y1 = if y + 1 < SPATIAL_PRIOR_HEIGHT { (y + 1) as usize } else { y };
                seq![(x, y), (x1, y), (x, y1), (x1, y1)]
            }),
    {
        let x1: usize = if x + 1 < SPATIAL_PRIOR_WIDTH { x + 1 } else { SPATIAL_PRIOR_WIDTH - 1 };
        let y1: usize = if y + 1 < SPATIAL_PRIOR_HEIGHT { y + 1 } else { SPATIAL_PRIOR_HEIGHT - 1 };
        [(x, y), (x1, y), (x, y1), (x1, y1)]
    }

    /// Bins have distinct places, all of them inside the list.
    pub proof fn bins_have_distinct_places(
        view: int,
        x: int,
        y: int,
        depth: int,
        other_view: int,
        other_x: int,
        other_y: int,
        other_depth: int,
    )
        requires
            Self::is_bin(view, x, y, depth),
            Self::is_bin(other_view, other_x, other_y, other_depth),
        ensures
            0 <= Self::place(view, x, y, depth) < SPATIAL_PRIOR_LEN,
            Self::place(view, x, y, depth) == Self::place(
                other_view,
                other_x,
                other_y,
                other_depth,
            ) ==> (view, x, y, depth) == (other_view, other_x, other_y, other_depth),
    {
    }

    /// Every place in the list belongs to a bin.
    pub proof fn every_place_is_a_bin(at: int) -> (bin: (int, int, int, int))
        requires
            0 <= at < SPATIAL_PRIOR_LEN,
        ensures
            Self::is_bin(bin.0, bin.1, bin.2, bin.3),
            Self::place(bin.0, bin.1, bin.2, bin.3) == at,
    {
        let depth = at % (SPATIAL_PRIOR_DEPTH_BINS as int);
        let cell = at / (SPATIAL_PRIOR_DEPTH_BINS as int);
        let x = cell % (SPATIAL_PRIOR_WIDTH as int);
        let row = cell / (SPATIAL_PRIOR_WIDTH as int);
        let y = row % (SPATIAL_PRIOR_HEIGHT as int);
        let view = row / (SPATIAL_PRIOR_HEIGHT as int);
        (view, x, y, depth)
    }

    /// Neighbouring bins lie one value apart along the depth, a histogram apart along a row of
    /// tiles, a row of tiles apart along a column, and a grid apart from view to view.
    pub proof fn bins_lie_in_strides(view: int, x: int, y: int, depth: int)
        ensures
            Self::place(0, 0, 0, 0) == 0,
            Self::place(view, x, y, depth + 1) == Self::place(view, x, y, depth) + 1,
            Self::place(view, x + 1, y, depth) == Self::place(view, x, y, depth) + 32,
            Self::place(view, x, y + 1, depth) == Self::place(view, x, y, depth) + 32 * 8,
            Self::place(view + 1, x, y, depth) == Self::place(view, x, y, depth) + 32 * 8 * 8,
    {
    }

    /// Which coordinates name a bin.
    pub proof fn bins_fill_the_grid(view: int, x: int, y: int, depth: int)
        ensures
            Self::is_bin(view, x, y, depth) <==> 0 <= view < 64 && 0 <= x < 8 && 0 <= y < 8
                && 0 <= depth < 32,
    {
    }
}

/// The spatial prior of higher quality: more directions, and each projected ellipse spread
/// over every coarse cell that it overlaps.
#[derive(Clone)]
pub struct HighQualitySpatialDirectionalPrior {
    pub directions: Vec<[u32; 3]>,
    pub histograms: Vec<u32>,
    pub radius: u32,
}

impl HighQualitySpatialDirectionalPrior {
    /// Place of a bin: values are laid out by view, then tile row, tile column and depth.
    pub open spec fn place(view: int, x: int, y: int, depth: int) -> int {
        ((view * HQ_SPATIAL_PRIOR_HEIGHT + y) * HQ_SPATIAL_PRIOR_WIDTH + x) * SPATIAL_PRIOR_DEPTH_BINS + depth
    }

    /// Whether the four coordinates name a bin.
    pub open spec fn is_bin(view: int, x: int, y: int, depth: int) -> bool {
        &&& 0 <= view < HQ_DIRECTIONAL_VIEW_COUNT
        &&& 0 <= x < HQ_SPATIAL_PRIOR_WIDTH
        &&& 0 <= y < HQ_SPATIAL_PRIOR_HEIGHT
        &&& 0 <= depth < SPATIAL_PRIOR_DEPTH_BINS
    }

    pub open spec fn well_formed(self) -> bool {
        &&& self.directions@.len() == HQ_DIRECTIONAL_VIEW_COUNT
        &&& self.histograms@.len() == HQ_SPATIAL_PRIOR_LEN
    }

    /// Place of a bin among the values.
    pub fn index(view: usize, x: usize, y: usize, depth: usize) -> (at: usize)
        requires
            Self::place(view as int, x as int, y as int, depth as int) <= usize::MAX,
        ensures
            at == Self::place(view as int, x as int, y as int, depth as int),
    {
        ((view * HQ_SPATIAL_PRIOR_HEIGHT + y) * HQ_SPATIAL_PRIOR_WIDTH + x) * SPATIAL_PRIOR_DEPTH_BINS + depth
    }

    /// A prior with every bin empty.
    pub fn new(directions: Vec<[u32; 3]>, radius: u32) -> (prior: Self)
        requires
            directions@.len() == HQ_DIRECTIONAL_VIEW_COUNT,
        ensures
            prior.well_formed(),
            prior.directions == directions,
            prior.radius == radius,
            forall|i: int| 0 <= i < HQ_SPATIAL_PRIOR_LEN ==> #[trigger] prior.histograms@[i] == ieee::ZERO,
    {
        let histograms: Vec<u32> = vec![ieee::ZERO; HQ_SPATIAL_PRIOR_LEN];
        HighQualitySpatialDirectionalPrior { directions, histograms, radius }
    }

    /// The value of a bin.
    pub fn get(&self, view: usize, x: usize, y: usize, depth: usize) -> (bits: u32)
        requires
            self.well_formed(),
            Self::is_bin(view as int, x as int, y as int, depth as int),
        ensures
            bits == self.histograms@[Self::place(view as int, x as int, y as int, depth as int)],
    {
        self.histograms[Self::index(view, x, y, depth)]
    }

    /// Replaces the value of a bin.
    pub fn set(&mut self, view: usize, x: usize, y: usize, depth: usize, bits: u32)
        requires
            old(self).well_formed(),
            Self::is_bin(view as int, x as int, y as int, depth as int),
        ensures
            final(self).well_formed(),
            final(self).directions == old(self).directions,
            final(self).radius == old(self).radius,
            final(self).histograms@ == old(self).histograms@.update(
                Self::place(view as int, x as int, y as int, depth as int),
                bits,
            ),
    {
        let at: usize = Self::index(view, x, y, depth);
        self.histograms[at] = bits;
    }

    /// Closes the histogram of one cell. `sum` is the sum of its bins: where it is positive
    /// the bins become `shares`, their quotients by the sum; otherwise the histogram becomes
    /// flat. Bins of other cells stay.
    pub fn normalize(&mut self, view: usize, x: usize, y: usize, sum: u32, shares: &[u32])
        requires
            old(self).well_formed(),
            Self::is_bin(view as int, x as int, y as int, 0),
            shares@.len() == SPATIAL_PRIOR_DEPTH_BINS,
        ensures
            final(self).well_formed(),
            final(self).directions == old(self).directions,
            final(self).radius == old(self).radius,
            forall|i: int|
                0 <= i < HQ_SPATIAL_PRIOR_LEN ==> #[trigger] final(self).histograms@[i] == ({
                    let depth = i - Self::place(view as int, x as int, y as int, 0);
                    if !(0 <= depth < SPATIAL_PRIOR_DEPTH_BINS) {
                        old(self).histograms@[i]
                    } else if !ieee::is_nan(sum) && ieee::value(sum) > 0 {
                        shares@[depth]
                    } else {
                        FLAT_SPATIAL_BIN
                    }
                }),
    {
        let base: usize = Self::index(view, x, y, 0);
        proof {
            assert(ieee::value(ieee::ZERO) == 0);
        }
        let positive = ieee::less(ieee::ZERO, sum);
        let mut d: usize = 0;
        while d < SPATIAL_PRIOR_DEPTH_BINS
            invariant
                d <= SPATIAL_PRIOR_DEPTH_BINS,
                base + SPATIAL_PRIOR_DEPTH_BINS <= HQ_SPATIAL_PRIOR_LEN,
                shares@.len() == SPATIAL_PRIOR_DEPTH_BINS,
                self.well_formed(),
                self.directions == old(self).directions,
                self.radius == old(self).radius,
                forall|i: int|
                    0 <= i < HQ_SPATIAL_PRIOR_LEN ==> #[trigger] self.histograms@[i] == (if !(base <= i < base
                        + d) {
                        old(self).histograms@[i]
                    } else if positive {
                        shares@[i - base]
                    } else {
                        FLAT_SPATIAL_BIN
                    }),
            decreases SPATIAL_PRIOR_DEPTH_BINS - d,
        {
            self.histograms[base + d] = if positive { shares[d] } else { FLAT_SPATIAL_BIN };
            d = d + 1;
        }
    }

    /// Place of a bin in the volume that is handed to the shaders: tile row, tile column, then
    /// camera depth.
    pub fn output_index(x: usize, y: usize, bin: usize) -> (at: usize)
        requires
            x < HQ_SPATIAL_PRIOR_WIDTH,
            y < HQ_SPATIAL_PRIOR_HEIGHT,
            bin < DIRECTIONAL_DEPTH_BINS,
        ensures
            at == (y * HQ_SPATIAL_PRIOR_WIDTH + x) * DIRECTIONAL_DEPTH_BINS + bin,
            at < HQ_SPATIAL_PRIOR_WIDTH * HQ_SPATIAL_PRIOR_HEIGHT * DIRECTIONAL_DEPTH_BINS,
    {
        (y * HQ_SPATIAL_PRIOR_WIDTH + x) * DIRECTIONAL_DEPTH_BINS + bin
    }

    /// The four cells that a point between cells `(x, y)` and `(x + 1, y + 1)` falls on, held
    /// inside the grid: a sample is spread over them or blended from them.
    pub fn taps(x: usize, y: usize) -> (cells: [(usize, usize); 4])
        requires
            x < HQ_SPATIAL_PRIOR_WIDTH,
            y < HQ_SPATIAL_PRIOR_HEIGHT,
        ensures
            cells@ == ({
                let x1 = if x + 1 < HQ_SPATIAL_PRIOR_WIDTH { (x + 1) as usize } else { x };
                let y1 = if y + 1 < HQ_SPATIAL_PRIOR_HEIGHT { (y + 1) as usize } else { y };
                seq![(x, y), (x1, y), (x, y1), (x1, y1)]
            }),
    {
        let x1: usize = if x + 1 < HQ_SPATIAL_PRIOR_WIDTH { x + 1 } else { HQ_SPATIAL_PRIOR_WIDTH - 1 };
        let y1: usize = if y + 1 < HQ_SPATIAL_PRIOR_HEIGHT { y + 1 } else { HQ_SPATIAL_PRIOR_HEIGHT - 1 };
        [(x, y), (x1, y), (x, y1), (x1, y1)]
    }

    /// Bins have distinct places, all of them inside the list.
    pub proof fn bins_have_distinct_places(
        view: int,
        x: int,
        y: int,
        depth: int,
        other_view: int,
        other_x: int,
        other_y: int,
        other_depth: int,
    )
        requires
            Self::is_bin(view, x, y, depth),
            Self::is_bin(other_view, other_x, other_y, other_depth),
        ensures
            0 <= Self::place(view, x, y, depth) < HQ_SPATIAL_PRIOR_LEN,
            Self::place(view, x, y, depth) == Self::place(
                other_view,
                other_x,
                other_y,
                other_depth,
            ) ==> (view, x, y, depth) == (other_view, other_x, other_y, other_depth),
    {
    }

    /// Every place in the list belongs to a bin.
    pub proof fn every_place_is_a_bin(at: int) -> (bin: (int, int, int, int))
        requires
            0 <= at < HQ_SPATIAL_PRIOR_LEN,
        ensures
            Self::is_bin(bin.0, bin.1, bin.2, bin.3),
            Self::place(bin.0, bin.1, bin.2, bin.3) == at,
    {
        let depth = at % (SPATIAL_PRIOR_DEPTH_BINS as int);
        let cell = at / (SPATIAL_PRIOR_DEPTH_BINS as int);
        let x = cell % (HQ_SPATIAL_PRIOR_WIDTH as int);
        let row = cell / (HQ_SPATIAL_PRIOR_WIDTH as int);
        let y = row % (HQ_SPATIAL_PRIOR_HEIGHT as int);
        let view = row / (HQ_SPATIAL_PRIOR_HEIGHT as int);
        (view, x, y, depth)
    }

    /// Neighbouring bins lie one value apart along the depth, a histogram apart along a row of
    /// tiles, a row of tiles apart along a column, and a grid apart from view to view.
    pub proof fn bins_lie_in_strides(view: int, x: int, y: int, depth: int)
        ensures
            Self::place(0, 0, 0, 0) == 0,
            Self::place(view, x, y, depth + 1) == Self::place(view, x, y, depth) + 1,
            Self::place(view, x + 1, y, depth) == Self::place(view, x, y, depth) + 32,
            Self::place(view, x, y + 1, depth) == Self::place(view, x, y, depth) + 32 * 20,
            Self::place(view + 1, x, y, depth) == Self::place(view, x, y, depth) + 32 * 20 * 12,
    {
    }

    /// Which coordinates name a bin.
    pub proof fn bins_fill_the_grid(view: int, x: int, y: int, depth: int)
        ensures
            Self::is_bin(view, x, y, depth) <==> 0 <= view < 512 && 0 <= x < 20 && 0 <= y < 12
                && 0 <= depth < 32,
    {
    }
}

/// A compact view-dependent optical-depth prior: one histogram for each of the evenly
/// distributed camera directions, over depth relative to the scene.
#[derive(Clone)]
pub struct DirectionalHistogramPrior {
    pub directions: Vec<[u32; 3]>,
    pub histograms: Vec<u32>,
    pub radius: u32,
}

impl DirectionalHistogramPrior {
    pub open spec fn well_formed(self) -> bool {
        &&& self.directions@.len() == DIRECTIONAL_VIEW_COUNT
        &&& self.histograms@.len() == DIRECTIONAL_PRIOR_LEN
    }

    /// A prior with every bin empty.
    pub fn new(directions: Vec<[u32; 3]>, radius: u32) -> (prior: Self)
        requires
            directions@.len() == DIRECTIONAL_VIEW_COUNT,
        ensures
            prior.well_formed(),
            prior.directions == directions,
            prior.radius == radius,
            forall|i: int|
                0 <= i < DIRECTIONAL_PRIOR_LEN ==> #[trigger] prior.histograms@[i] == ieee::ZERO,
    {
        let histograms: Vec<u32> = vec![ieee::ZERO; DIRECTIONAL_PRIOR_LEN];
        DirectionalHistogramPrior { directions, histograms, radius }
    }

    /// The value of a bin.
    pub fn get(&self, view: usize, bin: usize) -> (bits: u32)
        requires
            self.well_formed(),
            view < DIRECTIONAL_VIEW_COUNT,
            bin < DIRECTIONAL_DEPTH_BINS,
        ensures
            bits == self.histograms@[view * DIRECTIONAL_DEPTH_BINS + bin],
    {
        self.histograms[view * DIRECTIONAL_DEPTH_BINS + bin]
    }

    /// Replaces the value of a bin.
    pub fn set(&mut self, view: usize, bin: usize, bits: u32)
        requires
            old(self).well_formed(),
            view < DIRECTIONAL_VIEW_COUNT,
            bin < DIRECTIONAL_DEPTH_BINS,
        ensures
            final(self).well_formed(),
            final(self).directions == old(self).directions,
            final(self).radius == old(self).radius,
            final(self).histograms@ == old(self).histograms@.update(
                view * DIRECTIONAL_DEPTH_BINS + bin,
                bits,
            ),
    {
        let at: usize = view * DIRECTIONAL_DEPTH_BINS + bin;
        self.histograms[at] = bits;
    }

    /// Closes the histogram of one view. `sum` is the sum of its bins: where it is positive
    /// the bins become `shares`, their quotients by the sum; otherwise the histogram becomes
    /// flat. Other views stay.
    pub fn normalize(&mut self, view: usize, sum: u32, shares: &[u32])
        requires
            old(self).well_formed(),
            view < DIRECTIONAL_VIEW_COUNT,
            shares@.len() == DIRECTIONAL_DEPTH_BINS,
        ensures
            final(self).well_formed(),
            final(self).directions == old(self).directions,
            final(self).radius == old(self).radius,
            forall|i: int|
                0 <= i < DIRECTIONAL_PRIOR_LEN ==> #[trigger] final(self).histograms@[i] == ({
                    let bin = i - view * DIRECTIONAL_DEPTH_BINS;
                    if !(0 <= bin < DIRECTIONAL_DEPTH_BINS) {
                        old(self).histograms@[i]
                    } else if !ieee::is_nan(sum) && ieee::value(sum) > 0 {
                        shares@[bin]
                    } else {
                        FLAT_DIRECTIONAL_BIN
                    }
                }),
    {
        let base: usize = view * DIRECTIONAL_DEPTH_BINS;
        proof {
            assert(ieee::value(ieee::ZERO) == 0);
        }
        let positive = ieee::less(ieee::ZERO, sum);
        let mut d: usize = 0;
        while d < DIRECTIONAL_DEPTH_BINS
            invariant
                d <= DIRECTIONAL_DEPTH_BINS,
                base + DIRECTIONAL_DEPTH_BINS <= DIRECTIONAL_PRIOR_LEN,
                shares@.len() == DIRECTIONAL_DEPTH_BINS,
                self.well_formed(),
                self.directions == old(self).directions,
                self.radius == old(self).radius,
                forall|i: int|
                    0 <= i < DIRECTIONAL_PRIOR_LEN ==> #[trigger] self.histograms@[i] == (if !(base
                        <= i < base + d) {
                        old(self).histograms@[i]
                    } else if positive {
                        shares@[i - base]
                    } else {
                        FLAT_DIRECTIONAL_BIN
                    }),
            decreases DIRECTIONAL_DEPTH_BINS - d,
        {
            self.histograms[base + d] = if positive { shares[d] } else { FLAT_DIRECTIONAL_BIN };
            d = d + 1;
        }
    }
}

/// The bin that a depth falls into: a depth at the far end belongs to the last bin.
pub fn depth_bin(scaled: usize, bins: usize) -> (bin: usize)
    requires
        bins > 0,
    ensures
        bin < bins,
        bin <= scaled,
        bin == scaled || bin + 1 == bins,
        bin == if scaled < bins {
            scaled as int
        } else {
            bins - 1
        },
{
    if scaled < bins {
        scaled
    } else {
        bins - 1
    }
}

/// The two camera bins that a depth is shared between; the last bin has no successor.
pub fn bin_pair(low: usize) -> (pair: (usize, usize))
    requires
        low < DIRECTIONAL_DEPTH_BINS,
    ensures
        pair.0 == low,
        pair.0 <= pair.1 < DIRECTIONAL_DEPTH_BINS,
        pair.1 == if low + 1 < DIRECTIONAL_DEPTH_BINS {
            low + 1
        } else {
            low as int
        },
{
    let high: usize = if low + 1 < DIRECTIONAL_DEPTH_BINS {
        low + 1
    } else {
        DIRECTIONAL_DEPTH_BINS - 1
    };
    (low, high)
}

/// The flat bin shares are what they stand for: the shares of a histogram add up to one.
pub proof fn flat_shares_add_up()
    ensures
        DIRECTIONAL_DEPTH_BINS * ieee::value(FLAT_DIRECTIONAL_BIN) == ieee::value(ieee::ONE),
        SPATIAL_PRIOR_DEPTH_BINS * ieee::value(FLAT_SPATIAL_BIN) == ieee::value(ieee::ONE),
{
    lemma_pow2_adds(120, 6);
    lemma_pow2_adds(121, 5);
    vstd::arithmetic::power2::lemma2_to64();
    assert(pow2(120) * pow2(6) == 64 * pow2(120)) by (nonlinear_arith)
        requires
            pow2(6) == 64,
    ;
    assert(pow2(121) * pow2(5) == 32 * pow2(121)) by (nonlinear_arith)
        requires
            pow2(5) == 32,
    ;
    assert(ieee::value(FLAT_DIRECTIONAL_BIN) == 0x80_0000 * pow2(120)) by {
        assert(ieee::magnitude(FLAT_DIRECTIONAL_BIN) / 0x80_0000 == 121);
        assert(ieee::magnitude(FLAT_DIRECTIONAL_BIN) % 0x80_0000 == 0);
    }
    assert(ieee::value(FLAT_SPATIAL_BIN) == 0x80_0000 * pow2(121)) by {
        assert(ieee::magnitude(FLAT_SPATIAL_BIN) / 0x80_0000 == 122);
        assert(ieee::magnitude(FLAT_SPATIAL_BIN) % 0x80_0000 == 0);
    }
    assert(ieee::value(ieee::ONE) == 0x80_0000 * pow2(126)) by {
        assert(ieee::magnitude(ieee::ONE) / 0x80_0000 == 127);
        assert(ieee::magnitude(ieee::ONE) % 0x80_0000 == 0);
    }
}

/// The prior before one is sampled: a flat histogram over the camera's depths.
pub fn flat_prior() -> (words: Vec<u32>)
    ensures
        words@ == Seq::new(DIRECTIONAL_DEPTH_BINS as nat, |i: int| FLAT_DIRECTIONAL_BIN),
{
    let words: Vec<u32> = vec![FLAT_DIRECTIONAL_BIN; DIRECTIONAL_DEPTH_BINS];
    proof {
        assert(words@ =~= Seq::new(DIRECTIONAL_DEPTH_BINS as nat, |i: int| FLAT_DIRECTIONAL_BIN));
    }
    words
}

/// Where there are three directions or more and every product is a number above negative infinity,
/// three different ones are named, and what is left out is no nearer, nor as near and earlier.
#[verifier::rlimit(40)]
pub proof fn nearest_are_the_best_three(dots: Seq<u32>, nearest: Seq<(u32, usize)>, left: int)
    requires
        are_nearest(dots, nearest),
        dots.len() >= 3,
        forall|i: int|
            0 <= i < dots.len() ==> !ieee::is_nan(#[trigger] dots[i]) && dots[i]
                != ieee::NEG_INFINITY,
        0 <= left < dots.len(),
        left != nearest[0].1,
        left != nearest[1].1,
        left != nearest[2].1,
    ensures
        nearest[0].1 < dots.len(),
        nearest[1].1 < dots.len(),
        nearest[2].1 < dots.len(),
        nearest[0].1 != nearest[1].1,
        nearest[0].1 != nearest[2].1,
        nearest[1].1 != nearest[2].1,
        nearest[0].0 == dots[nearest[0].1 as int],
        nearest[1].0 == dots[nearest[1].1 as int],
        nearest[2].0 == dots[nearest[2].1 as int],
        ieee::value(nearest[0].0) >= ieee::value(nearest[1].0),
        ieee::value(nearest[1].0) >= ieee::value(nearest[2].0),
        ieee::value(nearest[2].0) >= ieee::value(dots[left]),
        ieee::value(nearest[2].0) == ieee::value(dots[left]) ==> nearest[2].1 < left,
        ieee::value(nearest[0].0) == ieee::value(nearest[1].0) ==> nearest[0].1 < nearest[1].1,
        ieee::value(nearest[1].0) == ieee::value(nearest[2].0) ==> nearest[1].1 < nearest[2].1,
{
    assert forall|i: int| 0 <= i < dots.len() implies #[trigger] is_eligible(dots, i) by {
        lemma_above_negative_infinity(dots[i]);
    }
    nearest_are_ordered(dots, nearest);
    assert(is_eligible(dots, 0) && is_eligible(dots, 1) && is_eligible(dots, 2));
    assert(is_eligible(dots, left));
}

proof fn lemma_above_negative_infinity(bits: u32)
    requires
        !ieee::is_nan(bits),
        bits != ieee::NEG_INFINITY,
    ensures
        ieee::value(bits) > ieee::value(ieee::NEG_INFINITY),
{
    ieee::rank_orders_values(ieee::NEG_INFINITY, bits);
}

/// A direction whose product is no number, or negative infinity, is never named; a slot that stays
/// empty names the first direction with no product, and none behind it is filled.
pub proof fn bad_products_are_passed_over(dots: Seq<u32>, nearest: Seq<(u32, usize)>, j: int)
    requires
        are_nearest(dots, nearest),
        0 <= j < 3,
    ensures
        nearest[j].0 != ieee::NEG_INFINITY ==> nearest[j].1 < dots.len() && nearest[j].0
            == dots[nearest[j].1 as int] && !ieee::is_nan(nearest[j].0),
        nearest[j].0 == ieee::NEG_INFINITY ==> nearest[j].1 == 0,
        j < 2 && nearest[j].0 == ieee::NEG_INFINITY ==> nearest[j + 1].0 == ieee::NEG_INFINITY,
{
}

/// As long as slots are empty no direction is missing: every number above negative infinity is
/// named then.
pub proof fn empty_slots_leave_nothing_out(dots: Seq<u32>, nearest: Seq<(u32, usize)>, i: int)
    requires
        are_nearest(dots, nearest),
        nearest[2].0 == ieee::NEG_INFINITY,
        0 <= i < dots.len(),
        !ieee::is_nan(dots[i]),
        dots[i] != ieee::NEG_INFINITY,
    ensures
        (nearest[0].0 == dots[i] && nearest[0].1 == i) || (nearest[1].0 == dots[i] && nearest[1].1
            == i),
{
    lemma_above_negative_infinity(dots[i]);
    assert(is_eligible(dots, i));
}

/// A direction that is left out, though its product is a number above negative infinity, is beaten
/// by all three slots: each names a direction that is nearer, or as near and earlier.
pub proof fn slots_beat_what_is_left_out(
    dots: Seq<u32>,
    nearest: Seq<(u32, usize)>,
    left: int,
    j: int,
)
    requires
        are_nearest(dots, nearest),
        0 <= left < dots.len(),
        !ieee::is_nan(dots[left]),
        dots[left] != ieee::NEG_INFINITY,
        forall|s: int|
            0 <= s < 3 && (#[trigger] nearest[s]).0 != ieee::NEG_INFINITY ==> nearest[s].1 != left,
        0 <= j < 3,
    ensures
        nearest[j].0 != ieee::NEG_INFINITY,
        ieee::value(nearest[j].0) > ieee::value(dots[left]) || (ieee::value(nearest[j].0)
            == ieee::value(dots[left]) && nearest[j].1 < left),
{
    lemma_above_negative_infinity(dots[left]);
    assert(is_eligible(dots, left));
    assert(nearest[0].0 != ieee::NEG_INFINITY ==> nearest[0].1 != left);
    assert(nearest[1].0 != ieee::NEG_INFINITY ==> nearest[1].1 != left);
    assert(nearest[2].0 != ieee::NEG_INFINITY ==> nearest[2].1 != left);
    assert(!is_chosen(nearest, left));
}

/// Slots are filled in order: of two that name a direction the first one's is nearer, or as near
/// and earlier.
pub proof fn slots_are_in_order(dots: Seq<u32>, nearest: Seq<(u32, usize)>, j: int, k: int)
    requires
        are_nearest(dots, nearest),
        0 <= j < k < 3,
        nearest[k].0 != ieee::NEG_INFINITY,
    ensures
        nearest[j].0 != ieee::NEG_INFINITY,
        nearest[j].1 != nearest[k].1,
        ieee::value(nearest[j].0) > ieee::value(nearest[k].0) || (ieee::value(nearest[j].0)
            == ieee::value(nearest[k].0) && nearest[j].1 < nearest[k].1),
{
}

} // verus!
