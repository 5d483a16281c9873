//! CPU-side Gaussian splat scene: packing for the GPU and the importance order that the render
//! cap relies on. Real numbers are held as single-precision bit patterns.
use crate::ieee;
use crate::order::{
    as_ints, comes_before, gathered, gathering_keeps_contents, is_permutation,
    is_stable_descending, permute, stable_descending_is_permutation, stable_descending_order,
};
use crate::sorter::{order_keys, ranks};
use vstd::prelude::*;

verus! {

/// Coefficients of the higher spherical-harmonics bands of one splat.
pub const SH_COEFFICIENTS: usize = 45;

/// Bit pattern of 0.001, the smallest radius of a scene.
pub const MIN_RADIUS: u32 = 0x3a83_126f;

/// One splat as the shaders see it: 64 bytes, four vectors of four words.
#[derive(Clone, Copy, Debug)]
pub struct SplatGpu {
    /// World position, then opacity.
    pub pos_opacity: [u32; 4],
    /// Covariance `xx, xy, xz`, then the normal's x.
    pub cov_a: [u32; 4],
    /// Covariance `yy, yz, zz`, then the normal's y.
    pub cov_b: [u32; 4],
    /// Colour, then the normal's z.
    pub color: [u32; 4],
}

impl SplatGpu {
    /// The splat as the sixteen words that the shaders read.
    pub open spec fn words(self) -> Seq<u32> {
        self.pos_opacity@ + self.cov_a@ + self.cov_b@ + self.color@
    }
}

/// A splat scene, the most important splat first.
pub struct SplatScene {
    pub gpu: Vec<SplatGpu>,
    /// World-space positions.
    pub positions: Vec<[u32; 3]>,
    /// Higher spherical-harmonics bands, one run of coefficients for each splat. Empty when
    /// the file had none.
    pub sh: Vec<u32>,
    pub sh_degree: u32,
    pub center: [u32; 3],
    pub radius: u32,
}

/// Which axis of a Gaussian is the thinnest, the earlier one where two are equally thin. Its
/// direction is the best normal-like signal that a reconstruction gives.
pub open spec fn thinnest(scale: Seq<u32>) -> int {
    if at_most(scale[0], scale[1]) && at_most(scale[0], scale[2]) {
        0
    } else if at_most(scale[1], scale[2]) {
        1
    } else {
        2
    }
}

/// Comparison of numbers that is false when either is NaN.
pub open spec fn at_most(a: u32, b: u32) -> bool {
    !ieee::is_nan(a) && !ieee::is_nan(b) && ieee::value(a) <= ieee::value(b)
}

/// The axis along which a Gaussian is thinnest.
pub fn thinnest_axis(scale: &[u32; 3]) -> (axis: usize)
    ensures
        axis == thinnest(scale@),
{
    if ieee::less_equal(scale[0], scale[1]) && ieee::less_equal(scale[0], scale[2]) {
        0
    } else if ieee::less_equal(scale[1], scale[2]) {
        1
    } else {
        2
    }
}

/// The thinnest axis is no longer than the other two.
pub proof fn thinnest_axis_is_shortest(scale: Seq<u32>, axis: int)
    requires
        scale.len() == 3,
        forall|a: int| 0 <= a < 3 ==> !ieee::is_nan(#[trigger] scale[a]),
        0 <= axis < 3,
    ensures
        0 <= thinnest(scale) < 3,
        ieee::value(scale[thinnest(scale)]) <= ieee::value(scale[axis]),
{
}

/// Runs of coefficients read along `order`.
pub open spec fn gathered_runs(src: Seq<u32>, order: Seq<u32>, run: int) -> Seq<u32> {
    Seq::new(
        (order.len() * run) as nat,
        |j: int| src[order[j / run] * run + j % run],
    )
}

/// Gathers the coefficients of the splats along `order`.
fn permute_sh(sh: &[u32], order: &[u32], n: usize) -> (out: Vec<u32>)
    requires
        order@.len() == n,
        n * SH_COEFFICIENTS <= usize::MAX,
        sh@.len() >= n * SH_COEFFICIENTS,
        forall|i: int| 0 <= i < n ==> (#[trigger] order@[i]) < n,
    ensures
        out@ == gathered_runs(sh@, order@, SH_COEFFICIENTS as int),
{
    let mut out: Vec<u32> = Vec::with_capacity(n * SH_COEFFICIENTS);
    let mut i: usize = 0;
    while i < n
        invariant
            i <= n,
            order@.len() == n,
            n * SH_COEFFICIENTS <= usize::MAX,
            sh@.len() >= n * SH_COEFFICIENTS,
            forall|a: int| 0 <= a < n ==> (#[trigger] order@[a]) < n,
            out@.len() == i * SH_COEFFICIENTS,
            forall|j: int|
                0 <= j < out@.len() ==> #[trigger] out@[j] == sh@[order@[j / SH_COEFFICIENTS as int]
                    * SH_COEFFICIENTS + j % SH_COEFFICIENTS as int],
        decreases n - i,
    {
        let base: usize = order[i] as usize * SH_COEFFICIENTS;
        let mut c: usize = 0;
        while c < SH_COEFFICIENTS
            invariant
                c <= SH_COEFFICIENTS,
                i < n,
                order@.len() == n,
                sh@.len() >= n * SH_COEFFICIENTS,
                n * SH_COEFFICIENTS <= usize::MAX,
                order@[i as int] < n,
                base == order@[i as int] * SH_COEFFICIENTS,
                out@.len() == i * SH_COEFFICIENTS + c,
                forall|j: int|
                    0 <= j < out@.len() ==> #[trigger] out@[j]
                        == sh@[order@[j / SH_COEFFICIENTS as int] * SH_COEFFICIENTS + j
                        % SH_COEFFICIENTS as int],
            decreases SH_COEFFICIENTS - c,
        {
            out.push(sh[base + c]);
            c = c + 1;
        }
        i = i + 1;
    }
    out
}

/// Whether `scene` holds the splats of a file, most important first: splats, positions and
/// coefficients are all read along the stable descending order of importance.
pub open spec fn is_importance_ordered(
    scene: SplatScene,
    gpu: Seq<SplatGpu>,
    sh: Seq<u32>,
    sh_degree: u32,
    order: Seq<u32>,
) -> bool {
    &&& scene.gpu@ == gathered(gpu, order)
    &&& scene.has_matching_positions()
    &&& scene.sh@ == if sh_degree > 0 {
        gathered_runs(sh, order, SH_COEFFICIENTS as int)
    } else {
        Seq::empty()
    }
    &&& scene.sh_degree == sh_degree
}

impl SplatScene {
    /// Each position is that of its splat.
    pub open spec fn has_matching_positions(self) -> bool {
        &&& self.positions@.len() == self.gpu@.len()
        &&& forall|i: int|
            0 <= i < self.gpu@.len() ==> (#[trigger] self.positions@[i])@
                == self.gpu@[i].pos_opacity@.take(3)
    }

    /// Builds a scene from the splats of a file: `gpu` holds them in file order, `importance`
    /// ranks them, `sh` holds their coefficients. The bounds are those of an empty scene
    /// until `set_bounds` gives others.
    pub fn from_ply(gpu: &[SplatGpu], importance: &[u32], sh: &[u32], sh_degree: u32) -> (scene:
        Self)
        requires
            gpu@.len() <= u32::MAX,
            gpu@.len() * SH_COEFFICIENTS <= usize::MAX,
            importance@.len() == gpu@.len(),
            sh_degree > 0 ==> sh@.len() >= gpu@.len() * SH_COEFFICIENTS,
        ensures
            exists|order: Seq<u32>|
                #![trigger is_stable_descending(ranks(importance@), order)]
                is_stable_descending(ranks(importance@), order) && is_importance_ordered(
                    scene,
                    gpu@,
                    sh@,
                    sh_degree,
                    order,
                ),
            scene.center@ == seq![ieee::ZERO, ieee::ZERO, ieee::ZERO],
            scene.radius == ieee::ONE,
            scene.gpu@.len() == gpu@.len(),
            scene.positions@.len() == gpu@.len(),
            scene.sh_degree == sh_degree,
            scene.sh@.len() == if sh_degree > 0 {
                gpu@.len() * SH_COEFFICIENTS
            } else {
                0
            },
    {
        let n: usize = gpu.len();
        let keys = order_keys(importance, n);
        let order = stable_descending_order(keys.as_slice());
        proof {
            assert(as_ints(keys@) =~= ranks(importance@));
        }
        let sorted = permute(gpu, order.as_slice());
        let bands: Vec<u32> = if sh_degree > 0 {
            permute_sh(sh, order.as_slice(), n)
        } else {
            Vec::new()
        };
        let positions = positions_of(sorted.as_slice());
        let scene = SplatScene {
            gpu: sorted,
            positions,
            sh: bands,
            sh_degree,
            center: [ieee::ZERO, ieee::ZERO, ieee::ZERO],
            radius: ieee::ONE,
        };
        proof {
            assert(is_stable_descending(ranks(importance@), order@));
            assert(is_importance_ordered(scene, gpu@, sh@, sh_degree, order@));
        }
        scene
    }

    /// Number of splats.
    pub fn len(&self) -> (n: usize)
        ensures
            n == self.gpu@.len(),
    {
        self.gpu.len()
    }

    /// Stores the bounds of the scene and turns every normal away from its centre. `center` and
    /// `half_diagonal` are those of the box that `robust_bounds` gives for the positions; the
    /// radius is never smaller than `MIN_RADIUS`. A scene without splats keeps the bounds of an
    /// empty one. A normal is turned round when `facing`, the product of the normal with the way
    /// from the centre to the splat, is negative.
    pub fn set_bounds(&mut self, center: [u32; 3], half_diagonal: u32, facing: &[u32])
        requires
            facing@.len() == old(self).gpu@.len(),
        ensures
            old(self).gpu@.len() > 0 ==> final(self).center == center && final(self).radius
                == ieee::larger(half_diagonal, MIN_RADIUS),
            old(self).gpu@.len() == 0 ==> final(self).center@ == seq![
                ieee::ZERO,
                ieee::ZERO,
                ieee::ZERO,
            ] && final(self).radius == ieee::ONE,
            !ieee::is_nan(final(self).radius),
            ieee::value(final(self).radius) >= ieee::value(MIN_RADIUS),
            final(self).positions == old(self).positions,
            final(self).sh == old(self).sh,
            final(self).sh_degree == old(self).sh_degree,
            old(self).has_matching_positions() ==> final(self).has_matching_positions(),
            final(self).gpu@.len() == old(self).gpu@.len(),
            forall|i: int|
                0 <= i < final(self).gpu@.len() ==> oriented(
                    old(self).gpu@[i],
                    facing@[i],
                    #[trigger] final(self).gpu@[i],
                ),
            forall|i: int, w: int|
                0 <= i < final(self).gpu@.len() && 0 <= w < 4
                    ==> #[trigger] final(self).gpu@[i].pos_opacity@[w]
                    == old(self).gpu@[i].pos_opacity@[w],
            forall|i: int, w: int|
                0 <= i < final(self).gpu@.len() && 0 <= w < 3
                    ==> #[trigger] final(self).gpu@[i].cov_a@[w] == old(self).gpu@[i].cov_a@[w],
            forall|i: int, w: int|
                0 <= i < final(self).gpu@.len() && 0 <= w < 3
                    ==> #[trigger] final(self).gpu@[i].cov_b@[w] == old(self).gpu@[i].cov_b@[w],
            forall|i: int, w: int|
                0 <= i < final(self).gpu@.len() && 0 <= w < 3
                    ==> #[trigger] final(self).gpu@[i].color@[w] == old(self).gpu@[i].color@[w],
    {
        if self.gpu.len() == 0 {
            self.center = [ieee::ZERO, ieee::ZERO, ieee::ZERO];
            self.radius = ieee::ONE;
        } else {
            self.center = center;
            self.radius = ieee::max(half_diagonal, MIN_RADIUS);
        }
        proof {
            ieee::rank_orders_values(MIN_RADIUS, ieee::ONE);
        }
        let ghost stored = *self;
        let mut i: usize = 0;
        while i < self.gpu.len()
            invariant
                i <= self.gpu@.len(),
                self.gpu@.len() == old(self).gpu@.len(),
                facing@.len() == self.gpu@.len(),
                self.center == stored.center,
                self.radius == stored.radius,
                self.positions == old(self).positions,
                self.sh == old(self).sh,
                self.sh_degree == old(self).sh_degree,
                forall|a: int|
                    0 <= a < i ==> oriented(
                        old(self).gpu@[a],
                        facing@[a],
                        #[trigger] self.gpu@[a],
                    ),
                forall|a: int| i <= a < self.gpu@.len() ==> self.gpu@[a] == old(self).gpu@[a],
            decreases self.gpu@.len() - i,
        {
            let splat = orient(&self.gpu[i], facing[i]);
            self.gpu[i] = splat;
            i = i + 1;
        }
    }

    /// The splats as the words of a storage buffer.
    pub fn gpu_words(&self) -> (words: Vec<u32>)
        requires
            self.gpu@.len() * 16 <= usize::MAX,
        ensures
            words@.len() == self.gpu@.len() * 16,
            forall|j: int|
                0 <= j < words@.len() ==> #[trigger] words@[j] == self.gpu@[j / 16].words()[j % 16],
            forall|i: int, c: int|
                #![trigger self.gpu@[i].pos_opacity@[c]]
                0 <= i < self.gpu@.len() && 0 <= c < 4 ==> {
                    &&& words@[16 * i + c] == self.gpu@[i].pos_opacity@[c]
                    &&& words@[16 * i + 4 + c] == self.gpu@[i].cov_a@[c]
                    &&& words@[16 * i + 8 + c] == self.gpu@[i].cov_b@[c]
                    &&& words@[16 * i + 12 + c] == self.gpu@[i].color@[c]
                },
    {
        let mut words: Vec<u32> = Vec::with_capacity(self.gpu.len() * 16);
        let mut i: usize = 0;
        while i < self.gpu.len()
            invariant
                i <= self.gpu@.len(),
                words@.len() == i * 16,
                forall|j: int|
                    0 <= j < words@.len() ==> #[trigger] words@[j] == self.gpu@[j / 16].words()[j
                        % 16],
            decreases self.gpu@.len() - i,
        {
            let splat = self.gpu[i];
            let ghost before = words@;
            push_vector(&mut words, &splat.pos_opacity);
            push_vector(&mut words, &splat.cov_a);
            push_vector(&mut words, &splat.cov_b);
            push_vector(&mut words, &splat.color);
            proof {
                assert(words@ =~= before + splat.words());
                assert forall|j: int| 0 <= j < words@.len() implies #[trigger] words@[j]
                    == self.gpu@[j / 16].words()[j % 16] by {
                    if j >= i * 16 {
                        assert(j / 16 == i && j % 16 == j - i * 16);
                    } else {
                        assert(words@[j] == before[j]);
                    }
                }
            }
            i = i + 1;
        }
        proof {
            assert forall|i: int, c: int|
                #![trigger self.gpu@[i].pos_opacity@[c]]
                0 <= i < self.gpu@.len() && 0 <= c < 4 implies {
                &&& words@[16 * i + c] == self.gpu@[i].pos_opacity@[c]
                &&& words@[16 * i + 4 + c] == self.gpu@[i].cov_a@[c]
                &&& words@[16 * i + 8 + c] == self.gpu@[i].cov_b@[c]
                &&& words@[16 * i + 12 + c] == self.gpu@[i].color@[c]
            } by {
                assert((16 * i + c) / 16 == i && (16 * i + c) % 16 == c);
                assert((16 * i + 4 + c) / 16 == i && (16 * i + 4 + c) % 16 == 4 + c);
                assert((16 * i + 8 + c) / 16 == i && (16 * i + 8 + c) % 16 == 8 + c);
                assert((16 * i + 12 + c) / 16 == i && (16 * i + 12 + c) % 16 == 12 + c);
                words_hold_the_vectors(self.gpu@[i], c);
            }
        }
        words
    }

    /// The coefficients as the words of a storage buffer. The buffer is bound even for files
    /// without higher bands: a single zero stands in for them.
    pub fn sh_words(&self) -> (words: Vec<u32>)
        ensures
            words@ == if self.sh@.len() == 0 {
                seq![ieee::ZERO]
            } else {
                self.sh@
            },
    {
        if self.sh.len() == 0 {
            let mut words: Vec<u32> = Vec::new();
            words.push(ieee::ZERO);
            words
        } else {
            vstd::slice::slice_to_vec(self.sh.as_slice())
        }
    }
}

/// Appends the four words of a vector.
fn push_vector(words: &mut Vec<u32>, vector: &[u32; 4])
    ensures
        final(words)@ == old(words)@ + vector@,
{
    words.push(vector[0]);
    words.push(vector[1]);
    words.push(vector[2]);
    words.push(vector[3]);
    proof {
        assert(words@ =~= old(words)@ + vector@);
    }
}

/// Whether `after` is `before` with its normal turned round exactly where `facing` is a
/// negative number; position, opacity, covariance and colour stay.
pub open spec fn oriented(before: SplatGpu, facing: u32, after: SplatGpu) -> bool {
    if !ieee::is_nan(facing) && ieee::value(facing) < 0 {
        &&& after.pos_opacity == before.pos_opacity
        &&& after.cov_a@ == before.cov_a@.update(3, ieee::negated(before.cov_a@[3]))
        &&& after.cov_b@ == before.cov_b@.update(3, ieee::negated(before.cov_b@[3]))
        &&& after.color@ == before.color@.update(3, ieee::negated(before.color@[3]))
    } else {
        after == before
    }
}

/// Turns the normal of a splat round where it faces the centre.
fn orient(splat: &SplatGpu, facing: u32) -> (turned: SplatGpu)
    ensures
        oriented(*splat, facing, turned),
{
    proof {
        assert(ieee::value(ieee::ZERO) == 0);
    }
    if ieee::less(facing, ieee::ZERO) {
        let turned = SplatGpu {
            pos_opacity: splat.pos_opacity,
            cov_a: with_last(&splat.cov_a, ieee::negate(splat.cov_a[3])),
            cov_b: with_last(&splat.cov_b, ieee::negate(splat.cov_b[3])),
            color: with_last(&splat.color, ieee::negate(splat.color[3])),
        };
        turned
    } else {
        *splat
    }
}

/// A vector with another last component.
fn with_last(vector: &[u32; 4], last: u32) -> (changed: [u32; 4])
    ensures
        changed@ == vector@.update(3, last),
{
    let changed: [u32; 4] = [vector[0], vector[1], vector[2], last];
    proof {
        assert(changed@ =~= vector@.update(3, last));
    }
    changed
}

/// The positions of a list of splats.
fn positions_of(gpu: &[SplatGpu]) -> (positions: Vec<[u32; 3]>)
    ensures
        positions@.len() == gpu@.len(),
        forall|i: int|
            0 <= i < gpu@.len() ==> (#[trigger] positions@[i])@ == gpu@[i].pos_opacity@.take(3),
{
    let mut positions: Vec<[u32; 3]> = Vec::with_capacity(gpu.len());
    let mut i: usize = 0;
    while i < gpu.len()
        invariant
            i <= gpu@.len(),
            positions@.len() == i,
            forall|a: int|
                0 <= a < i ==> (#[trigger] positions@[a])@ == gpu@[a].pos_opacity@.take(3),
        decreases gpu@.len() - i,
    {
        let p = gpu[i].pos_opacity;
        let position: [u32; 3] = [p[0], p[1], p[2]];
        proof {
            assert(position@ =~= gpu@[i as int].pos_opacity@.take(3));
        }
        positions.push(position);
        i = i + 1;
    }
    positions
}

/// A prefix is the best subset of its size: no splat that a render cap leaves out is more
/// important than one that it keeps.
pub proof fn prefix_is_most_important(importance: Seq<u32>, order: Seq<u32>, cap: int, kept: int, left: int)
    requires
        is_stable_descending(ranks(importance), order),
        0 <= kept < cap <= left < order.len(),
        !ieee::is_nan(importance[order[kept] as int]),
        !ieee::is_nan(importance[order[left] as int]),
    ensures
        ieee::value(importance[order[kept] as int]) >= ieee::value(importance[order[left] as int]),
{
    ieee::rank_orders_values(importance[order[kept] as int], importance[order[left] as int]);
    assert(comes_before(ranks(importance), order[kept], order[left]));
}

/// Ordering by importance loses no splat and repeats none.
pub proof fn importance_order_keeps_splats(
    scene: SplatScene,
    gpu: Seq<SplatGpu>,
    importance: Seq<u32>,
    sh: Seq<u32>,
    sh_degree: u32,
    order: Seq<u32>,
)
    requires
        importance.len() == gpu.len(),
        is_stable_descending(ranks(importance), order),
        is_importance_ordered(scene, gpu, sh, sh_degree, order),
    ensures
        is_permutation(order, gpu.len()),
        scene.gpu@.to_multiset() == gpu.to_multiset(),
{
    stable_descending_is_permutation(ranks(importance), order);
    gathering_keeps_contents(gpu, order);
}

/// Coefficients stay with their splat: the run of the splat at place `i` is the run that the
/// same splat had in the file.
pub proof fn coefficients_follow_splats(
    scene: SplatScene,
    gpu: Seq<SplatGpu>,
    sh: Seq<u32>,
    sh_degree: u32,
    order: Seq<u32>,
    i: int,
    c: int,
)
    requires
        is_importance_ordered(scene, gpu, sh, sh_degree, order),
        sh_degree > 0,
        0 <= i < order.len(),
        0 <= c < SH_COEFFICIENTS,
    ensures
        scene.gpu@[i] == gpu[order[i] as int],
        scene.sh@[i * SH_COEFFICIENTS + c] == sh[order[i] * SH_COEFFICIENTS + c],
{
    let j = i * SH_COEFFICIENTS + c;
    assert(j / SH_COEFFICIENTS as int == i);
    assert(j % SH_COEFFICIENTS as int == c);
}

/// Whether a list is in ascending order of its numbers.
pub open spec fn is_ascending(values: Seq<u32>) -> bool {
    forall|i: int, j: int|
        0 <= i <= j < values.len() ==> ieee::rank(#[trigger] values[i]) <= ieee::rank(
            #[trigger] values[j],
        )
}

/// Whether `low` and `high` are what stands at place `k` from either end of `axis` once the
/// axis is sorted.
pub open spec fn are_trimmed_ends(axis: Seq<u32>, k: int, low: u32, high: u32) -> bool {
    exists|sorted: Seq<u32>|
        #![trigger is_ascending(sorted)]
        is_ascending(sorted) && sorted.to_multiset() == axis.to_multiset() && sorted[k] == low
            && sorted[axis.len() - 1 - k] == high
}

/// The component of every position along one axis.
pub open spec fn along(positions: Seq<[u32; 3]>, axis: int) -> Seq<u32> {
    Seq::new(positions.len(), |i: int| positions[i]@[axis])
}

/// The ends of one axis without its outer fiftieth on either side.
fn trimmed_ends(positions: &[[u32; 3]], axis: usize) -> (ends: (u32, u32))
    requires
        0 < positions@.len() <= u32::MAX,
        axis < 3,
    ensures
        are_trimmed_ends(
            along(positions@, axis as int),
            positions@.len() as int / 50,
            ends.0,
            ends.1,
        ),
{
    let n: usize = positions.len();
    let mut values: Vec<u32> = Vec::with_capacity(n);
    let mut i: usize = 0;
    while i < n
        invariant
            i <= n,
            n == positions@.len(),
            axis < 3,
            values@.len() == i,
            forall|a: int| 0 <= a < i ==> #[trigger] values@[a] == positions@[a]@[axis as int],
        decreases n - i,
    {
        let position = positions[i];
        values.push(position[axis]);
        i = i + 1;
    }
    let keys = order_keys(values.as_slice(), n);
    let order = stable_descending_order(keys.as_slice());
    let k: usize = n / 50;
    proof {
        let line = along(positions@, axis as int);
        assert(values@ =~= line);
        assert(as_ints(keys@) =~= ranks(line));
        stable_descending_is_permutation(ranks(line), order@);
        gathering_keeps_contents(line, order@);
        let descending = gathered(line, order@);
        let sorted = descending.reverse();
        descending.lemma_reverse_to_multiset();
        assert forall|i: int, j: int| 0 <= i <= j < sorted.len() implies ieee::rank(
            #[trigger] sorted[i],
        ) <= ieee::rank(#[trigger] sorted[j]) by {
            if i < j {
                assert(comes_before(ranks(line), order@[n - 1 - j], order@[n - 1 - i]));
            }
        }
        assert(is_ascending(sorted));
        assert(sorted[k as int] == line[order@[n - 1 - k] as int]);
        assert(sorted[n - 1 - k] == line[order@[k as int] as int]);
    }
    (values[order[n - 1 - k] as usize], values[order[k] as usize])
}

/// Corners of the box that holds a scene without the outlier haze that most reconstructions
/// carry: each axis is clipped to its 2nd to 98th percentile. None for an empty scene.
pub fn robust_bounds(positions: &[[u32; 3]]) -> (bounds: Option<([u32; 3], [u32; 3])>)
    requires
        positions@.len() <= u32::MAX,
    ensures
        bounds is None <==> positions@.len() == 0,
        bounds matches Some((low, high)) ==> forall|axis: int|
            0 <= axis < 3 ==> are_trimmed_ends(
                #[trigger] along(positions@, axis),
                positions@.len() as int / 50,
                low@[axis],
                high@[axis],
            ),
{
    if positions.len() == 0 {
        return None;
    }
    let x = trimmed_ends(positions, 0);
    let y = trimmed_ends(positions, 1);
    let z = trimmed_ends(positions, 2);
    let low: [u32; 3] = [x.0, y.0, z.0];
    let high: [u32; 3] = [x.1, y.1, z.1];
    Some((low, high))
}

/// The order `0, 1, 2, ..` that is drawn until the first sorted order arrives.
pub fn identity_order(total: u32) -> (order: Vec<u32>)
    ensures
        order@ == Seq::new(total as nat, |i: int| i as u32),
{
    let mut order: Vec<u32> = Vec::new();
    let mut i: u32 = 0;
    while i < total
        invariant
            i <= total,
            order@ == Seq::new(i as nat, |a: int| a as u32),
        decreases total - i,
    {
        order.push(i);
        i = i + 1;
        proof {
            assert(order@ =~= Seq::new(i as nat, |a: int| a as u32));
        }
    }
    order
}

/// Turning a normal leaves everything else of the splat alone: its position and opacity, its
/// covariance and its colour.
pub proof fn turning_keeps_all_but_the_normal(
    before: SplatGpu,
    facing: u32,
    after: SplatGpu,
    word: int,
)
    requires
        oriented(before, facing, after),
        0 <= word < 3,
    ensures
        after.pos_opacity@ == before.pos_opacity@,
        after.cov_a@[word] == before.cov_a@[word],
        after.cov_b@[word] == before.cov_b@[word],
        after.color@[word] == before.color@[word],
{
}

/// A normal that faces the centre is turned to the opposite direction as a whole; any other one
/// stays.
pub proof fn normals_turn_as_a_whole(before: SplatGpu, facing: u32, after: SplatGpu)
    requires
        oriented(before, facing, after),
    ensures
        !ieee::is_nan(facing) && ieee::value(facing) < 0 ==> {
            &&& ieee::value(after.cov_a@[3]) == -ieee::value(before.cov_a@[3])
            &&& ieee::value(after.cov_b@[3]) == -ieee::value(before.cov_b@[3])
            &&& ieee::value(after.color@[3]) == -ieee::value(before.color@[3])
        },
        ieee::is_nan(facing) || ieee::value(facing) >= 0 ==> after == before,
{
    ieee::negating_undoes_itself(before.cov_a@[3]);
    ieee::negating_undoes_itself(before.cov_b@[3]);
    ieee::negating_undoes_itself(before.color@[3]);
}

/// Turning a normal twice brings the splat back.
pub proof fn turning_twice_restores(
    before: SplatGpu,
    facing: u32,
    middle: SplatGpu,
    after: SplatGpu,
    word: int,
)
    requires
        oriented(before, facing, middle),
        oriented(middle, facing, after),
        0 <= word < 4,
    ensures
        after.pos_opacity@[word] == before.pos_opacity@[word],
        after.cov_a@[word] == before.cov_a@[word],
        after.cov_b@[word] == before.cov_b@[word],
        after.color@[word] == before.color@[word],
{
    ieee::negating_undoes_itself(before.cov_a@[3]);
    ieee::negating_undoes_itself(before.cov_b@[3]);
    ieee::negating_undoes_itself(before.color@[3]);
}

/// Of axes that are equally thin the first one counts; where the comparison meets what is no
/// number, a later axis does.
pub proof fn thinnest_axis_is_the_first(scale: Seq<u32>, axis: int)
    requires
        scale.len() == 3,
    ensures
        (forall|a: int| 0 <= a < 3 ==> !ieee::is_nan(#[trigger] scale[a])) && 0 <= axis < thinnest(
            scale,
        ) ==> ieee::value(scale[axis]) > ieee::value(scale[thinnest(scale)]),
        ieee::is_nan(scale[1]) || ieee::is_nan(scale[2]) ==> thinnest(scale) == 2,
        ieee::is_nan(scale[0]) ==> thinnest(scale) != 0,
        ieee::is_nan(scale[0]) && !ieee::is_nan(scale[1]) && !ieee::is_nan(scale[2]) ==> (thinnest(
            scale,
        ) == 1 <==> ieee::value(scale[1]) <= ieee::value(scale[2])),
{
}

/// Every place of a scene holds one splat of the file in full: what is drawn, where it is, and
/// nothing of the coefficients where the file had none.
pub proof fn scenes_hold_whole_splats(
    scene: SplatScene,
    gpu: Seq<SplatGpu>,
    sh: Seq<u32>,
    sh_degree: u32,
    order: Seq<u32>,
    i: int,
    c: int,
)
    requires
        is_importance_ordered(scene, gpu, sh, sh_degree, order),
        0 <= i < order.len(),
        0 <= c < 3,
    ensures
        scene.gpu@.len() == order.len(),
        scene.positions@.len() == order.len(),
        scene.gpu@[i] == gpu[order[i] as int],
        scene.positions@[i]@[c] == gpu[order[i] as int].pos_opacity@[c],
        scene.sh_degree == sh_degree,
        sh_degree > 0 ==> scene.sh@.len() == order.len() * SH_COEFFICIENTS,
        sh_degree == 0 ==> scene.sh@.len() == 0,
{
    assert(scene.positions@[i]@ == scene.gpu@[i].pos_opacity@.take(3));
}

/// The words of a splat are its four vectors one after the other.
pub proof fn words_hold_the_vectors(splat: SplatGpu, c: int)
    requires
        0 <= c < 4,
    ensures
        splat.words().len() == 16,
        splat.words()[c] == splat.pos_opacity@[c],
        splat.words()[4 + c] == splat.cov_a@[c],
        splat.words()[8 + c] == splat.cov_b@[c],
        splat.words()[12 + c] == splat.color@[c],
{
}

/// How many of the listed patterns have a property.
pub open spec fn how_many(values: Seq<u32>, property: spec_fn(u32) -> bool) -> int {
    values.fold_left(
        0,
        |n: int, v: u32|
            if property(v) {
                n + 1
            } else {
                n
            },
    )
}

proof fn lemma_how_many_step(values: Seq<u32>, property: spec_fn(u32) -> bool, m: int)
    requires
        0 <= m < values.len(),
    ensures
        how_many(values.take(0), property) == 0,
        how_many(values.take(m + 1), property) == how_many(values.take(m), property) + if property(
            values[m],
        ) {
            1int
        } else {
            0
        },
{
    let longer = values.take(m + 1);
    assert(longer.drop_last() =~= values.take(m));
    assert(longer.last() == values[m]);
}

proof fn lemma_how_many_reordered(
    values: Seq<u32>,
    reordered: Seq<u32>,
    property: spec_fn(u32) -> bool,
)
    requires
        values.to_multiset() == reordered.to_multiset(),
    ensures
        how_many(values, property) == how_many(reordered, property),
{
    let f = |n: int, v: u32|
        if property(v) {
            n + 1
        } else {
            n
        };
    assert forall|a: u32, b: u32, n: int| #[trigger] f(f(n, a), b) == f(f(n, b), a) by {}
    vstd::seq_lib::lemma_fold_left_permutation(values, reordered, f, 0);
}

/// Of the first `m` values no more have a property than lie in a range outside which none has it,
/// and no fewer than lie in a range inside which all have it.
proof fn lemma_how_many_counts(
    values: Seq<u32>,
    property: spec_fn(u32) -> bool,
    from: int,
    to: int,
    m: int,
)
    requires
        0 <= from <= to <= values.len(),
        0 <= m <= values.len(),
    ensures
        ({
            let reached: int = if m <= from {
                0
            } else if m <= to {
                m - from
            } else {
                to - from
            };
            &&& (forall|i: int| 0 <= i < values.len() && !(from <= i < to) ==> !property(
                #[trigger] values[i],
            )) ==> how_many(values.take(m), property) <= reached
            &&& (forall|i: int| from <= i < to ==> property(#[trigger] values[i])) ==> how_many(
                values.take(m),
                property,
            ) >= reached
        }),
    decreases m,
{
    if m > 0 {
        lemma_how_many_counts(values, property, from, to, m - 1);
        lemma_how_many_step(values, property, m - 1);
    } else {
        assert(values.take(0) =~= Seq::<u32>::empty());
        assert(how_many(values.take(0), property) == 0);
    }
}

/// Trimming an axis leaves out no more than it is to: at most `k` values lie below the lower end
/// and at most `k` above the upper one, and with the ends themselves it would be more.
#[verifier::rlimit(40)]
pub proof fn trimmed_ends_leave_out_the_outer_values(axis: Seq<u32>, k: int, low: u32, high: u32)
    requires
        are_trimmed_ends(axis, k, low, high),
        0 <= k < axis.len(),
    ensures
        how_many(axis, |v: u32| ieee::rank(v) < ieee::rank(low)) <= k,
        how_many(axis, |v: u32| ieee::rank(v) <= ieee::rank(low)) > k,
        how_many(axis, |v: u32| ieee::rank(v) > ieee::rank(high)) <= k,
        how_many(axis, |v: u32| ieee::rank(v) >= ieee::rank(high)) > k,
        axis.contains(low),
        axis.contains(high),
{
    let sorted = choose|sorted: Seq<u32>|
        #![trigger is_ascending(sorted)]
        is_ascending(sorted) && sorted.to_multiset() == axis.to_multiset() && sorted[k] == low
            && sorted[axis.len() - 1 - k] == high;
    let n = axis.len() as int;
    axis.to_multiset_ensures();
    sorted.to_multiset_ensures();
    assert(sorted.len() == n);
    assert(sorted.take(n) =~= sorted);
    assert(sorted.contains(sorted[k]) && sorted.contains(sorted[n - 1 - k]));
    assert(axis.to_multiset().count(low) > 0);
    assert(axis.to_multiset().count(high) > 0);
    let below = |v: u32| ieee::rank(v) < ieee::rank(low);
    let to_low = |v: u32| ieee::rank(v) <= ieee::rank(low);
    let above = |v: u32| ieee::rank(v) > ieee::rank(high);
    let from_high = |v: u32| ieee::rank(v) >= ieee::rank(high);
    lemma_how_many_reordered(axis, sorted, below);
    lemma_how_many_reordered(axis, sorted, to_low);
    lemma_how_many_reordered(axis, sorted, above);
    lemma_how_many_reordered(axis, sorted, from_high);
    lemma_how_many_counts(sorted, below, 0, k, n);
    lemma_how_many_counts(sorted, to_low, 0, k + 1, n);
    lemma_how_many_counts(sorted, above, n - k, n, n);
    lemma_how_many_counts(sorted, from_high, n - 1 - k, n, n);
}

/// Along an axis every position gives its component of that axis.
pub proof fn axes_hold_their_components(positions: Seq<[u32; 3]>, axis: int, i: int)
    requires
        0 <= i < positions.len(),
    ensures
        along(positions, axis).len() == positions.len(),
        along(positions, axis)[i] == positions[i]@[axis],
{
}

/// Splats of the same importance stay in the order of the file.
pub proof fn equal_splats_keep_their_order(importance: Seq<u32>, order: Seq<u32>, i: int, j: int)
    requires
        is_stable_descending(ranks(importance), order),
        0 <= i < j < order.len(),
        importance[order[i] as int] == importance[order[j] as int],
    ensures
        order[i] < order[j],
{
    assert(comes_before(ranks(importance), order[i], order[j]));
}

} // verus!
