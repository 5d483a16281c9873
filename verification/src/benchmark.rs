//! The benchmark: which views are rendered, in which modes, and which pixels are compared.
use crate::frame::RenderMode;
use crate::ieee;
use vstd::arithmetic::power2::{lemma_pow2_adds, lemma_pow2_pos, pow2};
use vstd::prelude::*;

verus! {

/// Bit pattern of 1/255: a pixel with a larger alpha belongs to the foreground.
pub const FOREGROUND_ALPHA: u32 = 0x3b80_8081;

/// What the command line asks for.
#[derive(Clone, Copy, PartialEq, Eq, Structural, Debug)]
pub struct BenchmarkConfig {
    pub views: usize,
    pub seed: u64,
}

impl BenchmarkConfig {
    /// The number of views that are rendered: at least one.
    pub fn view_count(&self) -> (views: usize)
        ensures
            views >= 1,
            views >= self.views,
            self.views > 0 ==> views == self.views,
            views == if self.views == 0 {
                1
            } else {
                self.views
            },
    {
        if self.views == 0 {
            1
        } else {
            self.views
        }
    }
}

/// The modes that are compared with the sorted reference.
pub fn benchmark_modes() -> (modes: Vec<RenderMode>)
    ensures
        modes@ == seq![RenderMode::DepthSlicedOit],
{
    vec![RenderMode::DepthSlicedOit]
}

/// One step of a view of the benchmark.
#[derive(Clone, Copy, PartialEq, Eq, Structural, Debug)]
pub enum BenchmarkStep {
    /// Pick a pose of the camera and upload the exact back-to-front order for it.
    Pose,
    /// Render the reference with sorted blending.
    Reference,
    /// Render in a mode and throw the image away.
    Prime(RenderMode),
    /// Render in a mode and compare the image with the reference.
    Score(RenderMode),
}

/// The steps that score a list of modes. A mode that reads the frame before is rendered twice,
/// so that the scored image follows one of the same pose.
pub open spec fn scoring_steps(modes: Seq<RenderMode>) -> Seq<BenchmarkStep>
    decreases modes.len(),
{
    if modes.len() == 0 {
        seq![]
    } else {
        scoring_steps(modes.drop_last()) + if modes.last().reads_previous_frame() {
            seq![BenchmarkStep::Prime(modes.last()), BenchmarkStep::Score(modes.last())]
        } else {
            seq![BenchmarkStep::Score(modes.last())]
        }
    }
}

/// The steps of one view.
pub fn view_steps(modes: &[RenderMode]) -> (steps: Vec<BenchmarkStep>)
    ensures
        steps@ == steps_of_view(modes@),
{
    let mut steps: Vec<BenchmarkStep> = Vec::new();
    steps.push(BenchmarkStep::Pose);
    steps.push(BenchmarkStep::Reference);
    let ghost front = seq![BenchmarkStep::Pose, BenchmarkStep::Reference];
    let mut i: usize = 0;
    proof {
        assert(steps@ =~= front + scoring_steps(modes@.take(0)));
    }
    while i < modes.len()
        invariant
            i <= modes@.len(),
            steps@ == front + scoring_steps(modes@.take(i as int)),
        decreases modes@.len() - i,
    {
        let mode = modes[i];
        if mode.needs_priming() {
            steps.push(BenchmarkStep::Prime(mode));
        }
        steps.push(BenchmarkStep::Score(mode));
        proof {
            let longer = modes@.take(i + 1);
            assert(longer.drop_last() =~= modes@.take(i as int));
            assert(steps@ =~= front + scoring_steps(longer));
        }
        i = i + 1;
    }
    proof {
        assert(modes@.take(i as int) =~= modes@);
    }
    steps
}

/// The steps of one view.
pub open spec fn steps_of_view(modes: Seq<RenderMode>) -> Seq<BenchmarkStep> {
    seq![BenchmarkStep::Pose, BenchmarkStep::Reference] + scoring_steps(modes)
}

/// The whole benchmark: the steps of a view for each of `views` views, each step with the number
/// of its view.
pub open spec fn schedule(views: nat, steps: Seq<BenchmarkStep>) -> Seq<(int, BenchmarkStep)> {
    Seq::new(
        views * steps.len(),
        |i: int| (i / steps.len() as int, steps[i % steps.len() as int]),
    )
}

/// A benchmark that is under way.
pub struct BenchmarkRun {
    pub views: usize,
    /// The steps of each view.
    pub steps: Vec<BenchmarkStep>,
    /// The view and the step that come next.
    pub view: usize,
    pub step: usize,
}

impl BenchmarkRun {
    /// A run stands before a step of a view, or behind the last view.
    pub open spec fn well_formed(self) -> bool {
        &&& self.view <= self.views
        &&& self.step < self.steps@.len()
        &&& self.view == self.views ==> self.step == 0
    }

    /// The steps of all views.
    pub open spec fn all_steps(self) -> Seq<(int, BenchmarkStep)> {
        schedule(self.views as nat, self.steps@)
    }

    /// How many steps of all views are done.
    pub open spec fn done(self) -> int {
        self.view * self.steps@.len() + self.step
    }

    /// A run at its start: at least one view, each with the steps of the given modes.
    pub fn new(config: &BenchmarkConfig, modes: &[RenderMode]) -> (run: Self)
        ensures
            run.well_formed(),
            run.steps@ == steps_of_view(modes@),
            run.views == if config.views == 0 {
                1
            } else {
                config.views
            },
            run.done() == 0,
            run.view == 0,
            run.step == 0,
            run.steps@.len() >= 2 + modes@.len(),
            run.steps@[0] == BenchmarkStep::Pose,
            run.steps@[1] == BenchmarkStep::Reference,
    {
        proof {
            every_mode_has_a_step(modes@);
        }
        let steps = view_steps(modes);
        proof {
            assert(0 * steps@.len() == 0);
        }
        BenchmarkRun { views: config.view_count(), steps, view: 0, step: 0 }
    }

    /// The next step, with the number of its view; none once all views are done.
    pub fn advance(&mut self) -> (next: Option<(usize, BenchmarkStep)>)
        requires
            old(self).well_formed(),
        ensures
            final(self).well_formed(),
            final(self).views == old(self).views,
            final(self).steps == old(self).steps,
            old(self).done() <= old(self).all_steps().len(),
            if old(self).done() < old(self).all_steps().len() {
                &&& next matches Some((view, step)) && (view as int, step)
                    == old(self).all_steps()[old(self).done()]
                &&& final(self).done() == old(self).done() + 1
            } else {
                next is None && *final(self) == *old(self)
            },
            next is None <==> old(self).view == old(self).views,
            next matches Some((view, step)) ==> {
                &&& view == old(self).view
                &&& step == old(self).steps@[old(self).step as int]
                &&& old(self).step + 1 < old(self).steps@.len() ==> final(self).view
                    == old(self).view && final(self).step == old(self).step + 1
                &&& old(self).step + 1 == old(self).steps@.len() ==> final(self).view
                    == old(self).view + 1 && final(self).step == 0
            },
    {
        proof {
            lemma_next_step(
                self.view as int,
                self.step as int,
                self.views as int,
                self.steps@.len() as int,
            );
        }
        if self.view == self.views {
            return None;
        }
        let next = (self.view, self.steps[self.step]);
        if self.step < self.steps.len() - 1 {
            self.step = self.step + 1;
        } else {
            self.step = 0;
            self.view = self.view + 1;
        }
        Some(next)
    }

    /// Whether the step that was given last was the last of its view: all steps so far make whole
    /// views.
    pub fn view_is_done(&self) -> (done: bool)
        requires
            self.well_formed(),
        ensures
            done <==> self.done() % (self.steps@.len() as int) == 0,
            done <==> self.step == 0,
    {
        proof {
            lemma_next_step(
                self.view as int,
                self.step as int,
                self.views as int,
                self.steps@.len() as int,
            );
        }
        self.step == 0
    }
}

/// Where a step of a view lies in the schedule.
proof fn lemma_next_step(view: int, step: int, views: int, length: int)
    requires
        0 <= view <= views,
        0 <= step < length,
        view == views ==> step == 0,
    ensures
        view == views ==> view * length + step == views * length,
        view < views ==> 0 <= view * length + step < views * length,
        (view * length + step) / length == view,
        (view * length + step) % length == step,
        (view + 1) * length == view * length + length,
{
    vstd::arithmetic::div_mod::lemma_fundamental_div_mod_converse(
        view * length + step,
        length,
        view,
        step,
    );
    assert((view + 1) * length == view * length + length) by (nonlinear_arith);
    assert(0 <= view * length) by (nonlinear_arith)
        requires
            0 <= view,
            0 < length,
    ;
    if view < views {
        assert((view + 1) * length <= views * length) by (nonlinear_arith)
            requires
                view + 1 <= views,
                0 < length,
        ;
    }
}

/// A view has one pose and one reference: scoring adds no other.
pub proof fn views_have_one_pose(modes: Seq<RenderMode>, i: int)
    requires
        0 <= i < scoring_steps(modes).len(),
    ensures
        !(scoring_steps(modes)[i] is Pose),
        !(scoring_steps(modes)[i] is Reference),
    decreases modes.len(),
{
    if modes.len() > 0 {
        let front = scoring_steps(modes.drop_last());
        if i < front.len() {
            views_have_one_pose(modes.drop_last(), i);
            assert(scoring_steps(modes)[i] == front[i]);
        }
    }
}

/// A mode that reads the frame before is scored on a frame that follows one of the same
/// mode.
pub proof fn scored_modes_are_primed(modes: Seq<RenderMode>, i: int)
    requires
        0 <= i < scoring_steps(modes).len(),
        scoring_steps(modes)[i] matches BenchmarkStep::Score(mode) && mode.reads_previous_frame(),
    ensures
        i > 0,
        scoring_steps(modes)[i - 1] == BenchmarkStep::Prime(scoring_steps(modes)[i]->Score_0),
    decreases modes.len(),
{
    if modes.len() > 0 {
        let front = scoring_steps(modes.drop_last());
        if i < front.len() {
            assert(scoring_steps(modes)[i] == front[i]);
            scored_modes_are_primed(modes.drop_last(), i);
            assert(scoring_steps(modes)[i - 1] == front[i - 1]);
        }
    }
}

/// The generator of the poses.
#[derive(Clone, Copy, PartialEq, Eq, Structural, Debug)]
pub struct SplitMix64 {
    pub state: u64,
}

/// What the state becomes with each number.
pub open spec fn next_state(state: u64) -> u64 {
    state.wrapping_add(0x9e37_79b9_7f4a_7c15)
}

/// The bits that a state is scrambled to.
pub open spec fn scrambled(state: u64) -> u64 {
    let a = (state ^ (state >> 30u64)).wrapping_mul(0xbf58_476d_1ce4_e5b9);
    let b = (a ^ (a >> 27u64)).wrapping_mul(0x94d0_49bb_1331_11eb);
    b ^ (b >> 31u64)
}

/// The upper 24 bits of the scrambled state.
pub open spec fn draw(state: u64) -> u64 {
    scrambled(state) >> 40u64
}

impl SplitMix64 {
    /// The next number, evenly spread over the multiples of 2^-24 from 0 up to, not
    /// including, 1.
    pub fn unit_f32(&mut self) -> (bits: u32)
        ensures
            final(self).state == next_state(old(self).state),
            !ieee::is_nan(bits),
            !ieee::is_negative(bits),
            ieee::value(bits) == draw(next_state(old(self).state)) * pow2(125),
    {
        self.state = self.state.wrapping_add(0x9e37_79b9_7f4a_7c15);
        let mut value: u64 = self.state;
        value = (value ^ (value >> 30u64)).wrapping_mul(0xbf58_476d_1ce4_e5b9);
        value = (value ^ (value >> 27u64)).wrapping_mul(0x94d0_49bb_1331_11eb);
        value = value ^ (value >> 31u64);
        let top: u64 = value >> 40u64;
        proof {
            lemma_top_bits(value);
        }
        ieee::unit_fraction(top as u32)
    }
}

proof fn lemma_top_bits(value: u64)
    ensures
        value >> 40u64 < 0x100_0000,
{
    assert(value >> 40u64 < 0x100_0000) by (bit_vector);
}

/// Every number drawn lies in `[0, 1)`.
pub proof fn unit_numbers_are_below_one(state: u64, bits: u32)
    requires
        ieee::value(bits) == draw(state) * pow2(125),
    ensures
        0 <= ieee::value(bits) < ieee::value(ieee::ONE),
{
    lemma_top_bits(scrambled(state));
    lemma_pow2_pos(125);
    lemma_pow2_adds(125, 1);
    vstd::arithmetic::power2::lemma2_to64();
    assert(ieee::value(ieee::ONE) == 0x80_0000 * pow2(126)) by {
        assert(ieee::magnitude(ieee::ONE) / 0x80_0000 == 127);
        assert(ieee::magnitude(ieee::ONE) % 0x80_0000 == 0);
    }
    let v = draw(state) as int;
    let p = pow2(125) as int;
    assert(pow2(125) * pow2(1) == 2 * p) by (nonlinear_arith)
        requires
            pow2(1) == 2,
            p == pow2(125),
    ;
    assert(0 <= v * p < 0x100_0000 * p) by (nonlinear_arith)
        requires
            0 <= v < 0x100_0000,
            p > 0,
    ;
}

/// Whether an alpha is that of a foreground pixel.
pub open spec fn is_opaque_enough(alpha: u32) -> bool {
    !ieee::is_nan(alpha) && ieee::value(alpha) > ieee::value(FOREGROUND_ALPHA)
}

/// Whether pixel `i` belongs to the foreground of either image.
pub open spec fn is_foreground(reference: Seq<u32>, candidate: Seq<u32>, i: int) -> bool {
    0 <= i < reference.len() && (is_opaque_enough(reference[i]) || is_opaque_enough(candidate[i]))
}

/// The pixels of the foreground: the union of those of the reference and of the candidate.
/// The images are given by the alpha of each pixel.
pub fn foreground_pixels(reference: &[u32], candidate: &[u32]) -> (pixels: Vec<usize>)
    requires
        reference@.len() == candidate@.len(),
    ensures
        forall|a: int, b: int| 0 <= a < b < pixels@.len() ==> pixels@[a] < pixels@[b],
        forall|i: usize| #[trigger]
            pixels@.contains(i) <==> is_foreground(reference@, candidate@, i as int),
        forall|i: usize|
            i < reference@.len() && !ieee::is_nan(reference@[i as int]) && ieee::value(
                reference@[i as int],
            ) > ieee::value(FOREGROUND_ALPHA) ==> #[trigger] pixels@.contains(i),
        forall|i: usize|
            i < reference@.len() && !ieee::is_nan(candidate@[i as int]) && ieee::value(
                candidate@[i as int],
            ) > ieee::value(FOREGROUND_ALPHA) ==> #[trigger] pixels@.contains(i),
{
    let mut pixels: Vec<usize> = Vec::new();
    let mut i: usize = 0;
    while i < reference.len()
        invariant
            i <= reference@.len(),
            reference@.len() == candidate@.len(),
            forall|a: int| 0 <= a < pixels@.len() ==> (#[trigger] pixels@[a]) < i,
            forall|a: int, b: int| 0 <= a < b < pixels@.len() ==> pixels@[a] < pixels@[b],
            forall|a: usize| #[trigger]
                pixels@.contains(a) <==> a < i && is_foreground(
                    reference@,
                    candidate@,
                    a as int,
                ),
        decreases reference@.len() - i,
    {
        let ghost before = pixels@;
        if ieee::less(FOREGROUND_ALPHA, reference[i]) || ieee::less(
            FOREGROUND_ALPHA,
            candidate[i],
        ) {
            pixels.push(i);
            proof {
                assert forall|a: usize| #[trigger] pixels@.contains(a) <==> a < i + 1
                    && is_foreground(reference@, candidate@, a as int) by {
                    if a == i {
                        assert(pixels@[before.len() as int] == i);
                    } else if before.contains(a) {
                        let p = choose|p: int| 0 <= p < before.len() && before[p] == a;
                        assert(pixels@[p] == a);
                    } else {
                        assert(pixels@.contains(a) ==> before.contains(a));
                    }
                }
            }
        }
        i = i + 1;
    }
    pixels
}

/// Whether `b` is the right or the lower neighbour of pixel `a`.
pub open spec fn is_edge(a: int, b: int, width: int, height: int) -> bool {
    &&& 0 <= a < width * height
    &&& (b == a + 1 && a % width + 1 < width) || (b == a + width && a / width + 1 < height)
}

/// Whether an edge is listed before another: by its first pixel, then by its second.
pub open spec fn edge_before(e: (usize, usize), f: (usize, usize)) -> bool {
    e.0 < f.0 || (e.0 == f.0 && e.1 < f.1)
}

/// The pairs of neighbouring pixels of an image, over which the residual's high frequencies
/// are measured: every pixel with its right and its lower neighbour.
pub fn image_edges(width: usize, height: usize) -> (edges: Vec<(usize, usize)>)
    requires
        width * height <= usize::MAX,
    ensures
        forall|i: int, j: int|
            0 <= i < j < edges@.len() ==> edge_before(#[trigger] edges@[i], #[trigger] edges@[j]),
        forall|i: int, j: int|
            0 <= i < j < edges@.len() ==> (#[trigger] edges@[i]).0 < (#[trigger] edges@[j]).0 || (
            edges@[i].0 == edges@[j].0 && edges@[i].1 < edges@[j].1),
        forall|e: (usize, usize)| #[trigger]
            edges@.contains(e) <==> is_edge(e.0 as int, e.1 as int, width as int, height as int),
        width > 0 && height > 0 ==> edges@.len() == height * (width - 1) + (height - 1) * width,
{
    let mut edges: Vec<(usize, usize)> = Vec::new();
    let total: usize = width * height;
    let ghost w = width as int;
    let ghost h = height as int;
    let mut index: usize = 0;
    let mut x: usize = 0;
    let mut y: usize = 0;
    proof {
        if w > 0 && h > 0 {
            assert(0 <= (h - 1) * w) by (nonlinear_arith)
                requires
                    w > 0,
                    h > 0,
            ;
        }
        assert(w == 0 || h == 0 ==> w * h == 0) by (nonlinear_arith);
    }
    while index < total
        invariant
            total == w * h,
            w == width,
            h == height,
            index <= total,
            index == y * w + x,
            total > 0 ==> w > 0 && h > 0 && x < w,
            forall|i: int| 0 <= i < edges@.len() ==> (#[trigger] edges@[i]).0 < index,
            forall|i: int, j: int|
                0 <= i < j < edges@.len() ==> edge_before(
                    #[trigger] edges@[i],
                    #[trigger] edges@[j],
                ),
            forall|e: (usize, usize)| #[trigger]
                edges@.contains(e) <==> e.0 < index && is_edge(e.0 as int, e.1 as int, w, h),
            w > 0 && h > 0 ==> edges@.len() == y * (w - 1) + x + if index < (h - 1) * w {
                index as int
            } else {
                (h - 1) * w
            },
        decreases total - index,
    {
        let ghost before = edges@;
        proof {
            lemma_pixel(x as int, y as int, w, h);
        }
        if x + 1 < width {
            edges.push((index, index + 1));
        }
        let ghost middle = edges@;
        if y + 1 < height {
            edges.push((index, index + width));
        }
        proof {
            assert forall|e: (usize, usize)| #[trigger] edges@.contains(e) <==> e.0 < index + 1
                && is_edge(e.0 as int, e.1 as int, w, h) by {
                if e.0 < index {
                    if before.contains(e) {
                        let p = choose|p: int| 0 <= p < before.len() && before[p] == e;
                        assert(edges@[p] == e);
                    }
                    if edges@.contains(e) {
                        let p = choose|p: int| 0 <= p < edges@.len() && edges@[p] == e;
                        assert(p < before.len());
                        assert(before[p] == e);
                    }
                } else if e.0 == index {
                    if x + 1 < width {
                        assert(middle[before.len() as int] == (index, (index + 1) as usize));
                        assert(edges@[before.len() as int] == (index, (index + 1) as usize));
                    }
                    if y + 1 < height {
                        assert(edges@[middle.len() as int] == (index, (index + width) as usize));
                    }
                    if edges@.contains(e) {
                        let p = choose|p: int| 0 <= p < edges@.len() && edges@[p] == e;
                        assert(p >= before.len()) by {
                            if p < before.len() {
                                assert(edges@[p] == before[p]);
                            }
                        }
                    }
                } else {
                    if edges@.contains(e) {
                        let p = choose|p: int| 0 <= p < edges@.len() && edges@[p] == e;
                        if p < before.len() {
                            assert(edges@[p] == before[p]);
                        }
                    }
                }
            }
        }
        index = index + 1;
        x = x + 1;
        if x == width {
            proof {
                assert((y + 1) * w == y * w + w && (y + 1) * (w - 1) == y * (w - 1) + (w - 1))
                    by (nonlinear_arith);
                assert((y + 1) <= h) by (nonlinear_arith)
                    requires
                        y * w + w <= w * h,
                        w > 0,
                ;
            }
            x = 0;
            y = y + 1;
        }
    }
    proof {
        if w > 0 && h > 0 {
            assert(y == h && x == 0) by (nonlinear_arith)
                requires
                    y * w + x == w * h,
                    0 <= x < w,
                    w > 0,
                    h > 0,
            ;
            assert((h - 1) * w <= w * h) by (nonlinear_arith)
                requires
                    w > 0,
            ;
        }
    }
    edges
}

proof fn lemma_pixel(x: int, y: int, w: int, h: int)
    requires
        0 <= x < w,
        0 <= y,
        y * w + x < w * h,
    ensures
        (y * w + x) % w == x,
        (y * w + x) / w == y,
        y < h,
        y + 1 < h <==> y * w + x < (h - 1) * w,
        y + 1 < h ==> y * w + x + w < w * h,
{
    vstd::arithmetic::div_mod::lemma_fundamental_div_mod_converse(y * w + x, w, y, x);
    assert(y < h) by (nonlinear_arith)
        requires
            0 <= x < w,
            y * w + x < w * h,
    ;
    if y + 1 < h {
        assert(y * w + w <= (h - 1) * w) by (nonlinear_arith)
            requires
                y + 1 <= h - 1,
                w > 0,
        ;
        assert((h - 1) * w + w == w * h) by (nonlinear_arith);
    } else {
        assert(y * w >= (h - 1) * w) by (nonlinear_arith)
            requires
                y >= h - 1,
                w > 0,
        ;
    }
}

/// There are at least as many scoring steps as modes, and at most twice as many.
pub proof fn every_mode_has_a_step(modes: Seq<RenderMode>)
    ensures
        modes.len() <= scoring_steps(modes).len() <= 2 * modes.len(),
    decreases modes.len(),
{
    if modes.len() > 0 {
        every_mode_has_a_step(modes.drop_last());
    }
}

/// A view starts with its pose and its reference and then scores the modes.
pub proof fn views_start_with_the_reference(modes: Seq<RenderMode>)
    ensures
        steps_of_view(modes).len() == 2 + scoring_steps(modes).len(),
        steps_of_view(modes)[0] == BenchmarkStep::Pose,
        steps_of_view(modes)[1] == BenchmarkStep::Reference,
        steps_of_view(modes).skip(2) == scoring_steps(modes),
{
    assert(steps_of_view(modes).skip(2) =~= scoring_steps(modes));
}

/// One mode is rendered and scored; one that reads the frame before is rendered once more in
/// advance.
pub proof fn a_mode_is_scored_once(mode: RenderMode)
    ensures
        scoring_steps(seq![mode]).last() == BenchmarkStep::Score(mode),
        mode == RenderMode::SpatialBakedHistogramWboit || mode
            == RenderMode::HighQualitySpatialBakedWboit || mode
            == RenderMode::DoubleSampleFrontWboit ==> scoring_steps(seq![mode]).len() == 2
            && scoring_steps(seq![mode])[0] == BenchmarkStep::Prime(mode),
        mode != RenderMode::SpatialBakedHistogramWboit && mode
            != RenderMode::HighQualitySpatialBakedWboit && mode
            != RenderMode::DoubleSampleFrontWboit ==> scoring_steps(seq![mode]).len() == 1,
{
    assert(seq![mode].drop_last() =~= Seq::<RenderMode>::empty());
    assert(scoring_steps(Seq::<RenderMode>::empty()).len() == 0);
}

/// Modes are scored one after the other, each as if it were alone.
pub proof fn modes_are_scored_in_turn(modes: Seq<RenderMode>, later: Seq<RenderMode>)
    ensures
        scoring_steps(modes + later) == scoring_steps(modes) + scoring_steps(later),
    decreases later.len(),
{
    let all = modes + later;
    if later.len() == 0 {
        assert(all =~= modes);
        assert(scoring_steps(modes) + scoring_steps(later) =~= scoring_steps(modes));
    } else {
        modes_are_scored_in_turn(modes, later.drop_last());
        assert(all.drop_last() =~= modes + later.drop_last());
        assert(all.last() == later.last());
        assert(scoring_steps(all) =~= scoring_steps(modes) + scoring_steps(later));
    }
}

/// Every view runs through all its steps in order before the next view starts.
pub proof fn views_run_one_after_the_other(
    views: nat,
    steps: Seq<BenchmarkStep>,
    view: int,
    step: int,
)
    requires
        0 <= view < views,
        0 <= step < steps.len(),
    ensures
        schedule(views, steps).len() == views * steps.len(),
        0 <= view * steps.len() + step < schedule(views, steps).len(),
        schedule(views, steps)[view * steps.len() + step] == (view, steps[step]),
{
    lemma_next_step(view, step, views as int, steps.len() as int);
}

/// A run stands behind the whole views that are done and the steps of the current one.
pub proof fn runs_count_their_steps(run: BenchmarkRun)
    requires
        run.well_formed(),
    ensures
        run.done() >= 0,
        run.done() / (run.steps@.len() as int) == run.view,
        run.done() % (run.steps@.len() as int) == run.step,
        run.done() == run.all_steps().len() <==> run.view == run.views,
{
    lemma_next_step(run.view as int, run.step as int, run.views as int, run.steps@.len() as int);
}

/// The foreground is the union of both images' own: a pixel that is opaque enough in the reference
/// belongs to it whatever the candidate shows, and the other way round; one that is opaque enough
/// in neither does not.
pub proof fn foreground_is_the_union(reference: Seq<u32>, candidate: Seq<u32>, i: int)
    requires
        0 <= i < reference.len(),
        reference.len() == candidate.len(),
    ensures
        !ieee::is_nan(reference[i]) && ieee::value(reference[i]) > ieee::value(FOREGROUND_ALPHA)
            ==> is_foreground(reference, candidate, i),
        !ieee::is_nan(candidate[i]) && ieee::value(candidate[i]) > ieee::value(FOREGROUND_ALPHA)
            ==> is_foreground(reference, candidate, i),
        (ieee::is_nan(reference[i]) || ieee::value(reference[i]) <= ieee::value(FOREGROUND_ALPHA))
            && (ieee::is_nan(candidate[i]) || ieee::value(candidate[i]) <= ieee::value(
            FOREGROUND_ALPHA,
        )) ==> !is_foreground(reference, candidate, i),
{
}

/// An image that becomes more opaque loses no pixel of the foreground.
pub proof fn foreground_grows_with_opacity(
    reference: Seq<u32>,
    candidate: Seq<u32>,
    denser_reference: Seq<u32>,
    denser_candidate: Seq<u32>,
    i: int,
)
    requires
        reference.len() == candidate.len(),
        denser_reference.len() == reference.len(),
        denser_candidate.len() == reference.len(),
        is_foreground(reference, candidate, i),
        !ieee::is_nan(reference[i]),
        !ieee::is_nan(candidate[i]),
        !ieee::is_nan(denser_reference[i]),
        !ieee::is_nan(denser_candidate[i]),
        ieee::value(reference[i]) <= ieee::value(denser_reference[i]),
        ieee::value(candidate[i]) <= ieee::value(denser_candidate[i]),
    ensures
        is_foreground(denser_reference, denser_candidate, i),
{
}

/// Which image is called the reference does not matter to the foreground.
pub proof fn foreground_is_symmetric(reference: Seq<u32>, candidate: Seq<u32>, i: int)
    requires
        reference.len() == candidate.len(),
    ensures
        is_foreground(reference, candidate, i) == is_foreground(candidate, reference, i),
{
}

/// Two pixels make an edge exactly where the second one stands right of the first or below it.
pub proof fn edges_join_neighbours(x: int, y: int, other_x: int, other_y: int, width: int, height: int)
    requires
        0 <= x < width,
        0 <= y < height,
        0 <= other_x < width,
        0 <= other_y < height,
    ensures
        is_edge(y * width + x, other_y * width + other_x, width, height) <==> (other_x == x + 1
            && other_y == y) || (other_x == x && other_y == y + 1),
{
    let a = y * width + x;
    let b = other_y * width + other_x;
    assert(0 <= y * width && y * width + width <= height * width) by (nonlinear_arith)
        requires
            0 <= y,
            y + 1 <= height,
            0 < width,
    ;
    assert(height * width == width * height) by (nonlinear_arith);
    lemma_pixel(x, y, width, height);
    assert((y + 1) * width == y * width + width) by (nonlinear_arith);
    vstd::arithmetic::div_mod::lemma_fundamental_div_mod_converse(b, width, other_y, other_x);
    if b == a + 1 && x + 1 < width {
        vstd::arithmetic::div_mod::lemma_fundamental_div_mod_converse(b, width, y, x + 1);
    }
    if b == a + width && y + 1 < height {
        vstd::arithmetic::div_mod::lemma_fundamental_div_mod_converse(b, width, y + 1, x);
    }
}

/// Both ends of an edge are pixels of the image.
pub proof fn edges_stay_inside(a: int, b: int, width: int, height: int)
    requires
        0 < width,
        is_edge(a, b, width, height),
    ensures
        0 <= a < b < width * height,
{
    let x = a % width;
    let y = a / width;
    vstd::arithmetic::div_mod::lemma_fundamental_div_mod(a, width);
    assert(width * y == y * width) by (nonlinear_arith);
    vstd::arithmetic::div_mod::lemma_div_pos_is_pos(a, width);
    lemma_pixel(x, y, width, height);
    assert(y * width + width <= width * height) by (nonlinear_arith)
        requires
            y + 1 <= height,
            0 < width,
    ;
}

/// Scrambling loses nothing: different states give different bits.
pub proof fn scrambling_loses_nothing(state: u64, other: u64)
    requires
        state != other,
    ensures
        scrambled(state) != scrambled(other),
        next_state(state) != next_state(other),
{
    let a = state ^ (state >> 30u64);
    let b = other ^ (other >> 30u64);
    assert(a != b) by {
        assert(state ^ (state >> 30u64) == other ^ (other >> 30u64) ==> state == other)
            by (bit_vector);
    }
    lemma_odd_factor(a, b, 0xbf58_476d_1ce4_e5b9, 0x96de_1b17_3f11_9089);
    let c = a.wrapping_mul(0xbf58_476d_1ce4_e5b9);
    let d = b.wrapping_mul(0xbf58_476d_1ce4_e5b9);
    let e = c ^ (c >> 27u64);
    let f = d ^ (d >> 27u64);
    assert(e != f) by {
        assert(c ^ (c >> 27u64) == d ^ (d >> 27u64) ==> c == d) by (bit_vector);
    }
    lemma_odd_factor(e, f, 0x94d0_49bb_1331_11eb, 0x3196_42b2_d24d_8ec3);
    let g = e.wrapping_mul(0x94d0_49bb_1331_11eb);
    let h = f.wrapping_mul(0x94d0_49bb_1331_11eb);
    assert(g ^ (g >> 31u64) != h ^ (h >> 31u64)) by {
        assert(g ^ (g >> 31u64) == h ^ (h >> 31u64) ==> g == h) by (bit_vector);
    }
}

/// Products with a factor that has an inverse differ where the other factors do.
proof fn lemma_odd_factor(a: u64, b: u64, factor: u64, inverse: u64)
    requires
        a != b,
        factor * inverse % 0x1_0000_0000_0000_0000 == 1,
    ensures
        a.wrapping_mul(factor) != b.wrapping_mul(factor),
{
    lemma_inverse_factor(a as int, factor as int, inverse as int);
    lemma_inverse_factor(b as int, factor as int, inverse as int);
}

proof fn lemma_inverse_factor(a: int, factor: int, inverse: int)
    requires
        0 <= a < 0x1_0000_0000_0000_0000,
        factor * inverse % 0x1_0000_0000_0000_0000 == 1,
    ensures
        (a * factor % 0x1_0000_0000_0000_0000) * inverse % 0x1_0000_0000_0000_0000 == a,
{
    let m: int = 0x1_0000_0000_0000_0000;
    vstd::arithmetic::div_mod::lemma_mul_mod_noop_left(a * factor, inverse, m);
    assert(a * factor * inverse == a * (factor * inverse)) by (nonlinear_arith);
    vstd::arithmetic::div_mod::lemma_mul_mod_noop_right(a, factor * inverse, m);
    vstd::arithmetic::div_mod::lemma_small_mod(a as nat, m as nat);
}

/// Edges are listed by their first pixel, and the right neighbour before the lower one.
pub proof fn edges_follow_the_pixels(e: (usize, usize), f: (usize, usize))
    ensures
        e.0 < f.0 ==> edge_before(e, f) && !edge_before(f, e),
        e.0 == f.0 && e.1 < f.1 ==> edge_before(e, f) && !edge_before(f, e),
        e == f ==> !edge_before(e, f),
{
}

/// States step by a fixed odd number, round the end of the range.
pub proof fn states_step_evenly(state: u64)
    ensures
        next_state(state) == state + 0x9e37_79b9_7f4a_7c15 || next_state(state) == state
            + 0x9e37_79b9_7f4a_7c15 - 0x1_0000_0000_0000_0000,
{
}

/// A draw is what stands in the upper 24 bits.
pub proof fn draws_are_the_upper_bits(state: u64)
    ensures
        draw(state) < 0x100_0000,
        draw(state) * 0x100_0000_0000 <= scrambled(state),
        scrambled(state) < (draw(state) + 1) * 0x100_0000_0000,
{
    let bits = scrambled(state);
    assert(bits >> 40u64 == bits / 0x100_0000_0000) by (bit_vector);
}

} // verus!
