//! The two render pipelines of the histogram modes: what they are bound to and how what they
//! draw is blended. They read the cumulative histogram from a buffer and keep what is let
//! through in eight bits; the groups and images of `frame` hold a cumulative image and sixteen
//! bits.
use crate::frame::PixelFormat;
use vstd::prelude::*;

verus! {

/// What a binding is.
#[derive(Clone, Copy, PartialEq, Eq, Structural, Debug)]
pub enum BindingKind {
    StorageBuffer { read_only: bool },
    UniformBuffer,
    /// An image that is read without a filter.
    Image,
}

/// The shaders that see a binding.
#[derive(Clone, Copy, PartialEq, Eq, Structural, Debug)]
pub enum Visibility {
    Fragment,
    VertexAndFragment,
}

/// A binding of a layout.
#[derive(Clone, Copy, PartialEq, Eq, Structural, Debug)]
pub struct LayoutEntry {
    pub visibility: Visibility,
    pub kind: BindingKind,
}

/// A layout of bindings.
#[derive(Clone, Copy, PartialEq, Eq, Structural, Debug)]
pub enum GroupLayout {
    Camera,
    Object,
    HistoAccum,
    HistoCompositeImages,
    HistoCompositeBuffers,
}

/// A factor that a colour is multiplied by before it is added.
#[derive(Clone, Copy, PartialEq, Eq, Structural, Debug)]
pub enum BlendFactor {
    Zero,
    One,
    OneMinusSource,
    OneMinusSourceAlpha,
}

/// How a fragment is added to what is drawn already, in every channel.
#[derive(Clone, Copy, PartialEq, Eq, Structural, Debug)]
pub enum Blend {
    /// Adds what is drawn to what is there.
    Additive,
    /// Multiplies what is there by what a fragment lets through.
    Multiplicative,
    /// Draws a colour that holds its alpha already over what is there.
    Premultiplied,
}

impl Blend {
    /// The factors of the fragment and of what it is drawn on.
    pub open spec fn factors(self) -> (BlendFactor, BlendFactor) {
        match self {
            Blend::Additive => (BlendFactor::One, BlendFactor::One),
            Blend::Multiplicative => (BlendFactor::Zero, BlendFactor::OneMinusSource),
            Blend::Premultiplied => (BlendFactor::One, BlendFactor::OneMinusSourceAlpha),
        }
    }

    /// The factors of the fragment and of what it is drawn on.
    pub fn blend_factors(&self) -> (factors: (BlendFactor, BlendFactor))
        ensures
            factors == self.factors(),
    {
        match self {
            Blend::Additive => (BlendFactor::One, BlendFactor::One),
            Blend::Multiplicative => (BlendFactor::Zero, BlendFactor::OneMinusSource),
            Blend::Premultiplied => (BlendFactor::One, BlendFactor::OneMinusSourceAlpha),
        }
    }
}

#[derive(Clone, Copy, PartialEq, Eq, Structural, Debug)]
pub enum TargetFormat {
    /// The format of the surface.
    Surface,
    Rgba16Float,
    R8Unorm,
}

/// An image that a pipeline draws to.
#[derive(Clone, Copy, PartialEq, Eq, Structural, Debug)]
pub struct ColorTarget {
    pub format: TargetFormat,
    pub blend: Blend,
}

/// What is bound in a layout, by binding number.
pub open spec fn binding_kinds(layout: GroupLayout) -> Seq<BindingKind> {
    match layout {
        GroupLayout::Camera | GroupLayout::Object => seq![BindingKind::UniformBuffer],
        GroupLayout::HistoAccum => seq![
            BindingKind::StorageBuffer { read_only: false },
            BindingKind::StorageBuffer { read_only: true },
            BindingKind::UniformBuffer,
        ],
        GroupLayout::HistoCompositeImages => seq![BindingKind::Image, BindingKind::Image],
        GroupLayout::HistoCompositeBuffers => seq![
            BindingKind::StorageBuffer { read_only: false },
            BindingKind::StorageBuffer { read_only: false },
            BindingKind::UniformBuffer,
        ],
    }
}

/// The shaders that see a layout: camera and objects are read by both stages, everything else
/// by the fragment shader.
pub open spec fn seen_by(layout: GroupLayout) -> Visibility {
    if layout == GroupLayout::Camera || layout == GroupLayout::Object {
        Visibility::VertexAndFragment
    } else {
        Visibility::Fragment
    }
}

/// The bindings of a layout, by binding number.
pub open spec fn bindings(layout: GroupLayout) -> Seq<LayoutEntry> {
    Seq::new(
        binding_kinds(layout).len(),
        |i: int| LayoutEntry { visibility: seen_by(layout), kind: binding_kinds(layout)[i] },
    )
}

/// The bindings of a layout, by binding number.
pub fn layout_entries(layout: GroupLayout) -> (entries: Vec<LayoutEntry>)
    ensures
        entries@ == bindings(layout),
{
    let visibility = match layout {
        GroupLayout::Camera | GroupLayout::Object => Visibility::VertexAndFragment,
        _ => Visibility::Fragment,
    };
    let written = LayoutEntry { visibility, kind: BindingKind::StorageBuffer { read_only: false } };
    let read = LayoutEntry { visibility, kind: BindingKind::StorageBuffer { read_only: true } };
    let uniform = LayoutEntry { visibility, kind: BindingKind::UniformBuffer };
    let image = LayoutEntry { visibility, kind: BindingKind::Image };
    let entries = match layout {
        GroupLayout::Camera | GroupLayout::Object => vec![uniform],
        GroupLayout::HistoAccum => vec![written, read, uniform],
        GroupLayout::HistoCompositeImages => vec![image, image],
        GroupLayout::HistoCompositeBuffers => vec![written, written, uniform],
    };
    proof {
        assert(entries@ =~= bindings(layout));
    }
    entries
}

/// Which fragments a depth test lets through, by their depth against the one that is there.
#[derive(Clone, Copy, PartialEq, Eq, Structural, Debug)]
pub enum DepthCompare {
    Less,
    LessEqual,
    Always,
}

/// How a pipeline tests depths.
#[derive(Clone, Copy, PartialEq, Eq, Structural, Debug)]
pub struct DepthState {
    pub format: PixelFormat,
    pub compare: DepthCompare,
    /// Whether fragments that pass leave their depth.
    pub writes: bool,
}

/// How vertices make triangles.
#[derive(Clone, Copy, PartialEq, Eq, Structural, Debug)]
pub enum Topology {
    TriangleList,
    TriangleStrip,
}

/// A render pipeline.
pub struct PipelineSpec {
    /// The layout of each group, by group number.
    pub groups: Vec<GroupLayout>,
    pub targets: Vec<ColorTarget>,
    /// Where the vertex shader starts.
    pub vertex_entry: &'static str,
    /// Where the fragment shader starts.
    pub fragment_entry: &'static str,
    /// Whether vertices are read; otherwise one triangle covers the image.
    pub reads_vertices: bool,
    pub topology: Topology,
    /// Whether triangles that face away are dropped.
    pub culls: bool,
    /// How depths are tested, where they are.
    pub depth: Option<DepthState>,
}

/// The two pipelines of the histogram modes.
pub struct HistogramWboitPipeline {
    pub accum: PipelineSpec,
    pub composite: PipelineSpec,
}

impl HistogramWboitPipeline {
    /// The targets that fragments are accumulated in: their weighted sum, and what they let
    /// through.
    pub open spec fn accum_targets() -> Seq<ColorTarget> {
        seq![
            ColorTarget { format: TargetFormat::Rgba16Float, blend: Blend::Additive },
            ColorTarget { format: TargetFormat::R8Unorm, blend: Blend::Multiplicative },
        ]
    }

    /// Accumulation draws the scene into the accumulated images, in front of what the depth
    /// image holds and without changing it; the composite then draws them over the surface.
    pub fn new() -> (pipeline: Self)
        ensures
            pipeline.accum.groups@ == seq![
                GroupLayout::Camera,
                GroupLayout::Object,
                GroupLayout::HistoAccum,
            ],
            pipeline.accum.targets@ == Self::accum_targets(),
            pipeline.accum.vertex_entry@ == "vs_main"@,
            pipeline.accum.fragment_entry@ == "fs_main"@,
            pipeline.accum.reads_vertices,
            pipeline.accum.topology == Topology::TriangleList,
            !pipeline.accum.culls,
            pipeline.accum.depth == Some(
                DepthState {
                    format: PixelFormat::Depth32Float,
                    compare: DepthCompare::Less,
                    writes: false,
                },
            ),
            pipeline.composite.groups@ == seq![
                GroupLayout::HistoCompositeImages,
                GroupLayout::HistoCompositeBuffers,
            ],
            pipeline.composite.targets@ == seq![
                ColorTarget { format: TargetFormat::Surface, blend: Blend::Premultiplied },
            ],
            pipeline.composite.vertex_entry@ == "vs_main"@,
            pipeline.composite.fragment_entry@ == "fs_main"@,
            !pipeline.composite.reads_vertices,
            pipeline.composite.topology == Topology::TriangleList,
            !pipeline.composite.culls,
            pipeline.composite.depth is None,
    {
        let accum = PipelineSpec {
            groups: vec![GroupLayout::Camera, GroupLayout::Object, GroupLayout::HistoAccum],
            targets: vec![
                ColorTarget { format: TargetFormat::Rgba16Float, blend: Blend::Additive },
                ColorTarget { format: TargetFormat::R8Unorm, blend: Blend::Multiplicative },
            ],
            vertex_entry: "vs_main",
            fragment_entry: "fs_main",
            reads_vertices: true,
            topology: Topology::TriangleList,
            culls: false,
            depth: Some(
                DepthState {
                    format: PixelFormat::Depth32Float,
                    compare: DepthCompare::Less,
                    writes: false,
                },
            ),
        };
        let composite = PipelineSpec {
            groups: vec![GroupLayout::HistoCompositeImages, GroupLayout::HistoCompositeBuffers],
            targets: vec![ColorTarget { format: TargetFormat::Surface, blend: Blend::Premultiplied }],
            vertex_entry: "vs_main",
            fragment_entry: "fs_main",
            reads_vertices: false,
            topology: Topology::TriangleList,
            culls: false,
            depth: None,
        };
        HistogramWboitPipeline { accum, composite }
    }
}

/// One channel of a fragment, and the fragment's alpha.
pub ghost struct Fragment {
    pub value: real,
    pub alpha: real,
}

pub open spec fn factor_value(factor: BlendFactor, fragment: Fragment) -> real {
    match factor {
        BlendFactor::Zero => 0real,
        BlendFactor::One => 1real,
        BlendFactor::OneMinusSource => 1real - fragment.value,
        BlendFactor::OneMinusSourceAlpha => 1real - fragment.alpha,
    }
}

/// A channel of an image after a fragment was drawn on it, without rounding.
pub open spec fn blended(blend: Blend, target: real, fragment: Fragment) -> real {
    let (source, under) = blend.factors();
    fragment.value * factor_value(source, fragment) + target * factor_value(under, fragment)
}

/// A channel of an image after fragments were drawn on it, one after the other.
pub open spec fn drawn(blend: Blend, target: real, fragments: Seq<Fragment>) -> real {
    fragments.fold_left(target, |t: real, f: Fragment| blended(blend, t, f))
}

/// The accumulated images do not depend on the order in which fragments are drawn: two
/// sequences of the same fragments leave the same image.
pub proof fn accumulation_needs_no_order(
    target: ColorTarget,
    before: real,
    fragments: Seq<Fragment>,
    reordered: Seq<Fragment>,
)
    requires
        HistogramWboitPipeline::accum_targets().contains(target),
        fragments.to_multiset() == reordered.to_multiset(),
    ensures
        drawn(target.blend, before, fragments) == drawn(target.blend, before, reordered),
{
    let f = |t: real, f: Fragment| blended(target.blend, t, f);
    assert forall|a: Fragment, b: Fragment, t: real| #[trigger]
        f(f(t, a), b) == f(f(t, b), a) by {
        lemma_blending_commutes(target.blend, t, a, b);
    }
    vstd::seq_lib::lemma_fold_left_permutation(fragments, reordered, f, before);
}

/// What a fragment does in the two ways of accumulating.
proof fn lemma_accumulated(t: real, f: Fragment)
    ensures
        blended(Blend::Additive, t, f) == f.value + t,
        blended(Blend::Multiplicative, t, f) == t * (1real - f.value),
{
    let x = f.value;
    assert(x * 1real + t * 1real == x + t) by (nonlinear_arith);
    assert(x * 0real + t * (1real - x) == t * (1real - x)) by (nonlinear_arith);
}

proof fn lemma_blending_commutes(blend: Blend, t: real, a: Fragment, b: Fragment)
    requires
        blend == Blend::Additive || blend == Blend::Multiplicative,
    ensures
        blended(blend, blended(blend, t, a), b) == blended(blend, blended(blend, t, b), a),
{
    lemma_accumulated(t, a);
    lemma_accumulated(t, b);
    lemma_accumulated(blended(blend, t, a), b);
    lemma_accumulated(blended(blend, t, b), a);
    let x = a.value;
    let y = b.value;
    assert((t * (1real - x)) * (1real - y) == (t * (1real - y)) * (1real - x))
        by (nonlinear_arith);
}

/// What each blend does to a channel: it adds, it keeps what the fragment lets through, or it
/// draws over.
pub proof fn fragments_blend_as_named(t: real, f: Fragment)
    ensures
        blended(Blend::Additive, t, f) == t + f.value,
        blended(Blend::Multiplicative, t, f) == t * (1real - f.value),
        blended(Blend::Premultiplied, t, f) == f.value + t * (1real - f.alpha),
{
    lemma_accumulated(t, f);
    let x = f.value;
    let y = t * (1real - f.alpha);
    assert(x * 1real + y == x + y) by (nonlinear_arith);
}

/// A layout is seen by one set of shaders: by both stages where it places the scene, by the
/// fragment shader alone otherwise.
pub proof fn layouts_are_seen_alike(layout: GroupLayout, i: int)
    requires
        0 <= i < bindings(layout).len(),
    ensures
        bindings(layout)[i].visibility == Visibility::VertexAndFragment <==> layout
            == GroupLayout::Camera || layout == GroupLayout::Object,
        bindings(layout)[i].kind is Image <==> layout == GroupLayout::HistoCompositeImages,
        bindings(layout)[i].kind is UniformBuffer <==> layout != GroupLayout::HistoCompositeImages
            && i == bindings(layout).len() - 1,
        bindings(layout)[i].kind == (BindingKind::StorageBuffer { read_only: true }) <==> layout
            == GroupLayout::HistoAccum && i == 1,
{
}

} // verus!
