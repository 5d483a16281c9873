//! What a frame is made of: the GPU resources, the passes that use them, and the steps of each
//! pass.
use crate::prior::{
    DIRECTIONAL_DEPTH_BINS, HQ_SPATIAL_PRIOR_HEIGHT, HQ_SPATIAL_PRIOR_WIDTH,
};
use crate::surface::{HistogramParams, NUM_DEPTH_BINS};
use vstd::prelude::*;

verus! {

/// How a frame blends its transparent surfaces.
#[derive(Clone, Copy, PartialEq, Eq, Structural, Debug)]
pub enum RenderMode {
    AlphaBlend,
    NaiveWboit,
    HistogramWboit,
    DirectionalHistogramWboit,
    SpatialBakedHistogramWboit,
    HighQualitySpatialBakedWboit,
    DoubleSampleFrontWboit,
    DepthSlicedOit,
}

impl RenderMode {
    /// The number of the key that selects the mode.
    pub open spec fn key(self) -> u32 {
        match self {
            RenderMode::AlphaBlend => 1,
            RenderMode::NaiveWboit => 2,
            RenderMode::HistogramWboit => 3,
            RenderMode::DirectionalHistogramWboit => 4,
            RenderMode::SpatialBakedHistogramWboit => 5,
            RenderMode::HighQualitySpatialBakedWboit => 6,
            RenderMode::DoubleSampleFrontWboit => 7,
            RenderMode::DepthSlicedOit => 8,
        }
    }

    /// The mode's number, as it is printed and as the keyboard selects it.
    pub fn number(&self) -> (n: u32)
        ensures
            n == self.key(),
    {
        match self {
            RenderMode::AlphaBlend => 1,
            RenderMode::NaiveWboit => 2,
            RenderMode::HistogramWboit => 3,
            RenderMode::DirectionalHistogramWboit => 4,
            RenderMode::SpatialBakedHistogramWboit => 5,
            RenderMode::HighQualitySpatialBakedWboit => 6,
            RenderMode::DoubleSampleFrontWboit => 7,
            RenderMode::DepthSlicedOit => 8,
        }
    }

    /// The mode that a number selects.
    pub fn from_number(n: u32) -> (mode: Option<RenderMode>)
        ensures
            mode is Some <==> 1 <= n <= 8,
            mode matches Some(m) ==> m.key() == n,
    {
        match n {
            1 => Some(RenderMode::AlphaBlend),
            2 => Some(RenderMode::NaiveWboit),
            3 => Some(RenderMode::HistogramWboit),
            4 => Some(RenderMode::DirectionalHistogramWboit),
            5 => Some(RenderMode::SpatialBakedHistogramWboit),
            6 => Some(RenderMode::HighQualitySpatialBakedWboit),
            7 => Some(RenderMode::DoubleSampleFrontWboit),
            8 => Some(RenderMode::DepthSlicedOit),
            _ => None,
        }
    }

    /// The mode's name.
    pub open spec fn title(self) -> Seq<char> {
        match self {
            RenderMode::AlphaBlend => "Alpha Blend"@,
            RenderMode::NaiveWboit => "Naive WBOIT"@,
            RenderMode::HistogramWboit => "Histogram-Equalized WBOIT (tiled)"@,
            RenderMode::DirectionalHistogramWboit =>
                "Directional-Prior Histogram WBOIT (64 baked views)"@,
            RenderMode::SpatialBakedHistogramWboit =>
                "Spatial Baked Histogram WBOIT (atomics-free)"@,
            RenderMode::HighQualitySpatialBakedWboit => "HQ Spatial Bake + Realtime Front Feature"@,
            RenderMode::DoubleSampleFrontWboit => "HQ Front Feature + Two-Sample Confidence"@,
            RenderMode::DepthSlicedOit => "Four-Slice Optical-Depth OIT"@,
        }
    }

    /// The name that the mode is announced with.
    pub fn name(&self) -> (name: &'static str)
        ensures
            name@ == self.title(),
    {
        match self {
            RenderMode::AlphaBlend => "Alpha Blend",
            RenderMode::NaiveWboit => "Naive WBOIT",
            RenderMode::HistogramWboit => "Histogram-Equalized WBOIT (tiled)",
            RenderMode::DirectionalHistogramWboit =>
                "Directional-Prior Histogram WBOIT (64 baked views)",
            RenderMode::SpatialBakedHistogramWboit =>
                "Spatial Baked Histogram WBOIT (atomics-free)",
            RenderMode::HighQualitySpatialBakedWboit => "HQ Spatial Bake + Realtime Front Feature",
            RenderMode::DoubleSampleFrontWboit => "HQ Front Feature + Two-Sample Confidence",
            RenderMode::DepthSlicedOit => "Four-Slice Optical-Depth OIT",
        }
    }

    /// Whether drawing in this mode reads the tile histograms.
    pub open spec fn reads_histograms(self) -> bool {
        3 <= self.key() <= 7
    }

    /// Whether drawing in this mode reads the tile histograms.
    pub fn uses_histograms(&self) -> (uses: bool)
        ensures
            uses == self.reads_histograms(),
    {
        matches!(
            self,
            RenderMode::HistogramWboit | RenderMode::DirectionalHistogramWboit
                | RenderMode::SpatialBakedHistogramWboit | RenderMode::HighQualitySpatialBakedWboit
                | RenderMode::DoubleSampleFrontWboit
        )
    }

    /// Whether this mode reads the coverage of the frame before, so that a first frame at a
    /// new pose differs from the next one.
    pub open spec fn reads_previous_frame(self) -> bool {
        5 <= self.key() <= 7
    }

    /// Whether this mode reads the coverage of the frame before.
    pub fn needs_priming(&self) -> (needs: bool)
        ensures
            needs == self.reads_previous_frame(),
    {
        matches!(
            self,
            RenderMode::SpatialBakedHistogramWboit | RenderMode::HighQualitySpatialBakedWboit
                | RenderMode::DoubleSampleFrontWboit
        )
    }
}

/// The images that passes draw to and read.
#[derive(Clone, Copy, PartialEq, Eq, Structural, Debug)]
pub enum Texture {
    /// What the window shows, or what is read back.
    Output,
    Depth,
    Accum,
    /// Coverage, double-buffered: each frame writes one and reads the other.
    Revealage(usize),
    FrontFeature,
    FrontFeatureDepth,
    FrontFeatureAlt,
    FrontFeatureAltDepth,
    FrontColorFiltered,
    DepthSlice(usize),
    Cdf,
    TileOpticalDepth,
}

/// The buffers that passes read and write.
#[derive(Clone, Copy, PartialEq, Eq, Structural, Debug)]
pub enum Buffer {
    Camera,
    Object(usize),
    Histogram,
    HistogramParams,
    DirectionalPrior,
    DirectionalPriorParams,
    Splats,
    SphericalHarmonics,
    SplatOrder,
    SplatParams,
}

/// What is bound at one place of a bind group.
#[derive(Clone, Copy, PartialEq, Eq, Structural, Debug)]
pub enum Resource {
    Texture(Texture),
    Buffer(Buffer),
    /// The sampler of the cumulative histograms.
    CdfSampler,
}

/// Sets of resources that are bound together.
#[derive(Clone, Copy, PartialEq, Eq, Structural, Debug)]
pub enum BindGroup {
    Camera,
    Object(usize),
    Splat,
    /// Resources of the histogram modes for one half of the double buffer.
    HistoAccum(usize),
    WboitComposite(usize),
    HistoComposite(usize),
    CdfBuild,
    FrontColorFilter,
    DepthSliceComposite,
}

/// The half of the double buffer that is not `half`.
pub open spec fn other_half(half: usize) -> usize {
    (1 - half) as usize
}

/// What a bind group holds, by binding number.
pub open spec fn resources(group: BindGroup) -> Seq<Resource> {
    match group {
        BindGroup::Camera => seq![Resource::Buffer(Buffer::Camera)],
        BindGroup::Object(i) => seq![Resource::Buffer(Buffer::Object(i))],
        BindGroup::Splat => seq![
            Resource::Buffer(Buffer::Splats),
            Resource::Buffer(Buffer::SphericalHarmonics),
            Resource::Buffer(Buffer::SplatOrder),
            Resource::Buffer(Buffer::SplatParams),
        ],
        BindGroup::HistoAccum(half) => seq![
            Resource::Buffer(Buffer::Histogram),
            Resource::Texture(Texture::Cdf),
            Resource::CdfSampler,
            Resource::Buffer(Buffer::HistogramParams),
            Resource::Texture(Texture::Revealage(other_half(half))),
            Resource::Texture(Texture::FrontFeature),
            Resource::Texture(Texture::FrontFeatureAlt),
            Resource::Texture(Texture::FrontColorFiltered),
            Resource::Texture(Texture::TileOpticalDepth),
        ],
        BindGroup::WboitComposite(half) => seq![
            Resource::Texture(Texture::Accum),
            Resource::Texture(Texture::Revealage(half)),
        ],
        BindGroup::HistoComposite(half) => seq![
            Resource::Texture(Texture::Accum),
            Resource::Texture(Texture::Revealage(half)),
        ],
        BindGroup::CdfBuild => seq![
            Resource::Buffer(Buffer::Histogram),
            Resource::Texture(Texture::Cdf),
            Resource::Buffer(Buffer::HistogramParams),
            Resource::Buffer(Buffer::DirectionalPrior),
            Resource::Buffer(Buffer::DirectionalPriorParams),
            Resource::Texture(Texture::TileOpticalDepth),
        ],
        BindGroup::FrontColorFilter => seq![
            Resource::Texture(Texture::FrontFeatureAlt),
            Resource::Texture(Texture::FrontColorFiltered),
        ],
        BindGroup::DepthSliceComposite => seq![
            Resource::Texture(Texture::DepthSlice(0)),
            Resource::Texture(Texture::DepthSlice(1)),
            Resource::Texture(Texture::DepthSlice(2)),
            Resource::Texture(Texture::DepthSlice(3)),
        ],
    }
}

/// Whether a group is one of those that exist: the double buffer has two halves.
pub open spec fn is_group(group: BindGroup) -> bool {
    match group {
        BindGroup::HistoAccum(half) => half < 2,
        BindGroup::WboitComposite(half) => half < 2,
        BindGroup::HistoComposite(half) => half < 2,
        _ => true,
    }
}

/// The entries that a bind group is made of, by binding number.
pub fn group_entries(group: BindGroup) -> (entries: Vec<Resource>)
    requires
        is_group(group),
    ensures
        entries@ == resources(group),
{
    match group {
        BindGroup::Camera => vec![Resource::Buffer(Buffer::Camera)],
        BindGroup::Object(i) => vec![Resource::Buffer(Buffer::Object(i))],
        BindGroup::Splat => vec![
            Resource::Buffer(Buffer::Splats),
            Resource::Buffer(Buffer::SphericalHarmonics),
            Resource::Buffer(Buffer::SplatOrder),
            Resource::Buffer(Buffer::SplatParams),
        ],
        BindGroup::HistoAccum(half) => {
            let previous: usize = 1 - half;
            vec![
                Resource::Buffer(Buffer::Histogram),
                Resource::Texture(Texture::Cdf),
                Resource::CdfSampler,
                Resource::Buffer(Buffer::HistogramParams),
                Resource::Texture(Texture::Revealage(previous)),
                Resource::Texture(Texture::FrontFeature),
                Resource::Texture(Texture::FrontFeatureAlt),
                Resource::Texture(Texture::FrontColorFiltered),
                Resource::Texture(Texture::TileOpticalDepth),
            ]
        },
        BindGroup::WboitComposite(half) => vec![
            Resource::Texture(Texture::Accum),
            Resource::Texture(Texture::Revealage(half)),
        ],
        BindGroup::HistoComposite(half) => vec![
            Resource::Texture(Texture::Accum),
            Resource::Texture(Texture::Revealage(half)),
        ],
        BindGroup::CdfBuild => vec![
            Resource::Buffer(Buffer::Histogram),
            Resource::Texture(Texture::Cdf),
            Resource::Buffer(Buffer::HistogramParams),
            Resource::Buffer(Buffer::DirectionalPrior),
            Resource::Buffer(Buffer::DirectionalPriorParams),
            Resource::Texture(Texture::TileOpticalDepth),
        ],
        BindGroup::FrontColorFilter => vec![
            Resource::Texture(Texture::FrontFeatureAlt),
            Resource::Texture(Texture::FrontColorFiltered),
        ],
        BindGroup::DepthSliceComposite => vec![
            Resource::Texture(Texture::DepthSlice(0)),
            Resource::Texture(Texture::DepthSlice(1)),
            Resource::Texture(Texture::DepthSlice(2)),
            Resource::Texture(Texture::DepthSlice(3)),
        ],
    }
}

/// Pixel formats of the images that the renderer makes.
#[derive(Clone, Copy, PartialEq, Eq, Structural, Debug)]
pub enum PixelFormat {
    /// The format of the surface.
    Surface,
    Depth32Float,
    Rgba16Float,
    R16Float,
}

/// How an image is made and what it may be used for.
#[derive(Clone, Copy, PartialEq, Eq, Structural, Debug)]
pub struct TextureSpec {
    pub width: u32,
    pub height: u32,
    /// Layers of a three-dimensional image; 1 for a flat one.
    pub layers: u32,
    pub format: PixelFormat,
    /// Passes can draw to it.
    pub attachment: bool,
    /// Shaders can read it.
    pub sampled: bool,
    /// Compute shaders can write it.
    pub storage: bool,
}

/// How an image is made for a surface of the given size.
pub open spec fn texture_model(
    texture: Texture,
    width: u32,
    height: u32,
    tiles: HistogramParams,
) -> TextureSpec {
    match texture {
        Texture::Output => TextureSpec {
            width,
            height,
            layers: 1,
            format: PixelFormat::Surface,
            attachment: true,
            sampled: false,
            storage: false,
        },
        Texture::Depth | Texture::FrontFeatureDepth | Texture::FrontFeatureAltDepth =>
            TextureSpec {
            width,
            height,
            layers: 1,
            format: PixelFormat::Depth32Float,
            attachment: true,
            sampled: false,
            storage: false,
        },
        Texture::Revealage(_) => TextureSpec {
            width,
            height,
            layers: 1,
            format: PixelFormat::R16Float,
            attachment: true,
            sampled: true,
            storage: false,
        },
        Texture::Accum | Texture::FrontFeature | Texture::FrontFeatureAlt | Texture::DepthSlice(
            _,
        ) => TextureSpec {
            width,
            height,
            layers: 1,
            format: PixelFormat::Rgba16Float,
            attachment: true,
            sampled: true,
            storage: false,
        },
        Texture::FrontColorFiltered => TextureSpec {
            width,
            height,
            layers: 1,
            format: PixelFormat::Rgba16Float,
            attachment: false,
            sampled: true,
            storage: true,
        },
        Texture::Cdf => TextureSpec {
            width: tiles.tile_count_x,
            height: tiles.tile_count_y,
            layers: NUM_DEPTH_BINS,
            format: PixelFormat::Rgba16Float,
            attachment: false,
            sampled: true,
            storage: true,
        },
        Texture::TileOpticalDepth => TextureSpec {
            width: tiles.tile_count_x,
            height: tiles.tile_count_y,
            layers: 1,
            format: PixelFormat::Rgba16Float,
            attachment: false,
            sampled: true,
            storage: true,
        },
    }
}

/// How an image is made for a surface of the given size.
pub fn texture_spec(texture: Texture, width: u32, height: u32, tiles: &HistogramParams) -> (made:
    TextureSpec)
    ensures
        made == texture_model(texture, width, height, *tiles),
{
    let flat = TextureSpec {
        width,
        height,
        layers: 1,
        format: PixelFormat::Rgba16Float,
        attachment: true,
        sampled: true,
        storage: false,
    };
    match texture {
        Texture::Output => TextureSpec { format: PixelFormat::Surface, sampled: false, ..flat },
        Texture::Depth | Texture::FrontFeatureDepth | Texture::FrontFeatureAltDepth =>
            TextureSpec { format: PixelFormat::Depth32Float, sampled: false, ..flat },
        Texture::Revealage(_) => TextureSpec { format: PixelFormat::R16Float, ..flat },
        Texture::Accum | Texture::FrontFeature | Texture::FrontFeatureAlt | Texture::DepthSlice(
            _,
        ) => flat,
        Texture::FrontColorFiltered => TextureSpec { attachment: false, storage: true, ..flat },
        Texture::Cdf => TextureSpec {
            width: tiles.tile_count_x,
            height: tiles.tile_count_y,
            layers: NUM_DEPTH_BINS,
            attachment: false,
            storage: true,
            ..flat
        },
        Texture::TileOpticalDepth => TextureSpec {
            width: tiles.tile_count_x,
            height: tiles.tile_count_y,
            attachment: false,
            storage: true,
            ..flat
        },
    }
}

/// Size in bytes of the buffer that holds the prior of a frame: the largest prior, with room
/// for three more words in each cell.
pub fn prior_buffer_size() -> (size: u64)
    ensures
        size == HQ_SPATIAL_PRIOR_WIDTH * HQ_SPATIAL_PRIOR_HEIGHT * (DIRECTIONAL_DEPTH_BINS + 3) * 4,
{
    (HQ_SPATIAL_PRIOR_WIDTH * HQ_SPATIAL_PRIOR_HEIGHT * (DIRECTIONAL_DEPTH_BINS + 3) * 4) as u64
}

/// Whether an image is one of those that the renderer makes, which the output is not.
pub open spec fn is_image(texture: Texture) -> bool {
    match texture {
        Texture::Output => false,
        Texture::Revealage(half) => half < 2,
        Texture::DepthSlice(slice) => slice < 4,
        _ => true,
    }
}

/// The images that are made anew for a new size of the surface: all that the renderer makes.
pub fn sized_images() -> (images: Vec<Texture>)
    ensures
        images@.no_duplicates(),
        forall|texture: Texture| #[trigger] images@.contains(texture) <==> is_image(texture),
{
    let images = vec![
        Texture::Depth,
        Texture::Accum,
        Texture::Revealage(0),
        Texture::Revealage(1),
        Texture::FrontFeature,
        Texture::FrontFeatureDepth,
        Texture::FrontFeatureAlt,
        Texture::FrontFeatureAltDepth,
        Texture::FrontColorFiltered,
        Texture::DepthSlice(0),
        Texture::DepthSlice(1),
        Texture::DepthSlice(2),
        Texture::DepthSlice(3),
        Texture::Cdf,
        Texture::TileOpticalDepth,
    ];
    proof {
        assert forall|texture: Texture| is_image(texture) implies #[trigger] images@.contains(
            texture,
        ) by {
            let at: int = match texture {
                Texture::Output => 0,
                Texture::Depth => 0,
                Texture::Accum => 1,
                Texture::Revealage(half) => 2 + half,
                Texture::FrontFeature => 4,
                Texture::FrontFeatureDepth => 5,
                Texture::FrontFeatureAlt => 6,
                Texture::FrontFeatureAltDepth => 7,
                Texture::FrontColorFiltered => 8,
                Texture::DepthSlice(slice) => 9 + slice,
                Texture::Cdf => 13,
                Texture::TileOpticalDepth => 14,
            };
            assert(images@[at] == texture);
        }
    }
    images
}

/// Whether a resource is made anew for a new size of the surface: an image, or the histogram,
/// which has a place for every tile.
pub open spec fn is_sized(resource: Resource) -> bool {
    resource is Texture || resource == Resource::Buffer(Buffer::Histogram)
}

/// Whether a bind group holds something that is made anew for a new size of the surface.
pub open spec fn holds_sized(group: BindGroup) -> bool {
    exists|i: int| 0 <= i < resources(group).len() && is_sized(#[trigger] resources(group)[i])
}

/// The bind groups that are made anew for a new size of the surface, so that none keeps an
/// image or a histogram of the old one.
pub fn sized_groups() -> (groups: Vec<BindGroup>)
    ensures
        groups@.no_duplicates(),
        forall|group: BindGroup| #[trigger]
            groups@.contains(group) <==> is_group(group) && holds_sized(group),
{
    let groups = vec![
        BindGroup::HistoAccum(0),
        BindGroup::HistoAccum(1),
        BindGroup::WboitComposite(0),
        BindGroup::WboitComposite(1),
        BindGroup::HistoComposite(0),
        BindGroup::HistoComposite(1),
        BindGroup::CdfBuild,
        BindGroup::FrontColorFilter,
        BindGroup::DepthSliceComposite,
    ];
    proof {
        assert forall|group: BindGroup| #[trigger]
            groups@.contains(group) <==> is_group(group) && holds_sized(group) by {
            if groups@.contains(group) {
                assert(is_sized(resources(group)[0]));
            }
            if is_group(group) && holds_sized(group) {
                let at: int = match group {
                    BindGroup::HistoAccum(half) => 0 + half,
                    BindGroup::WboitComposite(half) => 2 + half,
                    BindGroup::HistoComposite(half) => 4 + half,
                    BindGroup::CdfBuild => 6,
                    BindGroup::FrontColorFilter => 7,
                    _ => 8,
                };
                assert(groups@[at] == group);
            }
        }
    }
    groups
}

/// The passes of a frame.
#[derive(Clone, Copy, PartialEq, Eq, Structural, Debug)]
pub enum Pass {
    AlphaBlend,
    WboitAccum,
    WboitComposite,
    FrontFeature,
    FrontFeatureAlt,
    SpatialCdfBuild,
    HistoAccum,
    CdfBuild,
    HistoComposite,
    SlicedCdfBuild,
    SlicedFrontCore,
    SlicedFringe,
    FrontColorFilter,
    SlicedAccum,
    SlicedComposite,
}

/// The images that a pass draws colours to, for one half of the double buffer. Each is cleared
/// first.
pub open spec fn color_attachments(pass: Pass, half: usize) -> Seq<Texture> {
    match pass {
        Pass::AlphaBlend | Pass::WboitComposite | Pass::HistoComposite | Pass::SlicedComposite =>
            seq![Texture::Output],
        Pass::WboitAccum | Pass::HistoAccum => seq![Texture::Accum, Texture::Revealage(half)],
        Pass::FrontFeature | Pass::SlicedFrontCore => seq![Texture::FrontFeature],
        Pass::FrontFeatureAlt | Pass::SlicedFringe => seq![Texture::FrontFeatureAlt],
        Pass::SlicedAccum => seq![
            Texture::DepthSlice(0),
            Texture::DepthSlice(1),
            Texture::DepthSlice(2),
            Texture::DepthSlice(3),
        ],
        Pass::SpatialCdfBuild | Pass::CdfBuild | Pass::SlicedCdfBuild | Pass::FrontColorFilter =>
            seq![],
    }
}

/// The images that a pass draws colours to.
pub fn color_targets(pass: Pass, half: usize) -> (targets: Vec<Texture>)
    ensures
        targets@ == color_attachments(pass, half),
{
    match pass {
        Pass::AlphaBlend | Pass::WboitComposite | Pass::HistoComposite | Pass::SlicedComposite =>
            vec![Texture::Output],
        Pass::WboitAccum | Pass::HistoAccum => vec![Texture::Accum, Texture::Revealage(half)],
        Pass::FrontFeature | Pass::SlicedFrontCore => vec![Texture::FrontFeature],
        Pass::FrontFeatureAlt | Pass::SlicedFringe => vec![Texture::FrontFeatureAlt],
        Pass::SlicedAccum => vec![
            Texture::DepthSlice(0),
            Texture::DepthSlice(1),
            Texture::DepthSlice(2),
            Texture::DepthSlice(3),
        ],
        Pass::SpatialCdfBuild | Pass::CdfBuild | Pass::SlicedCdfBuild | Pass::FrontColorFilter =>
            Vec::new(),
    }
}

/// The depth image of a pass.
#[derive(Clone, Copy, PartialEq, Eq, Structural, Debug)]
pub struct DepthTarget {
    pub texture: Texture,
    /// Whether the pass starts from the depths that the image holds; otherwise it is cleared to
    /// the far plane first.
    pub load: bool,
    /// Whether the depths are kept after the pass.
    pub store: bool,
}

/// The depth image that a pass tests against. The accumulation of the depth-sliced mode loads
/// the depths of the front core and so rejects what lies behind that surface.
pub open spec fn depth_attachment(pass: Pass) -> Option<DepthTarget> {
    match pass {
        Pass::AlphaBlend | Pass::WboitAccum | Pass::HistoAccum | Pass::SlicedFrontCore => Some(
            DepthTarget { texture: Texture::Depth, load: false, store: true },
        ),
        Pass::SlicedAccum => Some(
            DepthTarget { texture: Texture::Depth, load: true, store: false },
        ),
        Pass::FrontFeature => Some(
            DepthTarget { texture: Texture::FrontFeatureDepth, load: false, store: false },
        ),
        Pass::FrontFeatureAlt | Pass::SlicedFringe => Some(
            DepthTarget { texture: Texture::FrontFeatureAltDepth, load: false, store: false },
        ),
        _ => None,
    }
}

/// The depth image that a pass tests against.
pub fn depth_target(pass: Pass) -> (target: Option<DepthTarget>)
    ensures
        target == depth_attachment(pass),
{
    match pass {
        Pass::AlphaBlend | Pass::WboitAccum | Pass::HistoAccum | Pass::SlicedFrontCore => Some(
            DepthTarget { texture: Texture::Depth, load: false, store: true },
        ),
        Pass::SlicedAccum => Some(
            DepthTarget { texture: Texture::Depth, load: true, store: false },
        ),
        Pass::FrontFeature => Some(
            DepthTarget { texture: Texture::FrontFeatureDepth, load: false, store: false },
        ),
        Pass::FrontFeatureAlt | Pass::SlicedFringe => Some(
            DepthTarget { texture: Texture::FrontFeatureAltDepth, load: false, store: false },
        ),
        _ => None,
    }
}

/// Whether a pass runs a compute shader.
pub open spec fn is_compute(pass: Pass) -> bool {
    pass == Pass::SpatialCdfBuild || pass == Pass::CdfBuild || pass == Pass::SlicedCdfBuild || pass
        == Pass::FrontColorFilter
}

/// Whether a pass runs a compute shader.
pub fn runs_compute(pass: Pass) -> (compute: bool)
    ensures
        compute == is_compute(pass),
{
    matches!(
        pass,
        Pass::SpatialCdfBuild | Pass::CdfBuild | Pass::SlicedCdfBuild | Pass::FrontColorFilter
    )
}

/// The shader programs.
#[derive(Clone, Copy, PartialEq, Eq, Structural, Debug)]
pub enum Pipeline {
    MeshAlpha,
    MeshWboit,
    MeshHisto,
    SplatAlpha,
    SplatWboit,
    SplatHisto,
    SplatBakedHisto,
    SplatFrontWeightedHisto,
    SplatDoubleFrontHisto,
    SplatDepthSliced,
    FrontFeature,
    FrontFeatureAlt,
    FrontColorFilter,
    CdfBuild,
    SpatialCdfBuild,
    HighQualitySpatialCdfBuild,
    WboitComposite,
    HistoComposite,
    FilteredHistoComposite,
    DepthSlicedComposite,
}

/// One step of a pass.
#[derive(Clone, Copy, PartialEq, Eq, Structural, Debug)]
pub enum Step {
    SetPipeline(Pipeline),
    SetBindGroup { slot: u32, group: BindGroup },
    /// Binds the vertices and indices of an object.
    SetMesh(usize),
    /// Draws `vertices` vertices for each of `instances` instances.
    Draw { vertices: u32, instances: u32 },
    /// Draws one instance of the bound mesh.
    DrawIndexed { indices: u32 },
    /// Runs a compute shader on a grid of workgroups.
    Dispatch { x: u32, y: u32 },
}

/// A pass with its steps.
pub struct PassPlan {
    pub pass: Pass,
    pub steps: Vec<Step>,
}

impl View for PassPlan {
    type V = (Pass, Seq<Step>);

    open spec fn view(&self) -> (Pass, Seq<Step>) {
        (self.pass, self.steps@)
    }
}

/// The passes of a plan as mathematical values.
pub open spec fn plan_view(plan: Seq<PassPlan>) -> Seq<(Pass, Seq<Step>)> {
    Seq::new(plan.len(), |i: int| plan[i]@)
}

/// Whether a pass draws to an image, as a colour or as a depth.
pub open spec fn draws_to(pass: Pass, half: usize, texture: Texture) -> bool {
    ||| color_attachments(pass, half).contains(texture)
    ||| depth_attachment(pass) matches Some(target) && target.texture == texture
}

/// Whether a step binds an image.
pub open spec fn binds(step: Step, texture: Texture) -> bool {
    step matches Step::SetBindGroup { slot, group } && resources(group).contains(
        Resource::Texture(texture),
    )
}

/// Where each resource is bound: every one has its own place in the groups that hold it.
#[verifier::rlimit(40)]
pub proof fn resources_have_their_places(group: BindGroup, at: int)
    requires
        0 <= at < resources(group).len(),
    ensures
        match resources(group)[at] {
            Resource::Buffer(Buffer::Camera) => group == BindGroup::Camera,
            Resource::Buffer(Buffer::Object(i)) => group == BindGroup::Object(i),
            Resource::Buffer(Buffer::Splats) => group == BindGroup::Splat && at == 0,
            Resource::Buffer(Buffer::SphericalHarmonics) => group == BindGroup::Splat && at == 1,
            Resource::Buffer(Buffer::SplatOrder) => group == BindGroup::Splat && at == 2,
            Resource::Buffer(Buffer::SplatParams) => group == BindGroup::Splat && at == 3,
            Resource::Buffer(Buffer::Histogram) => (group is HistoAccum || group
                == BindGroup::CdfBuild) && at == 0,
            Resource::Buffer(Buffer::HistogramParams) => (group is HistoAccum && at == 3) || (group
                == BindGroup::CdfBuild && at == 2),
            Resource::Buffer(Buffer::DirectionalPrior) => group == BindGroup::CdfBuild && at == 3,
            Resource::Buffer(Buffer::DirectionalPriorParams) => group == BindGroup::CdfBuild && at
                == 4,
            Resource::CdfSampler => group is HistoAccum && at == 2,
            Resource::Texture(Texture::Cdf) => (group is HistoAccum || group
                == BindGroup::CdfBuild) && at == 1,
            Resource::Texture(Texture::TileOpticalDepth) => (group is HistoAccum && at == 8) || (
            group == BindGroup::CdfBuild && at == 5),
            Resource::Texture(Texture::Accum) => (group is WboitComposite || group
                is HistoComposite) && at == 0,
            Resource::Texture(Texture::Revealage(half)) => (group == BindGroup::WboitComposite(half)
                && at == 1) || (group == BindGroup::HistoComposite(half) && at == 1) || (group
                is HistoAccum && at == 4 && (group->HistoAccum_0 < 2 ==> half + group->HistoAccum_0
                == 1)),
            Resource::Texture(Texture::FrontFeature) => group is HistoAccum && at == 5,
            Resource::Texture(Texture::FrontFeatureAlt) => (group is HistoAccum && at == 6) || (group
                == BindGroup::FrontColorFilter && at == 0),
            Resource::Texture(Texture::FrontColorFiltered) => (group is HistoAccum && at == 7) || (
            group == BindGroup::FrontColorFilter && at == 1),
            Resource::Texture(Texture::DepthSlice(slice)) => group
                == BindGroup::DepthSliceComposite && at == slice,
            _ => false,
        },
{
}

/// How many resources are bound together.
pub proof fn groups_are_complete(group: BindGroup)
    ensures
        resources(group).len() == match group {
            BindGroup::Camera | BindGroup::Object(_) => 1nat,
            BindGroup::WboitComposite(_) | BindGroup::HistoComposite(_)
            | BindGroup::FrontColorFilter => 2,
            BindGroup::Splat | BindGroup::DepthSliceComposite => 4,
            BindGroup::CdfBuild => 6,
            BindGroup::HistoAccum(_) => 9,
        },
{
}

/// The halves of the double buffer are each other's other one.
pub proof fn halves_alternate(half: usize)
    requires
        half < 2,
    ensures
        other_half(half) < 2,
        other_half(half) != half,
        other_half(other_half(half)) == half,
{
}

/// Which passes draw a colour image, and at which place among their targets.
pub proof fn colours_have_their_passes(pass: Pass, half: usize, at: int)
    requires
        0 <= at < color_attachments(pass, half).len(),
    ensures
        match color_attachments(pass, half)[at] {
            Texture::Output => pass == Pass::AlphaBlend || pass == Pass::WboitComposite || pass
                == Pass::HistoComposite || pass == Pass::SlicedComposite,
            Texture::Accum => (pass == Pass::WboitAccum || pass == Pass::HistoAccum) && at == 0,
            Texture::Revealage(written) => (pass == Pass::WboitAccum || pass == Pass::HistoAccum)
                && at == 1 && written == half,
            Texture::FrontFeature => pass == Pass::FrontFeature || pass == Pass::SlicedFrontCore,
            Texture::FrontFeatureAlt => pass == Pass::FrontFeatureAlt || pass == Pass::SlicedFringe,
            Texture::DepthSlice(slice) => pass == Pass::SlicedAccum && at == slice,
            _ => false,
        },
{
}

/// A pass draws one colour image, or two where it accumulates, or four where it slices, or none
/// where it computes.
pub proof fn passes_have_all_their_colours(pass: Pass, half: usize)
    ensures
        color_attachments(pass, half).len() == if pass == Pass::WboitAccum || pass
            == Pass::HistoAccum {
            2nat
        } else if pass == Pass::SlicedAccum {
            4
        } else if pass == Pass::SpatialCdfBuild || pass == Pass::CdfBuild || pass
            == Pass::SlicedCdfBuild || pass == Pass::FrontColorFilter {
            0
        } else {
            1
        },
        is_compute(pass) <==> color_attachments(pass, half).len() == 0,
        is_compute(pass) ==> depth_attachment(pass) is None,
{
}

/// Passes that draw the scene test depths, the others do not; the front features have depth images
/// of their own. Only what the slices are drawn on is loaded, and only the shared image is kept.
pub proof fn depths_have_their_passes(pass: Pass)
    ensures
        depth_attachment(pass) is None <==> is_compute(pass) || pass == Pass::WboitComposite || pass
            == Pass::HistoComposite || pass == Pass::SlicedComposite,
        depth_attachment(pass) matches Some(target) ==> {
            &&& target.texture == Texture::FrontFeatureDepth <==> pass == Pass::FrontFeature
            &&& target.texture == Texture::FrontFeatureAltDepth <==> pass == Pass::FrontFeatureAlt
                || pass == Pass::SlicedFringe
            &&& target.texture == Texture::Depth <==> pass != Pass::FrontFeature && pass
                != Pass::FrontFeatureAlt && pass != Pass::SlicedFringe
            &&& target.load <==> pass == Pass::SlicedAccum
            &&& target.store <==> target.texture == Texture::Depth && !target.load
        },
{
}

/// Images have a pixel for each pixel of the surface, but for the two that have one for each tile;
/// only the cumulative histogram has layers, one for each bin.
pub proof fn images_have_their_sizes(
    texture: Texture,
    width: u32,
    height: u32,
    tiles: HistogramParams,
)
    ensures
        ({
            let made = texture_model(texture, width, height, tiles);
            let tiled = texture == Texture::Cdf || texture == Texture::TileOpticalDepth;
            &&& tiled ==> made.width == tiles.tile_count_x && made.height == tiles.tile_count_y
            &&& !tiled ==> made.width == width && made.height == height
            &&& texture == Texture::Cdf ==> made.layers == 64
            &&& texture != Texture::Cdf ==> made.layers == 1
        }),
{
}

/// An image is drawn by passes or written by compute shaders, never both; depths and the output
/// are not read by shaders. What an image is made for does not depend on its size.
pub proof fn images_have_their_uses(
    texture: Texture,
    width: u32,
    height: u32,
    tiles: HistogramParams,
)
    ensures
        ({
            let made = texture_model(texture, width, height, tiles);
            let depth = texture == Texture::Depth || texture == Texture::FrontFeatureDepth
                || texture == Texture::FrontFeatureAltDepth;
            &&& made.storage <==> texture == Texture::FrontColorFiltered || texture == Texture::Cdf
                || texture == Texture::TileOpticalDepth
            &&& made.attachment <==> !made.storage
            &&& made.sampled <==> !depth && texture != Texture::Output
            &&& made.format == PixelFormat::Depth32Float <==> depth
            &&& made.format == PixelFormat::Surface <==> texture == Texture::Output
            &&& made.format == PixelFormat::R16Float <==> texture is Revealage
        }),
{
}

/// Every image that the renderer makes is drawn to by a pass or bound by a group.
#[verifier::rlimit(40)]
pub proof fn no_image_is_idle(texture: Texture)
    requires
        is_image(texture),
    ensures
        (exists|pass: Pass, half: usize| half < 2 && #[trigger] draws_to(pass, half, texture)) || (
        exists|group: BindGroup|
            is_group(group) && #[trigger] resources(group).contains(Resource::Texture(texture))),
{
    if texture == Texture::Depth {
        assert(draws_to(Pass::AlphaBlend, 0, texture));
    } else if texture == Texture::FrontFeatureDepth {
        assert(draws_to(Pass::FrontFeature, 0, texture));
    } else if texture == Texture::FrontFeatureAltDepth {
        assert(draws_to(Pass::FrontFeatureAlt, 0, texture));
    } else {
        let (group, at): (BindGroup, int) = match texture {
            Texture::Accum => (BindGroup::WboitComposite(0), 0),
            Texture::Revealage(half) => (BindGroup::WboitComposite(half), 1),
            Texture::FrontFeature => (BindGroup::HistoAccum(0), 5),
            Texture::FrontFeatureAlt => (BindGroup::FrontColorFilter, 0),
            Texture::FrontColorFiltered => (BindGroup::FrontColorFilter, 1),
            Texture::DepthSlice(slice) => (BindGroup::DepthSliceComposite, slice as int),
            Texture::Cdf => (BindGroup::CdfBuild, 1),
            _ => (BindGroup::CdfBuild, 5),
        };
        assert(resources(group)[at] == Resource::Texture(texture));
        assert(is_group(group) && resources(group).contains(Resource::Texture(texture)));
    }
}

/// Groups that hold images or the histogram follow the size of the surface; those of the camera,
/// of the objects and of the splats do not.
pub proof fn scene_groups_outlast_resizing(group: BindGroup)
    ensures
        holds_sized(group) <==> group != BindGroup::Camera && !(group is Object) && group
            != BindGroup::Splat,
{
    if group != BindGroup::Camera && !(group is Object) && group != BindGroup::Splat {
        assert(is_sized(resources(group)[0]));
    }
}

/// The histogram modes are those between the plain and the sliced one, and those of them that read
/// the frame before are the baked ones.
pub proof fn modes_read_what_they_need(mode: RenderMode)
    ensures
        mode.reads_histograms() <==> mode != RenderMode::AlphaBlend && mode
            != RenderMode::NaiveWboit && mode != RenderMode::DepthSlicedOit,
        mode.reads_previous_frame() <==> mode.reads_histograms() && mode
            != RenderMode::HistogramWboit && mode != RenderMode::DirectionalHistogramWboit,
{
}

/// A plan is seen with every pass and every step.
pub proof fn plans_are_seen_whole(plan: Seq<PassPlan>, i: int)
    requires
        0 <= i < plan.len(),
    ensures
        plan_view(plan).len() == plan.len(),
        plan_view(plan)[i].0 == plan[i].pass,
        plan_view(plan)[i].1 == plan[i].steps@,
{
}

} // verus!
