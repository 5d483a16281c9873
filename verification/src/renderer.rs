//! The renderer's decisions: what is resident on the GPU, what is drawn, and which passes a
//! frame consists of.
use crate::frame::{other_half, plan_view, BindGroup, Pass, PassPlan, Pipeline, RenderMode, Step};
use crate::ieee;
use crate::order::{gathered, is_stable_descending};
use crate::pack::{index_bytes, is_memory_of_halves, is_memory_of_words, word_bytes};
use crate::scene::{distances_of, is_increasing, sort_back_to_front, ObjectUniform, Scene};
use crate::sorter::ranks;
use crate::splats::{identity_order, SplatScene};
use crate::surface::{at_least_one, surface_extent, HistogramParams};
use vstd::prelude::*;

verus! {

/// Bit pattern of 0.05, the smallest splat size.
pub const MIN_SPLAT_SCALE: u32 = 0x3d4c_cccd;

/// Bit pattern of 8.0, the largest splat size.
pub const MAX_SPLAT_SCALE: u32 = 0x4100_0000;

/// Bit pattern of 0.75, the weight of the directional prior.
pub const PRIOR_MIX: u32 = 0x3f40_0000;

/// A splat scene on the GPU, with the settings that the user can change.
#[derive(Clone, Copy, PartialEq, Eq, Structural, Debug)]
pub struct SplatState {
    pub total: u32,
    /// How many splats are drawn, counted from the most important one.
    pub draw_count: u32,
    pub sh_degree: u32,
    pub splat_scale: u32,
    pub scene_radius: u32,
}

impl SplatState {
    /// The cap leaves at least one splat where there is one, and no more than there are.
    pub open spec fn well_formed(self) -> bool {
        &&& self.draw_count <= self.total
        &&& self.total > 0 ==> self.draw_count > 0
    }
}

/// The contents of the buffers of a splat scene.
pub struct SplatUpload {
    pub splats: Vec<u8>,
    pub spherical_harmonics: Vec<u8>,
    pub order: Vec<u8>,
    /// Size of the order buffer; an empty scene still has room for one index.
    pub order_buffer_size: u64,
}

/// The contents of the buffers of one object.
pub struct MeshUpload {
    pub vertices: Vec<u8>,
    pub indices: Vec<u8>,
}

/// The baked priors.
#[derive(Clone, Copy, PartialEq, Eq, Structural, Debug)]
pub enum PriorKind {
    Directional,
    Spatial,
    HighQualitySpatial,
}

/// What the buffers of a frame are filled with, and what is drawn.
pub struct FrameInputs {
    /// The prior that is sampled for the camera.
    pub prior: Option<PriorKind>,
    /// Words of the prior's parameters: weight, whether it is used, padding.
    pub prior_params: [u32; 4],
    /// Words of the splat parameters, where splats are drawn: count, degree, size, radius.
    pub splat_params: Option<[u32; 4]>,
    /// The objects that are drawn, in draw order.
    pub visible: Vec<usize>,
    /// The uniform of each object that is drawn.
    pub uniforms: Vec<ObjectUniform>,
}

/// Whether the surface has an image to draw to.
#[derive(Clone, Copy, PartialEq, Eq, Structural, Debug)]
pub enum SurfaceStatus {
    Ready,
    Lost,
    Outdated,
    Failed,
}

/// What is to be done for a frame.
pub enum FrameAction {
    /// Run the passes and present the result.
    Draw(Vec<PassPlan>),
    /// Configure the surface anew and skip the frame.
    Reconfigure,
    /// Report the error and skip the frame.
    Report,
}

/// The prior that a mode samples. Priors exist once a splat scene is loaded.
pub open spec fn prior_of(mode: RenderMode, has_splats: bool) -> Option<PriorKind> {
    if !has_splats {
        None
    } else if mode.key() == 4 {
        Some(PriorKind::Directional)
    } else if mode.key() == 5 {
        Some(PriorKind::Spatial)
    } else if mode.key() >= 6 {
        Some(PriorKind::HighQualitySpatial)
    } else {
        None
    }
}

/// Whether `list` names the visible objects of a scene in the order of the scene.
pub open spec fn is_visible_list(scene: Scene, list: Seq<usize>) -> bool {
    &&& is_increasing(list)
    &&& forall|i: usize| #[trigger] list.contains(i) <==> scene.is_visible(i as int)
}

/// Whether `list` names the visible objects of a scene back to front, objects at the same
/// distance in the order of the scene.
pub open spec fn is_back_to_front_list(scene: Scene, distances: Seq<u32>, list: Seq<usize>) -> bool {
    exists|shown: Seq<usize>, order: Seq<u32>|
        #![trigger is_visible_list(scene, shown), gathered(shown, order)]
        is_visible_list(scene, shown) && is_stable_descending(
            ranks(distances_of(shown, distances)),
            order,
        ) && list == gathered(shown, order)
}

/// Steps that draw objects one after the other.
pub open spec fn mesh_steps(visible: Seq<usize>, index_counts: Seq<u32>) -> Seq<Step>
    decreases visible.len(),
{
    if visible.len() == 0 {
        seq![]
    } else {
        mesh_steps(visible.drop_last(), index_counts) + seq![
            Step::SetBindGroup { slot: 1, group: BindGroup::Object(visible.last()) },
            Step::SetMesh(visible.last()),
            Step::DrawIndexed { indices: index_counts[visible.last() as int] },
        ]
    }
}

/// The program that draws splats in a mode.
pub open spec fn splat_pipeline(mode: RenderMode) -> Pipeline {
    match mode {
        RenderMode::AlphaBlend => Pipeline::SplatAlpha,
        RenderMode::NaiveWboit => Pipeline::SplatWboit,
        RenderMode::HistogramWboit | RenderMode::DirectionalHistogramWboit => Pipeline::SplatHisto,
        RenderMode::SpatialBakedHistogramWboit => Pipeline::SplatBakedHisto,
        RenderMode::HighQualitySpatialBakedWboit => Pipeline::SplatFrontWeightedHisto,
        RenderMode::DoubleSampleFrontWboit => Pipeline::SplatDoubleFrontHisto,
        RenderMode::DepthSlicedOit => Pipeline::SplatDepthSliced,
    }
}

/// The program that draws meshes in a mode.
pub open spec fn mesh_pipeline(mode: RenderMode) -> Pipeline {
    if mode == RenderMode::AlphaBlend {
        Pipeline::MeshAlpha
    } else if mode.reads_histograms() {
        Pipeline::MeshHisto
    } else {
        Pipeline::MeshWboit
    }
}

/// Steps that draw every splat as one instanced quad.
pub open spec fn quad_steps(pipeline: Pipeline, draw_count: u32) -> Seq<Step> {
    seq![
        Step::SetPipeline(pipeline),
        Step::SetBindGroup { slot: 0, group: BindGroup::Camera },
        Step::SetBindGroup { slot: 1, group: BindGroup::Splat },
        Step::Draw { vertices: 4, instances: draw_count },
    ]
}

/// Steps that draw one triangle over the whole image.
pub open spec fn fullscreen_steps(pipeline: Pipeline, group: BindGroup) -> Seq<Step> {
    seq![
        Step::SetPipeline(pipeline),
        Step::SetBindGroup { slot: 0, group },
        Step::Draw { vertices: 3, instances: 1 },
    ]
}

/// Steps that run a compute shader.
pub open spec fn compute_steps(pipeline: Pipeline, group: BindGroup, x: u32, y: u32) -> Seq<Step> {
    seq![
        Step::SetPipeline(pipeline),
        Step::SetBindGroup { slot: 0, group },
        Step::Dispatch { x, y },
    ]
}

fn quad_plan(pass: Pass, pipeline: Pipeline, draw_count: u32) -> (plan: PassPlan)
    ensures
        plan@ == (pass, quad_steps(pipeline, draw_count)),
{
    PassPlan {
        pass,
        steps: vec![
            Step::SetPipeline(pipeline),
            Step::SetBindGroup { slot: 0, group: BindGroup::Camera },
            Step::SetBindGroup { slot: 1, group: BindGroup::Splat },
            Step::Draw { vertices: 4, instances: draw_count },
        ],
    }
}

fn fullscreen_plan(pass: Pass, pipeline: Pipeline, group: BindGroup) -> (plan: PassPlan)
    ensures
        plan@ == (pass, fullscreen_steps(pipeline, group)),
{
    PassPlan {
        pass,
        steps: vec![
            Step::SetPipeline(pipeline),
            Step::SetBindGroup { slot: 0, group },
            Step::Draw { vertices: 3, instances: 1 },
        ],
    }
}

fn compute_plan(pass: Pass, pipeline: Pipeline, group: BindGroup, x: u32, y: u32) -> (plan: PassPlan)
    ensures
        plan@ == (pass, compute_steps(pipeline, group, x, y)),
{
    PassPlan {
        pass,
        steps: vec![
            Step::SetPipeline(pipeline),
            Step::SetBindGroup { slot: 0, group },
            Step::Dispatch { x, y },
        ],
    }
}

/// How many of `total` splats a render cap of `scaled` splats draws.
pub open spec fn capped(scaled: u32, total: u32) -> u32 {
    if scaled < 1 {
        1
    } else if scaled > total {
        total
    } else {
        scaled
    }
}

/// A render cap draws at least one splat and at most all of them, and a larger one never draws
/// fewer.
pub proof fn caps_are_held(scaled: u32, larger: u32, total: u32)
    requires
        total > 0,
        scaled <= larger,
    ensures
        1 <= capped(scaled, total) <= total,
        capped(scaled, total) <= capped(larger, total),
        1 <= scaled <= total ==> capped(scaled, total) == scaled,
        scaled >= total ==> capped(scaled, total) == total,
        scaled == 0 ==> capped(scaled, total) == 1,
{
}

/// The prior's parameters before the first frame: its weight is zero and it is not used.
pub fn initial_prior_params() -> (words: [u32; 4])
    ensures
        words@ == seq![ieee::ZERO, 0, 0, 0],
{
    [ieee::ZERO, 0, 0, 0]
}

/// The state that decides what a frame looks like.
pub struct Renderer {
    pub mode: RenderMode,
    pub width: u32,
    pub height: u32,
    pub histo_params: HistogramParams,
    /// Present once a splat scene is loaded; splats then replace the meshes entirely.
    pub splats: Option<SplatState>,
    /// Number of indices of each object.
    pub index_counts: Vec<u32>,
    /// The half of the double buffer that the next frame writes.
    pub frame_index: usize,
}

impl Renderer {
    pub open spec fn well_formed(self) -> bool {
        &&& 1 <= self.width <= u32::MAX - 32
        &&& 1 <= self.height <= u32::MAX - 32
        &&& self.histo_params.fits(self.width, self.height)
        &&& self.frame_index < 2
        &&& self.splats matches Some(sp) ==> sp.well_formed()
    }

    /// A renderer for a surface of the given size, with nothing loaded.
    pub fn new(width: u32, height: u32) -> (renderer: Self)
        requires
            width <= u32::MAX - 32,
            height <= u32::MAX - 32,
        ensures
            renderer.well_formed(),
            renderer.mode == RenderMode::DepthSlicedOit,
            renderer.width == at_least_one(width),
            renderer.height == at_least_one(height),
            renderer.splats is None,
            renderer.index_counts@.len() == 0,
            renderer.frame_index == 0,
    {
        let width: u32 = surface_extent(width);
        let height: u32 = surface_extent(height);
        Renderer {
            mode: RenderMode::DepthSlicedOit,
            width,
            height,
            histo_params: HistogramParams::for_surface(width, height),
            splats: None,
            index_counts: Vec::new(),
            frame_index: 0,
        }
    }

    /// Follows a new size of the surface. Everything else stays.
    pub fn resize(&mut self, width: u32, height: u32)
        requires
            old(self).well_formed(),
            width <= u32::MAX - 32,
            height <= u32::MAX - 32,
        ensures
            final(self).well_formed(),
            *final(self) == (Renderer {
                width: at_least_one(width),
                height: at_least_one(height),
                histo_params: final(self).histo_params,
                ..*old(self)
            }),
            width > 0 ==> final(self).width == width,
            height > 0 ==> final(self).height == height,
    {
        let width: u32 = surface_extent(width);
        let height: u32 = surface_extent(height);
        self.width = width;
        self.height = height;
        self.histo_params = HistogramParams::for_surface(width, height);
    }

    /// Takes a splat scene: all splats are drawn, at their own size, in the order of the
    /// scene until a sorted order arrives.
    pub fn upload_splats(&mut self, scene: &SplatScene) -> (upload: SplatUpload)
        requires
            old(self).well_formed(),
            scene.gpu@.len() <= u32::MAX,
            scene.gpu@.len() * 16 <= usize::MAX,
        ensures
            final(self).well_formed(),
            *final(self) == (Renderer {
                splats: Some(
                    SplatState {
                        total: scene.gpu@.len() as u32,
                        draw_count: scene.gpu@.len() as u32,
                        sh_degree: scene.sh_degree,
                        splat_scale: ieee::ONE,
                        scene_radius: scene.radius,
                    },
                ),
                ..*old(self)
            }),
            is_memory_of_words(upload.splats@, splat_words(scene.gpu@)),
            is_memory_of_words(
                upload.spherical_harmonics@,
                if scene.sh@.len() == 0 {
                    seq![ieee::ZERO]
                } else {
                    scene.sh@
                },
            ),
            is_memory_of_words(
                upload.order@,
                Seq::new(scene.gpu@.len(), |i: int| i as u32),
            ),
            upload.order_buffer_size == if scene.gpu@.len() == 0 {
                4
            } else {
                4 * scene.gpu@.len()
            },
    {
        let total: u32 = scene.len() as u32;
        let words = scene.gpu_words();
        let identity = identity_order(total);
        proof {
            assert(words@ =~= splat_words(scene.gpu@));
            assert(identity@ =~= Seq::new(scene.gpu@.len(), |i: int| i as u32));
        }
        self.splats = Some(
            SplatState {
                total,
                draw_count: total,
                sh_degree: scene.sh_degree,
                splat_scale: ieee::ONE,
                scene_radius: scene.radius,
            },
        );
        let slots: u64 = if total == 0 { 1 } else { total as u64 };
        SplatUpload {
            splats: word_bytes(words.as_slice()),
            spherical_harmonics: word_bytes(scene.sh_words().as_slice()),
            order: word_bytes(identity.as_slice()),
            order_buffer_size: slots * 4,
        }
    }

    /// Whether a splat scene is loaded.
    pub fn has_splats(&self) -> (loaded: bool)
        ensures
            loaded == self.splats is Some,
    {
        self.splats.is_some()
    }

    /// How many splats are drawn; also what the sorter is asked to order.
    pub open spec fn draw_count(self) -> u32 {
        match self.splats {
            Some(sp) => sp.draw_count,
            None => 0,
        }
    }

    /// How many splats are drawn; also what the sorter is asked to order.
    pub fn splat_draw_count(&self) -> (count: usize)
        ensures
            count == self.draw_count(),
            self.splats is Some ==> count == self.splats->0.draw_count,
            self.splats is None ==> count == 0,
    {
        match self.splats {
            Some(sp) => sp.draw_count as usize,
            None => 0,
        }
    }

    /// New contents of the order buffer, where there is a scene to order and an order to
    /// write.
    pub fn upload_splat_order(&self, order: &[u32]) -> (bytes: Option<Vec<u8>>)
        ensures
            bytes is Some <==> self.splats is Some && order@.len() > 0,
            bytes matches Some(b) ==> is_memory_of_words(b@, order@),
    {
        if self.splats.is_some() && order.len() > 0 {
            Some(word_bytes(order))
        } else {
            None
        }
    }

    /// Sets the render cap: `scaled` is the fraction of the scene that is to be drawn, as a
    /// number of splats. At least one splat is drawn and at most all of them. Gives the number
    /// that is drawn and the number that there are, or nothing without a scene.
    pub fn set_splat_fraction(&mut self, scaled: u32) -> (counts: Option<(u32, u32)>)
        requires
            old(self).well_formed(),
            old(self).splats matches Some(sp) ==> sp.total > 0,
        ensures
            final(self).well_formed(),
            match old(self).splats {
                None => counts is None && *final(self) == *old(self),
                Some(sp) => {
                    let count = capped(scaled, sp.total);
                    &&& counts == Some((count, sp.total))
                    &&& *final(self) == (Renderer {
                        splats: Some(SplatState { draw_count: count, ..sp }),
                        ..*old(self)
                    })
                },
            },
            old(self).splats is Some && 1 <= scaled <= old(self).splats->0.total
                ==> final(self).draw_count() == scaled,
            old(self).splats is Some && scaled > old(self).splats->0.total
                ==> final(self).draw_count() == old(self).splats->0.total,
            old(self).splats is Some && scaled == 0 ==> final(self).draw_count() == 1,
    {
        match self.splats {
            None => None,
            Some(sp) => {
                let count: u32 = if scaled < 1 {
                    1
                } else if scaled > sp.total {
                    sp.total
                } else {
                    scaled
                };
                self.splats = Some(SplatState { draw_count: count, ..sp });
                Some((count, sp.total))
            },
        }
    }

    /// Sets the size of the splats to `scaled`, held between the smallest and the largest
    /// size. Gives the new size, or nothing without a scene.
    pub fn adjust_splat_scale(&mut self, scaled: u32) -> (scale: Option<u32>)
        requires
            old(self).well_formed(),
        ensures
            final(self).well_formed(),
            match old(self).splats {
                None => scale is None && *final(self) == *old(self),
                Some(sp) => {
                    let held = ieee::clamped(scaled, MIN_SPLAT_SCALE, MAX_SPLAT_SCALE);
                    &&& scale == Some(held)
                    &&& *final(self) == (Renderer {
                        splats: Some(SplatState { splat_scale: held, ..sp }),
                        ..*old(self)
                    })
                },
            },
            scale is Some && !ieee::is_nan(scaled) ==> ieee::value(MIN_SPLAT_SCALE) <= ieee::value(
                scale->0,
            ) <= ieee::value(MAX_SPLAT_SCALE),
            scale is Some && !ieee::is_nan(scaled) && ieee::value(MIN_SPLAT_SCALE) <= ieee::value(
                scaled,
            ) <= ieee::value(MAX_SPLAT_SCALE) ==> scale == Some(scaled),
    {
        match self.splats {
            None => None,
            Some(sp) => {
                proof {
                    ieee::rank_orders_values(MIN_SPLAT_SCALE, MAX_SPLAT_SCALE);
                }
                let held: u32 = ieee::clamp(scaled, MIN_SPLAT_SCALE, MAX_SPLAT_SCALE);
                self.splats = Some(SplatState { splat_scale: held, ..sp });
                Some(held)
            },
        }
    }

    /// Takes the objects of a scene, in place of those that were there. Gives the contents of
    /// their vertex and index buffers.
    pub fn upload_scene(&mut self, scene: &Scene) -> (uploads: Vec<MeshUpload>)
        requires
            old(self).well_formed(),
            forall|i: int|
                0 <= i < scene.objects@.len() ==> (
                #[trigger] scene.objects@[i]).mesh.indices@.len() <= u32::MAX,
        ensures
            final(self).well_formed(),
            *final(self) == (Renderer { index_counts: final(self).index_counts, ..*old(self) }),
            final(self).index_counts@ == Seq::new(
                scene.objects@.len(),
                |i: int| scene.objects@[i].mesh.indices@.len() as u32,
            ),
            uploads@.len() == scene.objects@.len(),
            forall|i: int|
                0 <= i < uploads@.len() ==> is_memory_of_words(
                    (#[trigger] uploads@[i]).vertices@,
                    scene.objects@[i].mesh.vertices@,
                ) && is_memory_of_halves(
                    uploads@[i].indices@,
                    scene.objects@[i].mesh.indices@,
                ),
    {
        let mut counts: Vec<u32> = Vec::new();
        let mut uploads: Vec<MeshUpload> = Vec::new();
        let mut i: usize = 0;
        while i < scene.objects.len()
            invariant
                i <= scene.objects@.len(),
                forall|a: int|
                    0 <= a < scene.objects@.len() ==> (
                    #[trigger] scene.objects@[a]).mesh.indices@.len() <= u32::MAX,
                counts@ == Seq::new(
                    i as nat,
                    |a: int| scene.objects@[a].mesh.indices@.len() as u32,
                ),
                uploads@.len() == i,
                forall|a: int|
                    0 <= a < uploads@.len() ==> is_memory_of_words(
                        (#[trigger] uploads@[a]).vertices@,
                        scene.objects@[a].mesh.vertices@,
                    ) && is_memory_of_halves(
                        uploads@[a].indices@,
                        scene.objects@[a].mesh.indices@,
                    ),
            decreases scene.objects@.len() - i,
        {
            let mesh = &scene.objects[i].mesh;
            counts.push(mesh.indices.len() as u32);
            uploads.push(
                MeshUpload {
                    vertices: word_bytes(mesh.vertices.as_slice()),
                    indices: index_bytes(mesh.indices.as_slice()),
                },
            );
            i = i + 1;
            proof {
                assert(counts@ =~= Seq::new(
                    i as nat,
                    |a: int| scene.objects@[a].mesh.indices@.len() as u32,
                ));
            }
        }
        self.index_counts = counts;
        uploads
    }

    /// Decides what the buffers of the next frame hold and which objects it draws.
    /// `distances` holds the squared distance of each object from the eye, `inverse_alphas`
    /// the inverse of the opacity of its vertices.
    pub fn prepare_frame(&self, scene: &Scene, distances: &[u32], inverse_alphas: &[u32]) -> (inputs:
        FrameInputs)
        requires
            distances@.len() == scene.objects@.len(),
            inverse_alphas@.len() == scene.objects@.len(),
            scene.objects@.len() <= u32::MAX,
        ensures
            inputs.prior == prior_of(self.mode, self.splats is Some),
            inputs.prior_params@ == if inputs.prior == Some(PriorKind::Directional) {
                seq![PRIOR_MIX, 1, 0, 0]
            } else {
                seq![ieee::ZERO, 0, 0, 0]
            },
            match self.splats {
                None => inputs.splat_params is None,
                Some(sp) => inputs.splat_params matches Some(words) && words@ == seq![
                    sp.draw_count,
                    sp.sh_degree,
                    sp.splat_scale,
                    sp.scene_radius,
                ],
            },
            if self.splats is Some {
                inputs.visible@.len() == 0
            } else if self.mode == RenderMode::AlphaBlend {
                is_back_to_front_list(*scene, distances@, inputs.visible@)
            } else {
                is_visible_list(*scene, inputs.visible@)
            },
            forall|i: int|
                0 <= i < inputs.visible@.len() ==> (#[trigger] inputs.visible@[i])
                    < scene.objects@.len(),
            self.index_counts@.len() == scene.objects@.len() ==> self.has_meshes(inputs.visible@),
            inputs.uniforms@.len() == inputs.visible@.len(),
            forall|i: int|
                0 <= i < inputs.visible@.len() ==> {
                    let object = inputs.visible@[i] as int;
                    scene.objects@[object].is_drawn_with(
                        #[trigger] inputs.uniforms@[i],
                        scene.force_opaque,
                        inverse_alphas@[object],
                    )
                },
    {
        let loaded = self.has_splats();
        let prior = if !loaded {
            None
        } else {
            match self.mode {
                RenderMode::DirectionalHistogramWboit => Some(PriorKind::Directional),
                RenderMode::SpatialBakedHistogramWboit => Some(PriorKind::Spatial),
                RenderMode::HighQualitySpatialBakedWboit | RenderMode::DoubleSampleFrontWboit
                | RenderMode::DepthSlicedOit => Some(PriorKind::HighQualitySpatial),
                _ => None,
            }
        };
        let prior_params: [u32; 4] = match prior {
            Some(PriorKind::Directional) => [PRIOR_MIX, 1, 0, 0],
            _ => [ieee::ZERO, 0, 0, 0],
        };
        let splat_params: Option<[u32; 4]> = match self.splats {
            Some(sp) => Some([sp.draw_count, sp.sh_degree, sp.splat_scale, sp.scene_radius]),
            None => None,
        };
        let visible: Vec<usize> = if loaded {
            Vec::new()
        } else {
            let shown = scene.visible_objects();
            proof {
                lemma_visible_fit(*scene, shown@);
            }
            if self.mode == RenderMode::AlphaBlend {
                let sorted = sort_back_to_front(&shown, distances);
                assert(is_back_to_front_list(*scene, distances@, sorted@));
                sorted
            } else {
                shown
            }
        };
        let mut uniforms: Vec<ObjectUniform> = Vec::with_capacity(visible.len());
        let mut i: usize = 0;
        while i < visible.len()
            invariant
                i <= visible@.len(),
                uniforms@.len() == i,
                inverse_alphas@.len() == scene.objects@.len(),
                forall|a: int|
                    0 <= a < visible@.len() ==> (#[trigger] visible@[a]) < scene.objects@.len(),
                forall|a: int|
                    0 <= a < i ==> {
                        let object = visible@[a] as int;
                        scene.objects@[object].is_drawn_with(
                            #[trigger] uniforms@[a],
                            scene.force_opaque,
                            inverse_alphas@[object],
                        )
                    },
            decreases visible@.len() - i,
        {
            let object: usize = visible[i];
            uniforms.push(
                scene.objects[object].frame_uniform(scene.force_opaque, inverse_alphas[object]),
            );
            i = i + 1;
        }
        FrameInputs { prior, prior_params, splat_params, visible, uniforms }
    }
}

/// Number of workgroups of eight pixels that cover a size.
pub open spec fn workgroups(size: u32) -> u32 {
    ((size + 7) / 8) as u32
}

fn workgroup_count(size: u32) -> (count: u32)
    ensures
        count == workgroups(size),
{
    if size % 8 == 0 {
        size / 8
    } else {
        size / 8 + 1
    }
}

/// How much of the baked histogram a histogram mode uses: none, the spatial prior, the
/// high-quality prior with one front sample, or with two.
pub open spec fn baked_level(mode: RenderMode, has_splats: bool) -> u32 {
    if !has_splats {
        0
    } else if mode == RenderMode::SpatialBakedHistogramWboit {
        1
    } else if mode == RenderMode::HighQualitySpatialBakedWboit {
        2
    } else if mode == RenderMode::DoubleSampleFrontWboit {
        3
    } else {
        0
    }
}

/// A list of one pass, or an empty one.
pub open spec fn when(condition: bool, pass: Pass, steps: Seq<Step>) -> Seq<(Pass, Seq<Step>)> {
    if condition {
        seq![(pass, steps)]
    } else {
        seq![]
    }
}

impl Renderer {
    /// Steps that draw whichever scene is loaded.
    pub open spec fn scene_steps(self, visible: Seq<usize>, mode: RenderMode) -> Seq<Step> {
        let histograms = if mode.reads_histograms() {
            seq![Step::SetBindGroup { slot: 2, group: BindGroup::HistoAccum(self.frame_index) }]
        } else {
            seq![]
        };
        match self.splats {
            Some(sp) => seq![
                Step::SetBindGroup { slot: 0, group: BindGroup::Camera },
                Step::SetPipeline(splat_pipeline(mode)),
                Step::SetBindGroup { slot: 1, group: BindGroup::Splat },
            ] + histograms + seq![Step::Draw { vertices: 4, instances: sp.draw_count }],
            None => seq![
                Step::SetBindGroup { slot: 0, group: BindGroup::Camera },
                Step::SetPipeline(mesh_pipeline(mode)),
            ] + histograms + mesh_steps(visible, self.index_counts@),
        }
    }

    /// Whether every listed object has a mesh on the GPU.
    pub open spec fn has_meshes(self, visible: Seq<usize>) -> bool {
        self.splats is None ==> forall|i: int|
            0 <= i < visible.len() ==> (#[trigger] visible[i]) < self.index_counts@.len()
    }

    /// Steps that draw whichever scene is loaded.
    fn draw_scene(&self, visible: &[usize], mode: RenderMode) -> (steps: Vec<Step>)
        requires
            self.has_meshes(visible@),
        ensures
            steps@ == self.scene_steps(visible@, mode),
    {
        let mut steps: Vec<Step> = Vec::new();
        steps.push(Step::SetBindGroup { slot: 0, group: BindGroup::Camera });
        if let Some(sp) = self.splats {
            let pipeline = match mode {
                RenderMode::AlphaBlend => Pipeline::SplatAlpha,
                RenderMode::NaiveWboit => Pipeline::SplatWboit,
                RenderMode::HistogramWboit | RenderMode::DirectionalHistogramWboit =>
                    Pipeline::SplatHisto,
                RenderMode::SpatialBakedHistogramWboit => Pipeline::SplatBakedHisto,
                RenderMode::HighQualitySpatialBakedWboit => Pipeline::SplatFrontWeightedHisto,
                RenderMode::DoubleSampleFrontWboit => Pipeline::SplatDoubleFrontHisto,
                RenderMode::DepthSlicedOit => Pipeline::SplatDepthSliced,
            };
            steps.push(Step::SetPipeline(pipeline));
            steps.push(Step::SetBindGroup { slot: 1, group: BindGroup::Splat });
            if mode.uses_histograms() {
                steps.push(
                    Step::SetBindGroup { slot: 2, group: BindGroup::HistoAccum(self.frame_index) },
                );
            }
            steps.push(Step::Draw { vertices: 4, instances: sp.draw_count });
            proof {
                assert(steps@ =~= self.scene_steps(visible@, mode));
            }
            return steps;
        }
        let pipeline = match mode {
            RenderMode::AlphaBlend => Pipeline::MeshAlpha,
            RenderMode::NaiveWboit | RenderMode::DepthSlicedOit => Pipeline::MeshWboit,
            _ => Pipeline::MeshHisto,
        };
        steps.push(Step::SetPipeline(pipeline));
        if mode.uses_histograms() {
            steps.push(
                Step::SetBindGroup { slot: 2, group: BindGroup::HistoAccum(self.frame_index) },
            );
        }
        let ghost front = steps@;
        let mut i: usize = 0;
        proof {
            assert(front + mesh_steps(visible@.take(0), self.index_counts@) =~= front);
        }
        while i < visible.len()
            invariant
                i <= visible@.len(),
                self.splats is None,
                self.has_meshes(visible@),
                steps@ == front + mesh_steps(visible@.take(i as int), self.index_counts@),
            decreases visible@.len() - i,
        {
            let idx: usize = visible[i];
            let ghost before = steps@;
            steps.push(Step::SetBindGroup { slot: 1, group: BindGroup::Object(idx) });
            steps.push(Step::SetMesh(idx));
            steps.push(Step::DrawIndexed { indices: self.index_counts[idx] });
            proof {
                let longer = visible@.take(i + 1);
                assert(longer.drop_last() =~= visible@.take(i as int));
                assert(longer.last() == idx);
                assert(steps@ =~= front + mesh_steps(longer, self.index_counts@));
            }
            i = i + 1;
        }
        proof {
            assert(visible@.take(i as int) =~= visible@);
            assert(steps@ =~= self.scene_steps(visible@, mode));
        }
        steps
    }

    /// One blended pass straight to the output.
    pub open spec fn alpha_blend_plan(self, visible: Seq<usize>) -> Seq<(Pass, Seq<Step>)> {
        seq![(Pass::AlphaBlend, self.scene_steps(visible, RenderMode::AlphaBlend))]
    }

    /// Accumulation, then the composite that resolves it.
    pub open spec fn naive_wboit_plan(self, visible: Seq<usize>) -> Seq<(Pass, Seq<Step>)> {
        seq![
            (Pass::WboitAccum, self.scene_steps(visible, RenderMode::NaiveWboit)),
            (
                Pass::WboitComposite,
                fullscreen_steps(
                    Pipeline::WboitComposite,
                    BindGroup::WboitComposite(self.frame_index),
                ),
            ),
        ]
    }

    /// The histogram modes. Baked histograms are turned into cumulative ones before anything
    /// is drawn; a live histogram is recorded while drawing and serves the next frame.
    pub open spec fn histogram_plan(self, visible: Seq<usize>) -> Seq<(Pass, Seq<Step>)> {
        let level = baked_level(self.mode, self.splats is Some);
        when(
            level >= 2,
            Pass::FrontFeature,
            quad_steps(Pipeline::FrontFeature, self.draw_count()),
        ) + when(
            level == 3,
            Pass::FrontFeatureAlt,
            quad_steps(Pipeline::FrontFeatureAlt, self.draw_count()),
        ) + when(
            level != 0,
            Pass::SpatialCdfBuild,
            compute_steps(
                if level >= 2 {
                    Pipeline::HighQualitySpatialCdfBuild
                } else {
                    Pipeline::SpatialCdfBuild
                },
                BindGroup::CdfBuild,
                self.histo_params.tile_count_x,
                self.histo_params.tile_count_y,
            ),
        ) + seq![(Pass::HistoAccum, self.scene_steps(visible, self.mode))] + when(
            level == 0,
            Pass::CdfBuild,
            compute_steps(
                Pipeline::CdfBuild,
                BindGroup::CdfBuild,
                self.histo_params.tile_count_x,
                self.histo_params.tile_count_y,
            ),
        ) + seq![
            (
                Pass::HistoComposite,
                fullscreen_steps(
                    if self.mode == RenderMode::DoubleSampleFrontWboit {
                        Pipeline::FilteredHistoComposite
                    } else {
                        Pipeline::HistoComposite
                    },
                    BindGroup::HistoComposite(self.frame_index),
                ),
            ),
        ]
    }

    /// Optical depth in four slices. Only splats are drawn this way.
    pub open spec fn depth_sliced_plan(self) -> Seq<(Pass, Seq<Step>)> {
        match self.splats {
            None => seq![],
            Some(sp) => seq![
                (
                    Pass::SlicedCdfBuild,
                    compute_steps(
                        Pipeline::HighQualitySpatialCdfBuild,
                        BindGroup::CdfBuild,
                        self.histo_params.tile_count_x,
                        self.histo_params.tile_count_y,
                    ),
                ),
                (Pass::SlicedFrontCore, quad_steps(Pipeline::FrontFeature, sp.draw_count)),
                (Pass::SlicedFringe, quad_steps(Pipeline::FrontFeatureAlt, sp.draw_count)),
                (
                    Pass::FrontColorFilter,
                    compute_steps(
                        Pipeline::FrontColorFilter,
                        BindGroup::FrontColorFilter,
                        workgroups(self.width),
                        workgroups(self.height),
                    ),
                ),
                (
                    Pass::SlicedAccum,
                    seq![
                        Step::SetPipeline(Pipeline::SplatDepthSliced),
                        Step::SetBindGroup { slot: 0, group: BindGroup::Camera },
                        Step::SetBindGroup { slot: 1, group: BindGroup::Splat },
                        Step::SetBindGroup {
                            slot: 2,
                            group: BindGroup::HistoAccum(self.frame_index),
                        },
                        Step::Draw { vertices: 4, instances: sp.draw_count },
                    ],
                ),
                (
                    Pass::SlicedComposite,
                    fullscreen_steps(
                        Pipeline::DepthSlicedComposite,
                        BindGroup::DepthSliceComposite,
                    ),
                ),
            ],
        }
    }

    /// The passes of a frame in the current mode.
    pub open spec fn frame_plan(self, visible: Seq<usize>) -> Seq<(Pass, Seq<Step>)> {
        match self.mode {
            RenderMode::AlphaBlend => self.alpha_blend_plan(visible),
            RenderMode::NaiveWboit => self.naive_wboit_plan(visible),
            RenderMode::DepthSlicedOit => self.depth_sliced_plan(),
            _ => self.histogram_plan(visible),
        }
    }

    fn render_alpha_blend(&self, visible: &[usize]) -> (plan: Vec<PassPlan>)
        requires
            self.has_meshes(visible@),
        ensures
            plan_view(plan@) == self.alpha_blend_plan(visible@),
    {
        let mut plan: Vec<PassPlan> = Vec::new();
        plan.push(
            PassPlan {
                pass: Pass::AlphaBlend,
                steps: self.draw_scene(visible, RenderMode::AlphaBlend),
            },
        );
        proof {
            assert(plan_view(plan@) =~= self.alpha_blend_plan(visible@));
        }
        plan
    }

    fn render_naive_wboit(&self, visible: &[usize]) -> (plan: Vec<PassPlan>)
        requires
            self.has_meshes(visible@),
        ensures
            plan_view(plan@) == self.naive_wboit_plan(visible@),
    {
        let mut plan: Vec<PassPlan> = Vec::new();
        plan.push(
            PassPlan {
                pass: Pass::WboitAccum,
                steps: self.draw_scene(visible, RenderMode::NaiveWboit),
            },
        );
        plan.push(
            fullscreen_plan(
                Pass::WboitComposite,
                Pipeline::WboitComposite,
                BindGroup::WboitComposite(self.frame_index),
            ),
        );
        proof {
            assert(plan_view(plan@) =~= self.naive_wboit_plan(visible@));
        }
        plan
    }

    fn render_depth_sliced(&self) -> (plan: Vec<PassPlan>)
        ensures
            plan_view(plan@) == self.depth_sliced_plan(),
    {
        let mut plan: Vec<PassPlan> = Vec::new();
        if let Some(sp) = self.splats {
            plan.push(
                compute_plan(
                    Pass::SlicedCdfBuild,
                    Pipeline::HighQualitySpatialCdfBuild,
                    BindGroup::CdfBuild,
                    self.histo_params.tile_count_x,
                    self.histo_params.tile_count_y,
                ),
            );
            plan.push(quad_plan(Pass::SlicedFrontCore, Pipeline::FrontFeature, sp.draw_count));
            plan.push(quad_plan(Pass::SlicedFringe, Pipeline::FrontFeatureAlt, sp.draw_count));
            plan.push(
                compute_plan(
                    Pass::FrontColorFilter,
                    Pipeline::FrontColorFilter,
                    BindGroup::FrontColorFilter,
                    workgroup_count(self.width),
                    workgroup_count(self.height),
                ),
            );
            plan.push(
                PassPlan {
                    pass: Pass::SlicedAccum,
                    steps: vec![
                        Step::SetPipeline(Pipeline::SplatDepthSliced),
                        Step::SetBindGroup { slot: 0, group: BindGroup::Camera },
                        Step::SetBindGroup { slot: 1, group: BindGroup::Splat },
                        Step::SetBindGroup {
                            slot: 2,
                            group: BindGroup::HistoAccum(self.frame_index),
                        },
                        Step::Draw { vertices: 4, instances: sp.draw_count },
                    ],
                },
            );
            plan.push(
                fullscreen_plan(
                    Pass::SlicedComposite,
                    Pipeline::DepthSlicedComposite,
                    BindGroup::DepthSliceComposite,
                ),
            );
        }
        proof {
            assert(plan_view(plan@) =~= self.depth_sliced_plan());
        }
        plan
    }

    fn render_histogram_wboit(&self, visible: &[usize], spatial_baked: u32) -> (plan: Vec<PassPlan>)
        requires
            self.has_meshes(visible@),
            spatial_baked == baked_level(self.mode, self.splats is Some),
        ensures
            plan_view(plan@) == self.histogram_plan(visible@),
    {
        let tiles_x: u32 = self.histo_params.tile_count_x;
        let tiles_y: u32 = self.histo_params.tile_count_y;
        let mut plan: Vec<PassPlan> = Vec::new();
        if spatial_baked >= 2 {
            if let Some(sp) = self.splats {
                plan.push(quad_plan(Pass::FrontFeature, Pipeline::FrontFeature, sp.draw_count));
            }
        }
        if spatial_baked == 3 {
            if let Some(sp) = self.splats {
                plan.push(
                    quad_plan(Pass::FrontFeatureAlt, Pipeline::FrontFeatureAlt, sp.draw_count),
                );
            }
        }
        if spatial_baked != 0 {
            let pipeline = if spatial_baked >= 2 {
                Pipeline::HighQualitySpatialCdfBuild
            } else {
                Pipeline::SpatialCdfBuild
            };
            plan.push(
                compute_plan(
                    Pass::SpatialCdfBuild,
                    pipeline,
                    BindGroup::CdfBuild,
                    tiles_x,
                    tiles_y,
                ),
            );
        }
        plan.push(
            PassPlan { pass: Pass::HistoAccum, steps: self.draw_scene(visible, self.mode) },
        );
        if spatial_baked == 0 {
            plan.push(
                compute_plan(
                    Pass::CdfBuild,
                    Pipeline::CdfBuild,
                    BindGroup::CdfBuild,
                    tiles_x,
                    tiles_y,
                ),
            );
        }
        let composite = if self.mode == RenderMode::DoubleSampleFrontWboit {
            Pipeline::FilteredHistoComposite
        } else {
            Pipeline::HistoComposite
        };
        plan.push(
            fullscreen_plan(
                Pass::HistoComposite,
                composite,
                BindGroup::HistoComposite(self.frame_index),
            ),
        );
        proof {
            assert(plan_view(plan@) =~= self.histogram_plan(visible@));
        }
        plan
    }

    /// The passes of a frame in the current mode.
    pub fn encode_frame(&self, visible: &[usize]) -> (plan: Vec<PassPlan>)
        requires
            self.has_meshes(visible@),
        ensures
            plan_view(plan@) == self.frame_plan(visible@),
    {
        let loaded = self.has_splats();
        match self.mode {
            RenderMode::AlphaBlend => self.render_alpha_blend(visible),
            RenderMode::NaiveWboit => self.render_naive_wboit(visible),
            RenderMode::HistogramWboit | RenderMode::DirectionalHistogramWboit =>
                self.render_histogram_wboit(visible, 0),
            RenderMode::SpatialBakedHistogramWboit => self.render_histogram_wboit(
                visible,
                if loaded { 1 } else { 0 },
            ),
            RenderMode::HighQualitySpatialBakedWboit => self.render_histogram_wboit(
                visible,
                if loaded { 2 } else { 0 },
            ),
            RenderMode::DoubleSampleFrontWboit => self.render_histogram_wboit(
                visible,
                if loaded { 3 } else { 0 },
            ),
            RenderMode::DepthSlicedOit => self.render_depth_sliced(),
        }
    }

    /// Decides what happens to a frame. A frame that is drawn moves on to the other half of
    /// the double buffer; one that is skipped changes nothing.
    pub fn render(&mut self, visible: &[usize], status: SurfaceStatus) -> (action: FrameAction)
        requires
            old(self).well_formed(),
            old(self).has_meshes(visible@),
        ensures
            final(self).well_formed(),
            match status {
                SurfaceStatus::Ready => {
                    &&& action matches FrameAction::Draw(plan) && plan_view(plan@)
                        == old(self).frame_plan(visible@)
                    &&& *final(self) == (Renderer {
                        frame_index: other_half(old(self).frame_index),
                        ..*old(self)
                    })
                },
                SurfaceStatus::Lost | SurfaceStatus::Outdated => action is Reconfigure
                    && *final(self) == *old(self),
                SurfaceStatus::Failed => action is Report && *final(self) == *old(self),
            },
    {
        match status {
            SurfaceStatus::Ready => {
                let plan = self.encode_frame(visible);
                self.frame_index = 1 - self.frame_index;
                FrameAction::Draw(plan)
            },
            SurfaceStatus::Lost | SurfaceStatus::Outdated => FrameAction::Reconfigure,
            SurfaceStatus::Failed => FrameAction::Report,
        }
    }

    /// The passes of a frame that is read back instead of presented: exactly those that
    /// `render` runs.
    pub fn capture_linear_rgba(&mut self, visible: &[usize]) -> (plan: Vec<PassPlan>)
        requires
            old(self).well_formed(),
            old(self).has_meshes(visible@),
        ensures
            final(self).well_formed(),
            plan_view(plan@) == old(self).frame_plan(visible@),
            *final(self) == (Renderer {
                frame_index: other_half(old(self).frame_index),
                ..*old(self)
            }),
    {
        let plan = self.encode_frame(visible);
        self.frame_index = 1 - self.frame_index;
        plan
    }
}

/// The splats of a scene as words, sixteen for each.
pub open spec fn splat_words(gpu: Seq<crate::splats::SplatGpu>) -> Seq<u32> {
    Seq::new(gpu.len() * 16, |j: int| gpu[j / 16].words()[j % 16])
}

proof fn lemma_visible_fit(scene: Scene, list: Seq<usize>)
    requires
        is_visible_list(scene, list),
    ensures
        list.len() <= scene.objects@.len(),
        forall|i: int| 0 <= i < list.len() ==> (#[trigger] list[i]) < scene.objects@.len(),
{
    assert forall|i: int| 0 <= i < list.len() implies (#[trigger] list[i])
        < scene.objects@.len() by {
        assert(list.contains(list[i]));
    }
    if list.len() > 0 {
        lemma_increasing_grows(list, list.len() - 1);
    }
}

proof fn lemma_increasing_grows(list: Seq<usize>, i: int)
    requires
        is_increasing(list),
        0 <= i < list.len(),
    ensures
        list[i] >= i,
    decreases i,
{
    if i > 0 {
        lemma_increasing_grows(list, i - 1);
    }
}

/// Workgroups of eight pixels cover a size, and none lies outside it altogether.
pub proof fn workgroups_cover(size: u32)
    requires
        size > 0,
    ensures
        8 * (workgroups(size) - 1) < size <= 8 * workgroups(size),
{
}

/// Which prior a mode samples. Without splats there is none.
pub proof fn priors_have_their_modes(mode: RenderMode)
    ensures
        prior_of(mode, false) is None,
        prior_of(mode, true) == Some(PriorKind::Directional) <==> mode
            == RenderMode::DirectionalHistogramWboit,
        prior_of(mode, true) == Some(PriorKind::Spatial) <==> mode
            == RenderMode::SpatialBakedHistogramWboit,
        prior_of(mode, true) == Some(PriorKind::HighQualitySpatial) <==> mode
            == RenderMode::HighQualitySpatialBakedWboit || mode
            == RenderMode::DoubleSampleFrontWboit || mode == RenderMode::DepthSlicedOit,
{
}

/// A back-to-front list shows every visible object once and no other; the objects recede from
/// its end to its start, and those at the same distance are in the order of the scene.
pub proof fn back_to_front_lists_recede(
    scene: Scene,
    distances: Seq<u32>,
    list: Seq<usize>,
    i: int,
    j: int,
)
    requires
        is_back_to_front_list(scene, distances, list),
        0 <= i < j < list.len(),
    ensures
        list[i] != list[j],
        scene.is_visible(list[i] as int),
        scene.is_visible(list[j] as int),
        !ieee::is_nan(distances[list[i] as int]) && !ieee::is_nan(distances[list[j] as int]) ==> {
            let front = ieee::value(distances[list[i] as int]);
            let back = ieee::value(distances[list[j] as int]);
            front > back || (front == back && list[i] < list[j])
        },
{
    let (shown, order) = choose|shown: Seq<usize>, order: Seq<u32>|
        #![trigger is_visible_list(scene, shown), gathered(shown, order)]
        is_visible_list(scene, shown) && is_stable_descending(
            ranks(distances_of(shown, distances)),
            order,
        ) && list == gathered(shown, order);
    crate::scene::sorting_keeps_ties_in_order(shown, distances, order, i, j);
    assert(shown.contains(shown[order[i] as int]));
    assert(shown.contains(shown[order[j] as int]));
    if !ieee::is_nan(distances[list[i] as int]) && !ieee::is_nan(distances[list[j] as int]) {
        crate::scene::sorted_objects_recede(shown, distances, order, i, j);
    }
}

/// A back-to-front list leaves no visible object out.
pub proof fn back_to_front_lists_are_complete(
    scene: Scene,
    distances: Seq<u32>,
    list: Seq<usize>,
    object: usize,
)
    requires
        is_back_to_front_list(scene, distances, list),
        scene.is_visible(object as int),
    ensures
        list.contains(object),
{
    let (shown, order) = choose|shown: Seq<usize>, order: Seq<u32>|
        #![trigger is_visible_list(scene, shown), gathered(shown, order)]
        is_visible_list(scene, shown) && is_stable_descending(
            ranks(distances_of(shown, distances)),
            order,
        ) && list == gathered(shown, order);
    assert(shown.contains(object));
    let at = choose|at: int| 0 <= at < shown.len() && shown[at] == object;
    crate::order::stable_descending_is_permutation(ranks(distances_of(shown, distances)), order);
    crate::order::gathering_keeps_contents(shown, order);
    shown.to_multiset_ensures();
    list.to_multiset_ensures();
    assert(shown.to_multiset().count(object) > 0);
}

/// The words of a scene's splats: sixteen for each, in the order of the scene.
pub proof fn splat_words_follow_the_scene(gpu: Seq<crate::splats::SplatGpu>, i: int, c: int)
    requires
        0 <= i < gpu.len(),
        0 <= c < 4,
    ensures
        splat_words(gpu).len() == 16 * gpu.len(),
        splat_words(gpu)[16 * i + c] == gpu[i].pos_opacity@[c],
        splat_words(gpu)[16 * i + 4 + c] == gpu[i].cov_a@[c],
        splat_words(gpu)[16 * i + 8 + c] == gpu[i].cov_b@[c],
        splat_words(gpu)[16 * i + 12 + c] == gpu[i].color@[c],
{
    crate::splats::words_hold_the_vectors(gpu[i], c);
    assert((16 * i + c) / 16 == i && (16 * i + c) % 16 == c);
    assert((16 * i + 4 + c) / 16 == i && (16 * i + 4 + c) % 16 == 4 + c);
    assert((16 * i + 8 + c) / 16 == i && (16 * i + 8 + c) % 16 == 8 + c);
    assert((16 * i + 12 + c) / 16 == i && (16 * i + 12 + c) % 16 == 12 + c);
}

/// A list of what is visible shows every visible object once, in the order of the scene.
pub proof fn visible_lists_are_complete(scene: Scene, list: Seq<usize>, object: usize, i: int, j: int)
    requires
        is_visible_list(scene, list),
    ensures
        list.contains(object) <==> object < scene.objects@.len() && (scene.show_meshes
            || !scene.objects@[object as int].is_extra_mesh),
        0 <= i < j < list.len() ==> list[i] < list[j],
{
}

} // verus!
