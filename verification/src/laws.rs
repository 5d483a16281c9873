//! What holds of every frame, whatever the mode, the scene and the size of the surface.
use crate::frame::{
    binds, color_attachments, depth_attachment, draws_to, holds_sized, is_compute, is_group,
    is_image, is_sized, other_half, resources, texture_model, BindGroup, Pass, Pipeline,
    RenderMode, Resource, Step, Texture,
};
use crate::renderer::{baked_level, mesh_steps, Renderer};
use vstd::prelude::*;

verus! {

/// Whether a step binds nothing but what drawing a scene needs.
spec fn is_scene_step(step: Step, half: usize) -> bool {
    step matches Step::SetBindGroup { slot, group } ==> group == BindGroup::Camera || group
        == BindGroup::Splat || group is Object || group == BindGroup::HistoAccum(half)
}

proof fn lemma_mesh_steps(visible: Seq<usize>, index_counts: Seq<u32>, half: usize)
    ensures
        forall|k: int|
            0 <= k < mesh_steps(visible, index_counts).len() ==> is_scene_step(
                #[trigger] mesh_steps(visible, index_counts)[k],
                half,
            ),
    decreases visible.len(),
{
    if visible.len() > 0 {
        let front = mesh_steps(visible.drop_last(), index_counts);
        lemma_mesh_steps(visible.drop_last(), index_counts, half);
        assert forall|k: int| 0 <= k < mesh_steps(visible, index_counts).len() implies
            is_scene_step(#[trigger] mesh_steps(visible, index_counts)[k], half) by {
            if k < front.len() {
                assert(mesh_steps(visible, index_counts)[k] == front[k]);
            }
        }
    }
}

proof fn lemma_scene_steps(r: Renderer, visible: Seq<usize>, mode: RenderMode)
    ensures
        forall|k: int|
            0 <= k < r.scene_steps(visible, mode).len() ==> is_scene_step(
                #[trigger] r.scene_steps(visible, mode)[k],
                r.frame_index,
            ),
{
    lemma_mesh_steps(visible, r.index_counts@, r.frame_index);
}

/// Which bind groups a pass uses.
spec fn is_step_of(pass: Pass, step: Step, half: usize) -> bool {
    step matches Step::SetBindGroup { slot, group } ==> match pass {
        Pass::AlphaBlend | Pass::WboitAccum | Pass::HistoAccum | Pass::SlicedAccum =>
            is_scene_step(step, half),
        Pass::FrontFeature | Pass::FrontFeatureAlt | Pass::SlicedFrontCore | Pass::SlicedFringe =>
            group == BindGroup::Camera || group == BindGroup::Splat,
        Pass::WboitComposite => group == BindGroup::WboitComposite(half),
        Pass::HistoComposite => group == BindGroup::HistoComposite(half),
        Pass::SlicedComposite => group == BindGroup::DepthSliceComposite,
        Pass::FrontColorFilter => group == BindGroup::FrontColorFilter,
        Pass::SpatialCdfBuild | Pass::CdfBuild | Pass::SlicedCdfBuild => group
            == BindGroup::CdfBuild,
    }
}

proof fn lemma_plan_steps(r: Renderer, visible: Seq<usize>, i: int, k: int)
    requires
        0 <= i < r.frame_plan(visible).len(),
        0 <= k < r.frame_plan(visible)[i].1.len(),
    ensures
        is_step_of(
            r.frame_plan(visible)[i].0,
            r.frame_plan(visible)[i].1[k],
            r.frame_index,
        ),
{
    lemma_scene_steps(r, visible, RenderMode::AlphaBlend);
    lemma_scene_steps(r, visible, RenderMode::NaiveWboit);
    lemma_scene_steps(r, visible, r.mode);
}

/// No pass reads an image that it draws to.
pub proof fn no_pass_reads_its_own_target(
    r: Renderer,
    visible: Seq<usize>,
    i: int,
    k: int,
    texture: Texture,
)
    requires
        r.well_formed(),
        0 <= i < r.frame_plan(visible).len(),
        0 <= k < r.frame_plan(visible)[i].1.len(),
        binds(r.frame_plan(visible)[i].1[k], texture),
    ensures
        !draws_to(r.frame_plan(visible)[i].0, r.frame_index, texture),
{
    lemma_plan_steps(r, visible, i, k);
    let step = r.frame_plan(visible)[i].1[k];
    if let Step::SetBindGroup { slot, group } = step {
        lemma_bound_textures(group, texture);
        lemma_drawn_textures(r.frame_plan(visible)[i].0, r.frame_index, texture);
    }
}

/// The images of a bind group, one by one.
proof fn lemma_bound_textures(group: BindGroup, texture: Texture)
    requires
        resources(group).contains(Resource::Texture(texture)),
    ensures
        match group {
            BindGroup::HistoAccum(half) => texture == Texture::Cdf || texture == Texture::Revealage(
                other_half(half),
            ) || texture == Texture::FrontFeature || texture == Texture::FrontFeatureAlt || texture
                == Texture::FrontColorFiltered || texture == Texture::TileOpticalDepth,
            BindGroup::WboitComposite(half) => texture == Texture::Accum || texture
                == Texture::Revealage(half),
            BindGroup::HistoComposite(half) => texture == Texture::Accum || texture
                == Texture::Revealage(half),
            BindGroup::CdfBuild => texture == Texture::Cdf || texture == Texture::TileOpticalDepth,
            BindGroup::FrontColorFilter => texture == Texture::FrontFeatureAlt || texture
                == Texture::FrontColorFiltered,
            BindGroup::DepthSliceComposite => texture is DepthSlice,
            _ => false,
        },
{
    let list = resources(group);
    let at = choose|at: int| 0 <= at < list.len() && list[at] == Resource::Texture(texture);
}

/// The images that a pass draws to, one by one.
proof fn lemma_drawn_textures(pass: Pass, half: usize, texture: Texture)
    ensures
        draws_to(pass, half, texture) ==> match pass {
            Pass::AlphaBlend => texture == Texture::Output || texture == Texture::Depth,
            Pass::WboitComposite | Pass::HistoComposite | Pass::SlicedComposite => texture
                == Texture::Output,
            Pass::WboitAccum | Pass::HistoAccum => texture == Texture::Accum || texture
                == Texture::Revealage(half) || texture == Texture::Depth,
            Pass::FrontFeature => texture == Texture::FrontFeature || texture
                == Texture::FrontFeatureDepth,
            Pass::SlicedFrontCore => texture == Texture::FrontFeature || texture == Texture::Depth,
            Pass::FrontFeatureAlt | Pass::SlicedFringe => texture == Texture::FrontFeatureAlt
                || texture == Texture::FrontFeatureAltDepth,
            Pass::SlicedAccum => texture is DepthSlice || texture == Texture::Depth,
            _ => false,
        },
{
}

/// An image that a frame draws is read by later passes of that frame only.
pub proof fn images_are_drawn_before_they_are_read(
    r: Renderer,
    visible: Seq<usize>,
    i: int,
    j: int,
    k: int,
    texture: Texture,
)
    requires
        r.well_formed(),
        0 <= i < r.frame_plan(visible).len(),
        0 <= j < r.frame_plan(visible).len(),
        0 <= k < r.frame_plan(visible)[j].1.len(),
        draws_to(r.frame_plan(visible)[i].0, r.frame_index, texture),
        binds(r.frame_plan(visible)[j].1[k], texture),
    ensures
        i < j,
{
    lemma_plan_steps(r, visible, j, k);
    lemma_drawn_textures(r.frame_plan(visible)[i].0, r.frame_index, texture);
    if let Step::SetBindGroup { slot, group } = r.frame_plan(visible)[j].1[k] {
        lemma_bound_textures(group, texture);
    }
}

/// Every image is made for what the passes do with it: those that are drawn to can be drawn
/// to, those that are bound can be read or written by shaders.
pub proof fn images_allow_their_use(
    r: Renderer,
    visible: Seq<usize>,
    i: int,
    k: int,
    texture: Texture,
)
    requires
        0 <= i < r.frame_plan(visible).len(),
        0 <= k < r.frame_plan(visible)[i].1.len(),
    ensures
        draws_to(r.frame_plan(visible)[i].0, r.frame_index, texture) ==> texture_model(
            texture,
            r.width,
            r.height,
            r.histo_params,
        ).attachment,
        binds(r.frame_plan(visible)[i].1[k], texture) ==> texture_model(
            texture,
            r.width,
            r.height,
            r.histo_params,
        ).sampled,
{
    lemma_plan_steps(r, visible, i, k);
    lemma_drawn_textures(r.frame_plan(visible)[i].0, r.frame_index, texture);
    if let Step::SetBindGroup { slot, group } = r.frame_plan(visible)[i].1[k] {
        if resources(group).contains(Resource::Texture(texture)) {
            lemma_bound_textures(group, texture);
        }
    }
}

/// A frame draws to the output exactly once, in its last pass.
pub proof fn output_is_drawn_last(r: Renderer, visible: Seq<usize>, i: int)
    requires
        0 <= i < r.frame_plan(visible).len(),
    ensures
        draws_to(r.frame_plan(visible)[i].0, r.frame_index, Texture::Output) <==> i
            == r.frame_plan(visible).len() - 1,
{
    let pass = r.frame_plan(visible)[i].0;
    lemma_drawn_textures(pass, r.frame_index, Texture::Output);
    assert(color_attachments(pass, r.frame_index).len() > 0 ==> color_attachments(
        pass,
        r.frame_index,
    ).contains(color_attachments(pass, r.frame_index)[0]));
}

/// A frame has no passes only in the depth-sliced mode without splats.
pub proof fn frames_have_passes(r: Renderer, visible: Seq<usize>)
    ensures
        r.frame_plan(visible).len() == 0 <==> r.mode == RenderMode::DepthSlicedOit && r.splats
            is None,
{
}

/// A pass that loads depths finds those of an earlier pass of the same frame: one that stored
/// them in that image, with no pass in between that uses it.
pub proof fn loaded_depths_were_stored(r: Renderer, visible: Seq<usize>, i: int) -> (stored: int)
    requires
        0 <= i < r.frame_plan(visible).len(),
        depth_attachment(r.frame_plan(visible)[i].0) matches Some(target) && target.load,
    ensures
        0 <= stored < i,
        depth_attachment(r.frame_plan(visible)[stored].0) matches Some(target) && target.store
            && target.texture == depth_attachment(r.frame_plan(visible)[i].0)->0.texture,
        forall|k: int|
            stored < k < i ==> !draws_to(
                (#[trigger] r.frame_plan(visible)[k]).0,
                r.frame_index,
                depth_attachment(r.frame_plan(visible)[i].0)->0.texture,
            ),
{
    assert(r.frame_plan(visible)[i].0 == Pass::SlicedAccum);
    assert(r.frame_plan(visible) == r.depth_sliced_plan());
    assert forall|k: int| 1 < k < 4 implies !draws_to(
        (#[trigger] r.frame_plan(visible)[k]).0,
        r.frame_index,
        Texture::Depth,
    ) by {
        lemma_drawn_textures(r.frame_plan(visible)[k].0, r.frame_index, Texture::Depth);
    }
    1
}

/// Only the slices of the depth-sliced mode load depths: those of the front core, which is drawn
/// before them.
pub proof fn slices_start_from_the_front_core(r: Renderer, visible: Seq<usize>, i: int)
    requires
        0 <= i < r.frame_plan(visible).len(),
    ensures
        (depth_attachment(r.frame_plan(visible)[i].0) matches Some(target) && target.load) <==> r.frame_plan(
            visible,
        )[i].0 == Pass::SlicedAccum,
        r.frame_plan(visible)[i].0 == Pass::SlicedAccum ==> i == 4 && r.frame_plan(visible)[1].0
            == Pass::SlicedFrontCore && depth_attachment(Pass::SlicedFrontCore)->0.texture
            == depth_attachment(Pass::SlicedAccum)->0.texture,
{
}

/// Every image that a frame draws to or binds is the output or one that is made anew for a new
/// size, and every bind group that holds one is made anew with it.
pub proof fn resizing_reaches_every_image(
    r: Renderer,
    visible: Seq<usize>,
    i: int,
    k: int,
    texture: Texture,
)
    requires
        r.well_formed(),
        0 <= i < r.frame_plan(visible).len(),
        0 <= k < r.frame_plan(visible)[i].1.len(),
    ensures
        draws_to(r.frame_plan(visible)[i].0, r.frame_index, texture) ==> texture == Texture::Output
            || is_image(texture),
        binds(r.frame_plan(visible)[i].1[k], texture) ==> is_image(texture),
        binds(r.frame_plan(visible)[i].1[k], texture) ==> (
        r.frame_plan(visible)[i].1[k] matches Step::SetBindGroup { slot, group } && is_group(group)
            && holds_sized(group)),
{
    let pass = r.frame_plan(visible)[i].0;
    lemma_plan_steps(r, visible, i, k);
    lemma_drawn_textures(pass, r.frame_index, texture);
    if draws_to(pass, r.frame_index, texture) && texture is DepthSlice {
        let list = color_attachments(pass, r.frame_index);
        let at = choose|at: int| 0 <= at < list.len() && list[at] == texture;
        assert(list[at] == texture);
    }
    if let Step::SetBindGroup { slot, group } = r.frame_plan(visible)[i].1[k] {
        if resources(group).contains(Resource::Texture(texture)) {
            lemma_bound_textures(group, texture);
            let list = resources(group);
            let at = choose|at: int| 0 <= at < list.len() && list[at] == Resource::Texture(texture);
            assert(is_sized(list[at]));
        }
    }
}

/// Splats replace the meshes entirely: once a splat scene is loaded no mesh is drawn, and
/// every pass that draws splats draws as many as the render cap allows.
pub proof fn splats_replace_meshes(r: Renderer, visible: Seq<usize>, i: int, k: int)
    requires
        r.splats is Some,
        0 <= i < r.frame_plan(visible).len(),
        0 <= k < r.frame_plan(visible)[i].1.len(),
    ensures
        !(r.frame_plan(visible)[i].1[k] is SetMesh),
        !(r.frame_plan(visible)[i].1[k] is DrawIndexed),
        r.frame_plan(visible)[i].1[k] matches Step::Draw { vertices, instances } ==> (vertices == 4
            && instances == r.draw_count()) || (vertices == 3 && instances == 1),
{
}

/// Compute passes dispatch and render passes draw: neither does what the other does.
pub proof fn compute_passes_dispatch(r: Renderer, visible: Seq<usize>, i: int, k: int)
    requires
        0 <= i < r.frame_plan(visible).len(),
        0 <= k < r.frame_plan(visible)[i].1.len(),
    ensures
        r.frame_plan(visible)[i].1[k] is Dispatch ==> is_compute(r.frame_plan(visible)[i].0),
        r.frame_plan(visible)[i].1[k] is Draw ==> !is_compute(r.frame_plan(visible)[i].0),
        is_compute(r.frame_plan(visible)[i].0) ==> color_attachments(
            r.frame_plan(visible)[i].0,
            r.frame_index,
        ).len() == 0 && depth_attachment(r.frame_plan(visible)[i].0) is None,
{
    lemma_no_dispatch(visible, r.index_counts@);
}

proof fn lemma_no_dispatch(visible: Seq<usize>, index_counts: Seq<u32>)
    ensures
        forall|k: int|
            0 <= k < mesh_steps(visible, index_counts).len() ==> !((
            #[trigger] mesh_steps(visible, index_counts)[k]) is Dispatch),
    decreases visible.len(),
{
    if visible.len() > 0 {
        lemma_no_dispatch(visible.drop_last(), index_counts);
    }
}

/// A frame of a histogram mode has its cumulative histogram ready before it draws where the
/// histogram is baked, and builds the next frame's one after drawing where it is live.
pub proof fn cumulative_histogram_is_timely(r: Renderer, visible: Seq<usize>, build: int, draw: int)
    requires
        r.mode.reads_histograms(),
        0 <= build < r.frame_plan(visible).len(),
        0 <= draw < r.frame_plan(visible).len(),
        r.frame_plan(visible)[build].0 == Pass::SpatialCdfBuild || r.frame_plan(visible)[build].0
            == Pass::CdfBuild,
        r.frame_plan(visible)[draw].0 == Pass::HistoAccum,
    ensures
        r.frame_plan(visible)[build].0 == Pass::SpatialCdfBuild <==> baked_level(
            r.mode,
            r.splats is Some,
        ) != 0,
        r.frame_plan(visible)[build].0 == Pass::SpatialCdfBuild <==> build < draw,
{
}

/// What one frame records as coverage is what the next frame reads, and no frame reads the
/// half that it records.
pub proof fn next_frame_reads_recorded_coverage(half: usize)
    requires
        half < 2,
    ensures
        color_attachments(Pass::HistoAccum, half).contains(Texture::Revealage(half)),
        resources(BindGroup::HistoAccum(other_half(half))).contains(
            Resource::Texture(Texture::Revealage(half)),
        ),
        !resources(BindGroup::HistoAccum(half)).contains(
            Resource::Texture(Texture::Revealage(half)),
        ),
        other_half(other_half(half)) == half,
{
    assert(color_attachments(Pass::HistoAccum, half)[1] == Texture::Revealage(half));
    assert(resources(BindGroup::HistoAccum(other_half(half)))[4] == Resource::Texture(
        Texture::Revealage(half),
    ));
    if resources(BindGroup::HistoAccum(half)).contains(
        Resource::Texture(Texture::Revealage(half)),
    ) {
        lemma_bound_textures(BindGroup::HistoAccum(half), Texture::Revealage(half));
    }
}

/// Modes have distinct numbers.
pub proof fn modes_have_distinct_numbers(a: RenderMode, b: RenderMode)
    ensures
        1 <= a.key() <= 8,
        a.key() == b.key() ==> a == b,
{
}

/// Whether a pass draws the scene.
pub open spec fn draws_scene(pass: Pass) -> bool {
    pass == Pass::AlphaBlend || pass == Pass::WboitAccum || pass == Pass::HistoAccum || pass
        == Pass::FrontFeature || pass == Pass::FrontFeatureAlt || pass == Pass::SlicedFrontCore
        || pass == Pass::SlicedFringe || pass == Pass::SlicedAccum
}

/// Whether a pass resolves accumulated images into the output.
pub open spec fn resolves(pass: Pass) -> bool {
    pass == Pass::WboitComposite || pass == Pass::HistoComposite || pass == Pass::SlicedComposite
}

/// A pass either draws the scene, or resolves it, or computes.
pub proof fn passes_have_one_purpose(pass: Pass)
    ensures
        draws_scene(pass) ==> !resolves(pass) && !is_compute(pass),
        resolves(pass) ==> !is_compute(pass),
        draws_scene(pass) || resolves(pass) || is_compute(pass),
{
}

/// With splats loaded, every pass that draws the scene draws once, as its last step, and draws one
/// quad for each splat that the render cap keeps.
#[verifier::rlimit(60)]
pub proof fn scene_passes_draw_every_kept_splat(r: Renderer, visible: Seq<usize>, i: int, k: int)
    requires
        r.splats is Some,
        0 <= i < r.frame_plan(visible).len(),
        draws_scene(r.frame_plan(visible)[i].0),
        0 <= k < r.frame_plan(visible)[i].1.len(),
    ensures
        r.frame_plan(visible)[i].1[k] is Draw <==> k == r.frame_plan(visible)[i].1.len() - 1,
        r.frame_plan(visible)[i].1.last() == (Step::Draw {
            vertices: 4,
            instances: r.splats->0.draw_count,
        }),
        !(r.frame_plan(visible)[i].1[k] is DrawIndexed),
        !(r.frame_plan(visible)[i].1[k] is SetMesh),
        !(r.frame_plan(visible)[i].1[k] is Dispatch),
{
    match r.mode {
        RenderMode::AlphaBlend => {
            assert(r.frame_plan(visible) == r.alpha_blend_plan(visible));
        },
        RenderMode::NaiveWboit => {
            assert(r.frame_plan(visible) == r.naive_wboit_plan(visible));
        },
        RenderMode::DepthSlicedOit => {
            assert(r.frame_plan(visible) == r.depth_sliced_plan());
        },
        _ => {
            assert(r.frame_plan(visible) == r.histogram_plan(visible));
        },
    }
}

/// A pass that resolves draws one triangle, once, as its last step; one that computes dispatches
/// once and draws nothing. Neither has more than its program, its group and that step.
#[verifier::rlimit(40)]
pub proof fn other_passes_do_one_thing(r: Renderer, visible: Seq<usize>, i: int, k: int)
    requires
        0 <= i < r.frame_plan(visible).len(),
        !draws_scene(r.frame_plan(visible)[i].0),
        0 <= k < r.frame_plan(visible)[i].1.len(),
    ensures
        r.frame_plan(visible)[i].1.len() == 3,
        r.frame_plan(visible)[i].1[k] is SetPipeline <==> k == 0,
        r.frame_plan(visible)[i].1[k] is SetBindGroup <==> k == 1,
        resolves(r.frame_plan(visible)[i].0) ==> r.frame_plan(visible)[i].1[2] == (Step::Draw {
            vertices: 3,
            instances: 1,
        }),
        is_compute(r.frame_plan(visible)[i].0) ==> r.frame_plan(visible)[i].1[2] is Dispatch,
        r.frame_plan(visible)[i].1[1]->slot == 0,
{
}

/// Whether a step of a pass is the binding of a group at a slot.
pub open spec fn binds_group(steps: Seq<Step>, slot: u32, group: BindGroup) -> bool {
    steps.contains(Step::SetBindGroup { slot, group })
}

/// With splats loaded, a pass that draws the scene binds the camera and the splats, and what the
/// histograms need where it weights by them; beside that it has one program and its draw.
#[verifier::rlimit(40)]
pub proof fn splat_passes_bind_what_they_draw(r: Renderer, visible: Seq<usize>, i: int)
    requires
        r.splats is Some,
        0 <= i < r.frame_plan(visible).len(),
        draws_scene(r.frame_plan(visible)[i].0),
    ensures
        ({
            let (pass, steps) = r.frame_plan(visible)[i];
            let weighted = pass == Pass::HistoAccum || pass == Pass::SlicedAccum;
            &&& binds_group(steps, 0, BindGroup::Camera)
            &&& binds_group(steps, 1, BindGroup::Splat)
            &&& weighted ==> binds_group(steps, 2, BindGroup::HistoAccum(r.frame_index))
            &&& steps.len() == if weighted {
                5nat
            } else {
                4
            }
            &&& exists|k: int| 0 <= k < steps.len() && #[trigger] steps[k] is SetPipeline
        }),
{
    let (pass, steps) = r.frame_plan(visible)[i];
    if steps[0] is SetPipeline {
        assert(steps[1] == (Step::SetBindGroup { slot: 0, group: BindGroup::Camera }));
        assert(steps[2] == (Step::SetBindGroup { slot: 1, group: BindGroup::Splat }));
    } else {
        assert(steps[0] == (Step::SetBindGroup { slot: 0, group: BindGroup::Camera }));
        assert(steps[1] is SetPipeline);
        assert(steps[2] == (Step::SetBindGroup { slot: 1, group: BindGroup::Splat }));
    }
    if pass == Pass::HistoAccum || pass == Pass::SlicedAccum {
        assert(steps[3] == (Step::SetBindGroup {
            slot: 2,
            group: BindGroup::HistoAccum(r.frame_index),
        }));
    }
}

/// Groups go to the slots that the programs expect, with the half of the double buffer that the
/// frame writes.
#[verifier::rlimit(60)]
pub proof fn groups_go_to_their_slots(r: Renderer, visible: Seq<usize>, i: int, k: int)
    requires
        0 <= i < r.frame_plan(visible).len(),
        0 <= k < r.frame_plan(visible)[i].1.len(),
        r.frame_plan(visible)[i].1[k] is SetBindGroup,
    ensures
        ({
            let pass = r.frame_plan(visible)[i].0;
            let slot = r.frame_plan(visible)[i].1[k]->slot;
            match r.frame_plan(visible)[i].1[k]->group {
                BindGroup::Camera => slot == 0 && draws_scene(pass),
                BindGroup::Splat => slot == 1 && draws_scene(pass) && r.splats is Some,
                BindGroup::Object(_) => slot == 1 && draws_scene(pass) && r.splats is None,
                BindGroup::HistoAccum(half) => slot == 2 && (pass == Pass::HistoAccum || pass
                    == Pass::SlicedAccum) && half == r.frame_index,
                BindGroup::WboitComposite(half) => slot == 0 && pass == Pass::WboitComposite && half
                    == r.frame_index,
                BindGroup::HistoComposite(half) => slot == 0 && pass == Pass::HistoComposite && half
                    == r.frame_index,
                BindGroup::DepthSliceComposite => slot == 0 && pass == Pass::SlicedComposite,
                BindGroup::FrontColorFilter => slot == 0 && pass == Pass::FrontColorFilter,
                BindGroup::CdfBuild => slot == 0 && (pass == Pass::CdfBuild || pass
                    == Pass::SpatialCdfBuild || pass == Pass::SlicedCdfBuild),
            }
        }),
{
    lemma_mesh_slots(visible, r.index_counts@);
    match r.mode {
        RenderMode::AlphaBlend => {
            assert(r.frame_plan(visible) == r.alpha_blend_plan(visible));
        },
        RenderMode::NaiveWboit => {
            assert(r.frame_plan(visible) == r.naive_wboit_plan(visible));
        },
        RenderMode::DepthSlicedOit => {
            assert(r.frame_plan(visible) == r.depth_sliced_plan());
        },
        _ => {
            assert(r.frame_plan(visible) == r.histogram_plan(visible));
        },
    }
}

proof fn lemma_mesh_slots(visible: Seq<usize>, index_counts: Seq<u32>)
    ensures
        forall|k: int|
            0 <= k < mesh_steps(visible, index_counts).len() ==> ((
            #[trigger] mesh_steps(visible, index_counts)[k]) matches Step::SetBindGroup {
                slot,
                group,
            } ==> slot == 1 && group is Object),
    decreases visible.len(),
{
    if visible.len() > 0 {
        let front = mesh_steps(visible.drop_last(), index_counts);
        lemma_mesh_slots(visible.drop_last(), index_counts);
        assert forall|k: int| 0 <= k < mesh_steps(visible, index_counts).len() implies ((
        #[trigger] mesh_steps(visible, index_counts)[k]) matches Step::SetBindGroup { slot, group }
            ==> slot == 1 && group is Object) by {
            if k < front.len() {
                assert(mesh_steps(visible, index_counts)[k] == front[k]);
            }
        }
    }
}

/// Objects are drawn one after the other in the given order: each with its own group and mesh, and
/// with as many indices as it has.
pub proof fn objects_are_drawn_in_order(visible: Seq<usize>, index_counts: Seq<u32>, j: int)
    requires
        0 <= j < visible.len(),
    ensures
        mesh_steps(visible, index_counts).len() == 3 * visible.len(),
        mesh_steps(visible, index_counts)[3 * j] == (Step::SetBindGroup {
            slot: 1,
            group: BindGroup::Object(visible[j]),
        }),
        mesh_steps(visible, index_counts)[3 * j + 1] == Step::SetMesh(visible[j]),
        mesh_steps(visible, index_counts)[3 * j + 2] == (Step::DrawIndexed {
            indices: index_counts[visible[j] as int],
        }),
    decreases visible.len(),
{
    let front = visible.drop_last();
    lemma_mesh_step_count(front, index_counts);
    lemma_mesh_step_count(visible, index_counts);
    if j < front.len() {
        objects_are_drawn_in_order(front, index_counts, j);
    }
}

proof fn lemma_mesh_step_count(visible: Seq<usize>, index_counts: Seq<u32>)
    ensures
        mesh_steps(visible, index_counts).len() == 3 * visible.len(),
    decreases visible.len(),
{
    if visible.len() > 0 {
        lemma_mesh_step_count(visible.drop_last(), index_counts);
    }
}

/// Without splats the pass that draws the scene draws every listed object and no other, in the
/// order of the list, after the camera, the program and, where it weights by them, the histograms.
#[verifier::rlimit(40)]
pub proof fn mesh_passes_draw_every_object(r: Renderer, visible: Seq<usize>, i: int, j: int)
    requires
        r.splats is None,
        0 <= i < r.frame_plan(visible).len(),
        draws_scene(r.frame_plan(visible)[i].0),
    ensures
        ({
            let (pass, steps) = r.frame_plan(visible)[i];
            let front: int = if pass == Pass::HistoAccum {
                3
            } else {
                2
            };
            &&& steps.len() == front + 3 * visible.len()
            &&& steps[0] == (Step::SetBindGroup { slot: 0, group: BindGroup::Camera })
            &&& steps[1] is SetPipeline
            &&& pass == Pass::HistoAccum ==> steps[2] == (Step::SetBindGroup {
                slot: 2,
                group: BindGroup::HistoAccum(r.frame_index),
            })
            &&& 0 <= j < visible.len() ==> {
                &&& steps[front + 3 * j] == (Step::SetBindGroup {
                    slot: 1,
                    group: BindGroup::Object(visible[j]),
                })
                &&& steps[front + 3 * j + 1] == Step::SetMesh(visible[j])
                &&& steps[front + 3 * j + 2] == (Step::DrawIndexed {
                    indices: r.index_counts@[visible[j] as int],
                })
            }
        }),
{
    lemma_mesh_step_count(visible, r.index_counts@);
    if 0 <= j < visible.len() {
        objects_are_drawn_in_order(visible, r.index_counts@, j);
    }
}

/// Programs are used in the passes and modes that they are made for.
#[verifier::rlimit(40)]
pub proof fn programs_have_their_passes(r: Renderer, visible: Seq<usize>, i: int, k: int)
    requires
        0 <= i < r.frame_plan(visible).len(),
        0 <= k < r.frame_plan(visible)[i].1.len(),
        r.frame_plan(visible)[i].1[k] is SetPipeline,
    ensures
        ({
            let pass = r.frame_plan(visible)[i].0;
            let loaded = r.splats is Some;
            match r.frame_plan(visible)[i].1[k]->SetPipeline_0 {
                Pipeline::MeshAlpha => pass == Pass::AlphaBlend && !loaded,
                Pipeline::MeshWboit => pass == Pass::WboitAccum && !loaded,
                Pipeline::MeshHisto => pass == Pass::HistoAccum && !loaded,
                Pipeline::SplatAlpha => pass == Pass::AlphaBlend && loaded,
                Pipeline::SplatWboit => pass == Pass::WboitAccum && loaded,
                Pipeline::SplatHisto => pass == Pass::HistoAccum && loaded && (r.mode
                    == RenderMode::HistogramWboit || r.mode
                    == RenderMode::DirectionalHistogramWboit),
                Pipeline::SplatBakedHisto => pass == Pass::HistoAccum && loaded && r.mode
                    == RenderMode::SpatialBakedHistogramWboit,
                Pipeline::SplatFrontWeightedHisto => pass == Pass::HistoAccum && loaded && r.mode
                    == RenderMode::HighQualitySpatialBakedWboit,
                Pipeline::SplatDoubleFrontHisto => pass == Pass::HistoAccum && loaded && r.mode
                    == RenderMode::DoubleSampleFrontWboit,
                Pipeline::SplatDepthSliced => pass == Pass::SlicedAccum,
                Pipeline::FrontFeature => pass == Pass::FrontFeature || pass
                    == Pass::SlicedFrontCore,
                Pipeline::FrontFeatureAlt => pass == Pass::FrontFeatureAlt || pass
                    == Pass::SlicedFringe,
                Pipeline::FrontColorFilter => pass == Pass::FrontColorFilter,
                Pipeline::CdfBuild => pass == Pass::CdfBuild,
                Pipeline::SpatialCdfBuild => pass == Pass::SpatialCdfBuild && r.mode
                    == RenderMode::SpatialBakedHistogramWboit,
                Pipeline::HighQualitySpatialCdfBuild => pass == Pass::SlicedCdfBuild || (pass
                    == Pass::SpatialCdfBuild && r.mode != RenderMode::SpatialBakedHistogramWboit),
                Pipeline::WboitComposite => pass == Pass::WboitComposite,
                Pipeline::HistoComposite => pass == Pass::HistoComposite && r.mode
                    != RenderMode::DoubleSampleFrontWboit,
                Pipeline::FilteredHistoComposite => pass == Pass::HistoComposite && r.mode
                    == RenderMode::DoubleSampleFrontWboit,
                Pipeline::DepthSlicedComposite => pass == Pass::SlicedComposite,
            }
        }),
{
    lemma_no_program(visible, r.index_counts@);
}

proof fn lemma_no_program(visible: Seq<usize>, index_counts: Seq<u32>)
    ensures
        forall|k: int|
            0 <= k < mesh_steps(visible, index_counts).len() ==> !((
            #[trigger] mesh_steps(visible, index_counts)[k]) is SetPipeline),
    decreases visible.len(),
{
    if visible.len() > 0 {
        lemma_no_program(visible.drop_last(), index_counts);
    }
}

/// The passes of a frame depend on the mode and on whether splats are loaded, not on how many, nor
/// on the size of the surface, the objects or the half of the double buffer.
#[verifier::rlimit(40)]
pub proof fn passes_depend_on_the_mode(
    r: Renderer,
    other: Renderer,
    visible: Seq<usize>,
    other_visible: Seq<usize>,
    i: int,
)
    requires
        r.mode == other.mode,
        r.splats is Some <==> other.splats is Some,
    ensures
        r.frame_plan(visible).len() == other.frame_plan(other_visible).len(),
        0 <= i < r.frame_plan(visible).len() ==> r.frame_plan(visible)[i].0 == other.frame_plan(
            other_visible,
        )[i].0,
{
}

/// In which frames a pass occurs.
#[verifier::rlimit(40)]
pub proof fn passes_occur_where_needed(r: Renderer, visible: Seq<usize>, i: int)
    requires
        0 <= i < r.frame_plan(visible).len(),
    ensures
        ({
            let loaded = r.splats is Some;
            match r.frame_plan(visible)[i].0 {
                Pass::AlphaBlend => r.mode == RenderMode::AlphaBlend,
                Pass::WboitAccum | Pass::WboitComposite => r.mode == RenderMode::NaiveWboit,
                Pass::FrontFeature => loaded && (r.mode == RenderMode::HighQualitySpatialBakedWboit
                    || r.mode == RenderMode::DoubleSampleFrontWboit),
                Pass::FrontFeatureAlt => loaded && r.mode == RenderMode::DoubleSampleFrontWboit,
                Pass::SpatialCdfBuild => loaded && (r.mode == RenderMode::SpatialBakedHistogramWboit
                    || r.mode == RenderMode::HighQualitySpatialBakedWboit || r.mode
                    == RenderMode::DoubleSampleFrontWboit),
                Pass::CdfBuild => !loaded || r.mode == RenderMode::HistogramWboit || r.mode
                    == RenderMode::DirectionalHistogramWboit,
                Pass::HistoAccum | Pass::HistoComposite => r.mode != RenderMode::AlphaBlend && r.mode
                    != RenderMode::NaiveWboit && r.mode != RenderMode::DepthSlicedOit,
                _ => loaded && r.mode == RenderMode::DepthSlicedOit,
            }
        }),
{
}

/// No frame runs a pass twice.
#[verifier::rlimit(40)]
pub proof fn passes_run_once(r: Renderer, visible: Seq<usize>, i: int, j: int)
    requires
        0 <= i < j < r.frame_plan(visible).len(),
    ensures
        r.frame_plan(visible)[i].0 != r.frame_plan(visible)[j].0,
{
}

/// Compute passes cover what they are for: the histograms every tile, the filter every pixel in
/// workgroups of eight by eight, with none that lies outside altogether.
#[verifier::rlimit(40)]
pub proof fn compute_passes_cover_the_image(r: Renderer, visible: Seq<usize>, i: int)
    requires
        r.well_formed(),
        0 <= i < r.frame_plan(visible).len(),
        is_compute(r.frame_plan(visible)[i].0),
    ensures
        r.frame_plan(visible)[i].1.last() is Dispatch,
        ({
            let x = r.frame_plan(visible)[i].1.last()->x;
            let y = r.frame_plan(visible)[i].1.last()->y;
            if r.frame_plan(visible)[i].0 == Pass::FrontColorFilter {
                &&& 8 * (x - 1) < r.width <= 8 * x
                &&& 8 * (y - 1) < r.height <= 8 * y
            } else {
                &&& x == r.histo_params.tile_count_x
                &&& y == r.histo_params.tile_count_y
                &&& 32 * (x - 1) < r.width <= 32 * x
                &&& 32 * (y - 1) < r.height <= 32 * y
            }
        }),
{
    crate::surface::no_tile_is_empty(r.histo_params, r.width, r.height);
}

} // verus!
