use wboit_splats::frame::{
    color_targets, depth_target, group_entries, prior_buffer_size, runs_compute, sized_groups,
    sized_images, texture_spec, BindGroup, Buffer, DepthTarget, Pass, PassPlan, Pipeline, PixelFormat, RenderMode, Resource,
    Step, Texture,
};
use wboit_splats::ieee;
use wboit_splats::prior::flat_prior;
use wboit_splats::renderer::{initial_prior_params, FrameAction, PriorKind, Renderer, SurfaceStatus};
use wboit_splats::scene::{Mesh, Scene, SceneObject};
use wboit_splats::splats::{SplatGpu, SplatScene};

const MODES: [RenderMode; 8] = [
    RenderMode::AlphaBlend,
    RenderMode::NaiveWboit,
    RenderMode::HistogramWboit,
    RenderMode::DirectionalHistogramWboit,
    RenderMode::SpatialBakedHistogramWboit,
    RenderMode::HighQualitySpatialBakedWboit,
    RenderMode::DoubleSampleFrontWboit,
    RenderMode::DepthSlicedOit,
];

fn object(index_count: usize, extra: bool) -> SceneObject {
    let mesh = Mesh {
        vertices: vec![0x0102_0304; 2],
        indices: vec![0x0506; index_count],
    };
    SceneObject::new(mesh, [0; 16], ieee::ONE, extra)
}

fn meshes() -> Scene {
    Scene {
        objects: vec![object(6, false), object(36, true), object(99, true)],
        show_meshes: true,
        force_opaque: false,
        time: ieee::ZERO,
    }
}

fn splats(n: usize) -> SplatScene {
    let splat = SplatGpu {
        pos_opacity: [1; 4],
        cov_a: [2; 4],
        cov_b: [3; 4],
        color: [4; 4],
    };
    let mut scene = SplatScene::from_ply(&vec![splat; n], &vec![ieee::ONE; n], &[], 0);
    scene.set_bounds([0; 3], 5.0f32.to_bits(), &vec![0; n]);
    scene
}

fn with_meshes(mode: RenderMode) -> Renderer {
    let mut renderer = Renderer::new(1280, 720);
    renderer.upload_scene(&meshes());
    renderer.mode = mode;
    renderer
}

fn with_splats(mode: RenderMode) -> Renderer {
    let mut renderer = Renderer::new(1280, 720);
    renderer.upload_splats(&splats(10));
    renderer.mode = mode;
    renderer
}

fn passes(plan: &[PassPlan]) -> Vec<Pass> {
    plan.iter().map(|p| p.pass).collect()
}

#[test]
fn modes_have_numbers_and_names() {
    let names = [
        "Alpha Blend",
        "Naive WBOIT",
        "Histogram-Equalized WBOIT (tiled)",
        "Directional-Prior Histogram WBOIT (64 baked views)",
        "Spatial Baked Histogram WBOIT (atomics-free)",
        "HQ Spatial Bake + Realtime Front Feature",
        "HQ Front Feature + Two-Sample Confidence",
        "Four-Slice Optical-Depth OIT",
    ];
    for (i, mode) in MODES.iter().enumerate() {
        assert_eq!(mode.number(), i as u32 + 1);
        assert_eq!(RenderMode::from_number(i as u32 + 1), Some(*mode));
        assert_eq!(mode.name(), names[i]);
    }
    assert_eq!(RenderMode::from_number(0), None);
    assert_eq!(RenderMode::from_number(9), None);
}

#[test]
fn modes_by_what_they_read() {
    let histograms: Vec<u32> = MODES
        .iter()
        .filter(|m| m.uses_histograms())
        .map(|m| m.number())
        .collect();
    assert_eq!(histograms, vec![3, 4, 5, 6, 7]);
    let primed: Vec<u32> = MODES
        .iter()
        .filter(|m| m.needs_priming())
        .map(|m| m.number())
        .collect();
    assert_eq!(primed, vec![5, 6, 7]);
}

#[test]
fn a_new_renderer_is_empty() {
    let renderer = Renderer::new(0, 720);
    assert_eq!((renderer.width, renderer.height), (1, 720));
    assert_eq!(renderer.mode, RenderMode::DepthSlicedOit);
    assert_eq!(renderer.histo_params.words(), [1, 23, 64, 32]);
    assert!(!renderer.has_splats());
    assert_eq!(renderer.splat_draw_count(), 0);
}

#[test]
fn resizing_keeps_the_rest() {
    let mut renderer = with_splats(RenderMode::NaiveWboit);
    renderer.frame_index = 1;
    renderer.resize(640, 0);
    assert_eq!((renderer.width, renderer.height), (640, 1));
    assert_eq!(renderer.histo_params.words(), [20, 1, 64, 32]);
    assert_eq!(renderer.mode, RenderMode::NaiveWboit);
    assert_eq!(renderer.frame_index, 1);
    assert_eq!(renderer.splat_draw_count(), 10);
}

#[test]
fn splats_are_uploaded_whole() {
    let mut renderer = Renderer::new(8, 8);
    let upload = renderer.upload_splats(&splats(3));
    let words: Vec<u32> = [1u32, 2, 3, 4].iter().flat_map(|&v| [v; 4]).collect();
    let expected: Vec<u8> = words
        .iter()
        .cycle()
        .take(48)
        .flat_map(|w| w.to_ne_bytes())
        .collect();
    assert_eq!(upload.splats, expected);
    assert_eq!(upload.spherical_harmonics, vec![0; 4]);
    let order: Vec<u8> = [0u32, 1, 2].iter().flat_map(|w| w.to_ne_bytes()).collect();
    assert_eq!(upload.order, order);
    assert_eq!(upload.order_buffer_size, 12);
    assert!(renderer.has_splats());
    let state = renderer.splats.unwrap();
    assert_eq!((state.total, state.draw_count, state.splat_scale), (3, 3, ieee::ONE));
    assert_eq!(state.scene_radius, 5.0f32.to_bits());
}

#[test]
fn an_empty_splat_scene_still_has_an_order_buffer() {
    let mut renderer = Renderer::new(8, 8);
    let upload = renderer.upload_splats(&splats(0));
    assert!(upload.order.is_empty());
    assert_eq!(upload.order_buffer_size, 4);
}

#[test]
fn orders_are_uploaded_where_there_is_something_to_order() {
    let renderer = with_splats(RenderMode::AlphaBlend);
    let expected: Vec<u8> = [2u32, 1].iter().flat_map(|w| w.to_ne_bytes()).collect();
    assert_eq!(renderer.upload_splat_order(&[2, 1]), Some(expected));
    assert_eq!(renderer.upload_splat_order(&[]), None);
    assert_eq!(Renderer::new(8, 8).upload_splat_order(&[1]), None);
}

#[test]
fn the_render_cap_is_held() {
    let mut renderer = with_splats(RenderMode::AlphaBlend);
    assert_eq!(renderer.set_splat_fraction(5), Some((5, 10)));
    assert_eq!(renderer.splat_draw_count(), 5);
    assert_eq!(renderer.set_splat_fraction(0), Some((1, 10)));
    assert_eq!(renderer.set_splat_fraction(11), Some((10, 10)));
    assert_eq!(Renderer::new(8, 8).set_splat_fraction(5), None);
}

#[test]
fn the_splat_size_is_held() {
    let mut renderer = with_splats(RenderMode::AlphaBlend);
    let size = |scaled: f32| Some(scaled.to_bits());
    assert_eq!(renderer.adjust_splat_scale(1.15f32.to_bits()), size(1.15));
    assert_eq!(renderer.adjust_splat_scale(0.01f32.to_bits()), size(0.05));
    assert_eq!(renderer.adjust_splat_scale(9.2f32.to_bits()), size(8.0));
    assert_eq!(renderer.splats.unwrap().splat_scale, 8.0f32.to_bits());
    assert_eq!(Renderer::new(8, 8).adjust_splat_scale(ieee::ONE), None);
}

#[test]
fn meshes_are_uploaded_in_place_of_the_old_ones() {
    let mut renderer = Renderer::new(8, 8);
    renderer.upload_scene(&meshes());
    assert_eq!(renderer.index_counts, vec![6, 36, 99]);
    let uploads = renderer.upload_scene(&meshes());
    assert_eq!(uploads.len(), 3);
    assert_eq!(renderer.index_counts, vec![6, 36, 99]);
    let vertices: Vec<u8> = [0x0102_0304u32; 2]
        .iter()
        .flat_map(|w| w.to_ne_bytes())
        .collect();
    assert_eq!(uploads[0].vertices, vertices);
    assert_eq!(uploads[0].indices.len(), 12);
    assert_eq!(uploads[0].indices[..2], 0x0506u16.to_ne_bytes());
}

#[test]
fn a_mesh_frame_is_prepared() {
    let scene = meshes();
    let distances = [1.0f32.to_bits(), 3.0f32.to_bits(), 2.0f32.to_bits()];
    let inverse = [10u32, 20, 30];
    let inputs = with_meshes(RenderMode::AlphaBlend).prepare_frame(&scene, &distances, &inverse);
    assert_eq!(inputs.visible, vec![1, 2, 0]);
    assert_eq!(inputs.prior, None);
    assert_eq!(inputs.splat_params, None);
    assert_eq!(inputs.prior_params, [0, 0, 0, 0]);
    assert!(inputs.uniforms.iter().all(|u| u.color == [ieee::ONE; 4]));

    let mut scene = meshes();
    scene.force_opaque = true;
    scene.show_meshes = false;
    let inputs = with_meshes(RenderMode::NaiveWboit).prepare_frame(&scene, &distances, &inverse);
    assert_eq!(inputs.visible, vec![0]);
    assert_eq!(inputs.uniforms[0].color, [ieee::ONE, ieee::ONE, ieee::ONE, 10]);
}

#[test]
fn a_splat_frame_is_prepared() {
    let scene = meshes();
    let expected = [
        None,
        None,
        None,
        Some(PriorKind::Directional),
        Some(PriorKind::Spatial),
        Some(PriorKind::HighQualitySpatial),
        Some(PriorKind::HighQualitySpatial),
        Some(PriorKind::HighQualitySpatial),
    ];
    for (mode, prior) in MODES.iter().zip(expected) {
        let inputs = with_splats(*mode).prepare_frame(&scene, &[0; 3], &[0; 3]);
        assert_eq!(inputs.prior, prior);
        assert!(inputs.visible.is_empty());
        assert_eq!(inputs.splat_params, Some([10, 0, ieee::ONE, 5.0f32.to_bits()]));
        let used = prior == Some(PriorKind::Directional);
        let params = if used { [0.75f32.to_bits(), 1, 0, 0] } else { [0; 4] };
        assert_eq!(inputs.prior_params, params);
        // Without splats there is no prior.
        let inputs = with_meshes(*mode).prepare_frame(&scene, &[0; 3], &[0; 3]);
        assert_eq!(inputs.prior, None);
    }
}

#[test]
fn splat_frames_by_mode() {
    let expected: [&[Pass]; 8] = [
        &[Pass::AlphaBlend],
        &[Pass::WboitAccum, Pass::WboitComposite],
        &[Pass::HistoAccum, Pass::CdfBuild, Pass::HistoComposite],
        &[Pass::HistoAccum, Pass::CdfBuild, Pass::HistoComposite],
        &[Pass::SpatialCdfBuild, Pass::HistoAccum, Pass::HistoComposite],
        &[
            Pass::FrontFeature,
            Pass::SpatialCdfBuild,
            Pass::HistoAccum,
            Pass::HistoComposite,
        ],
        &[
            Pass::FrontFeature,
            Pass::FrontFeatureAlt,
            Pass::SpatialCdfBuild,
            Pass::HistoAccum,
            Pass::HistoComposite,
        ],
        &[
            Pass::SlicedCdfBuild,
            Pass::SlicedFrontCore,
            Pass::SlicedFringe,
            Pass::FrontColorFilter,
            Pass::SlicedAccum,
            Pass::SlicedComposite,
        ],
    ];
    for (mode, expected) in MODES.iter().zip(expected) {
        assert_eq!(passes(&with_splats(*mode).encode_frame(&[])), expected);
    }
}

#[test]
fn mesh_frames_by_mode() {
    for mode in MODES {
        let plan = with_meshes(mode).encode_frame(&[0, 2]);
        let expected: &[Pass] = match mode {
            RenderMode::AlphaBlend => &[Pass::AlphaBlend],
            RenderMode::NaiveWboit => &[Pass::WboitAccum, Pass::WboitComposite],
            // Only splats are drawn in slices.
            RenderMode::DepthSlicedOit => &[],
            _ => &[Pass::HistoAccum, Pass::CdfBuild, Pass::HistoComposite],
        };
        assert_eq!(passes(&plan), expected);
    }
}

#[test]
fn meshes_are_drawn_one_by_one() {
    let plan = with_meshes(RenderMode::AlphaBlend).encode_frame(&[2, 0]);
    assert_eq!(
        plan[0].steps,
        vec![
            Step::SetBindGroup { slot: 0, group: BindGroup::Camera },
            Step::SetPipeline(Pipeline::MeshAlpha),
            Step::SetBindGroup { slot: 1, group: BindGroup::Object(2) },
            Step::SetMesh(2),
            Step::DrawIndexed { indices: 99 },
            Step::SetBindGroup { slot: 1, group: BindGroup::Object(0) },
            Step::SetMesh(0),
            Step::DrawIndexed { indices: 6 },
        ]
    );
}

#[test]
fn splats_are_drawn_as_instanced_quads() {
    let mut renderer = with_splats(RenderMode::DoubleSampleFrontWboit);
    renderer.set_splat_fraction(7);
    renderer.frame_index = 1;
    let plan = renderer.encode_frame(&[]);
    assert_eq!(
        plan[1].steps,
        vec![
            Step::SetPipeline(Pipeline::FrontFeatureAlt),
            Step::SetBindGroup { slot: 0, group: BindGroup::Camera },
            Step::SetBindGroup { slot: 1, group: BindGroup::Splat },
            Step::Draw { vertices: 4, instances: 7 },
        ]
    );
    assert_eq!(
        plan[2].steps,
        vec![
            Step::SetPipeline(Pipeline::HighQualitySpatialCdfBuild),
            Step::SetBindGroup { slot: 0, group: BindGroup::CdfBuild },
            Step::Dispatch { x: 40, y: 23 },
        ]
    );
    assert_eq!(
        plan[3].steps,
        vec![
            Step::SetBindGroup { slot: 0, group: BindGroup::Camera },
            Step::SetPipeline(Pipeline::SplatDoubleFrontHisto),
            Step::SetBindGroup { slot: 1, group: BindGroup::Splat },
            Step::SetBindGroup { slot: 2, group: BindGroup::HistoAccum(1) },
            Step::Draw { vertices: 4, instances: 7 },
        ]
    );
    assert_eq!(
        plan[4].steps,
        vec![
            Step::SetPipeline(Pipeline::FilteredHistoComposite),
            Step::SetBindGroup { slot: 0, group: BindGroup::HistoComposite(1) },
            Step::Draw { vertices: 3, instances: 1 },
        ]
    );
}

#[test]
fn the_filter_covers_the_image() {
    let mut renderer = with_splats(RenderMode::DepthSlicedOit);
    renderer.resize(641, 16);
    let plan = renderer.encode_frame(&[]);
    assert_eq!(plan[3].pass, Pass::FrontColorFilter);
    assert_eq!(plan[3].steps[2], Step::Dispatch { x: 81, y: 2 });
    assert_eq!(plan[0].steps[2], Step::Dispatch { x: 21, y: 1 });
}

#[test]
fn drawn_frames_swap_the_double_buffer() {
    let mut renderer = with_splats(RenderMode::NaiveWboit);
    match renderer.render(&[], SurfaceStatus::Ready) {
        FrameAction::Draw(plan) => assert_eq!(plan.len(), 2),
        _ => panic!("a ready surface is drawn to"),
    }
    assert_eq!(renderer.frame_index, 1);
    assert_eq!(renderer.capture_linear_rgba(&[]).len(), 2);
    assert_eq!(renderer.frame_index, 0);
}

#[test]
fn frames_without_a_surface_are_skipped() {
    let mut renderer = with_splats(RenderMode::NaiveWboit);
    for status in [SurfaceStatus::Lost, SurfaceStatus::Outdated] {
        assert!(matches!(renderer.render(&[], status), FrameAction::Reconfigure));
    }
    assert!(matches!(renderer.render(&[], SurfaceStatus::Failed), FrameAction::Report));
    assert_eq!(renderer.frame_index, 0);
}

#[test]
fn no_pass_binds_what_it_draws_to() {
    for mode in MODES {
        for half in 0..2 {
            let mut renderer = with_splats(mode);
            renderer.frame_index = half;
            for plan in renderer.encode_frame(&[]) {
                let mut targets = color_targets(plan.pass, half);
                targets.extend(depth_target(plan.pass).map(|d| d.texture));
                for step in &plan.steps {
                    if let Step::SetBindGroup { group, .. } = step {
                        for target in &targets {
                            assert!(!group_entries(*group).contains(&Resource::Texture(*target)));
                        }
                    }
                }
            }
        }
    }
}

#[test]
fn images_are_drawn_before_they_are_bound() {
    for mode in MODES {
        let plan = with_splats(mode).encode_frame(&[]);
        for (i, drawing) in plan.iter().enumerate() {
            for target in color_targets(drawing.pass, 0) {
                for reading in &plan[..=i] {
                    for step in &reading.steps {
                        if let Step::SetBindGroup { group, .. } = step {
                            assert!(!group_entries(*group).contains(&Resource::Texture(target)));
                        }
                    }
                }
            }
        }
    }
}

#[test]
fn bind_groups_hold_the_other_half_while_accumulating() {
    assert_eq!(
        group_entries(BindGroup::HistoAccum(0))[4],
        Resource::Texture(Texture::Revealage(1))
    );
    assert_eq!(
        group_entries(BindGroup::HistoAccum(1))[4],
        Resource::Texture(Texture::Revealage(0))
    );
    assert_eq!(
        group_entries(BindGroup::HistoComposite(1)),
        vec![
            Resource::Texture(Texture::Accum),
            Resource::Texture(Texture::Revealage(1)),
        ]
    );
    assert_eq!(group_entries(BindGroup::HistoAccum(0))[2], Resource::CdfSampler);
    assert_eq!(group_entries(BindGroup::HistoAccum(0)).len(), 9);
    assert_eq!(group_entries(BindGroup::CdfBuild).len(), 6);
    assert_eq!(
        group_entries(BindGroup::Object(3)),
        vec![Resource::Buffer(Buffer::Object(3))]
    );
}

#[test]
fn images_are_made_for_their_use() {
    let tiles = Renderer::new(1280, 720).histo_params;
    let cdf = texture_spec(Texture::Cdf, 1280, 720, &tiles);
    assert_eq!((cdf.width, cdf.height, cdf.layers), (40, 23, 64));
    assert!(cdf.storage && cdf.sampled && !cdf.attachment);
    let revealage = texture_spec(Texture::Revealage(0), 1280, 720, &tiles);
    assert_eq!(revealage.format, PixelFormat::R16Float);
    assert_eq!((revealage.width, revealage.height, revealage.layers), (1280, 720, 1));
    let depth = texture_spec(Texture::Depth, 1280, 720, &tiles);
    assert_eq!(depth.format, PixelFormat::Depth32Float);
    assert!(depth.attachment && !depth.sampled);
    let filtered = texture_spec(Texture::FrontColorFiltered, 1280, 720, &tiles);
    assert!(filtered.storage && filtered.sampled && !filtered.attachment);
    let tile = texture_spec(Texture::TileOpticalDepth, 1280, 720, &tiles);
    assert_eq!((tile.width, tile.height, tile.layers), (40, 23, 1));
    assert_eq!(prior_buffer_size(), 20 * 12 * 67 * 4);
}

#[test]
fn loaded_depths_were_stored_before() {
    let mut loads = 0;
    for mode in MODES {
        for renderer in [with_splats(mode), with_meshes(mode)] {
            let plan = renderer.encode_frame(&[]);
            for (i, planned) in plan.iter().enumerate() {
                if let Some(DepthTarget { texture, load: true, .. }) = depth_target(planned.pass) {
                    loads += 1;
                    let last = plan[..i]
                        .iter()
                        .filter_map(|earlier| depth_target(earlier.pass))
                        .filter(|target| target.texture == texture)
                        .last();
                    assert_eq!(last, Some(DepthTarget { texture, load: false, store: true }));
                }
            }
        }
    }
    // Only the slices start from depths that were drawn before.
    assert_eq!(loads, 1);
}

#[test]
fn a_new_size_reaches_every_image_and_group() {
    let images = sized_images();
    let groups = sized_groups();
    assert_eq!((images.len(), groups.len()), (15, 9));
    assert!(!images.contains(&Texture::Output));
    for group in &groups {
        assert!(group_entries(*group).iter().any(|resource| {
            matches!(resource, Resource::Texture(_) | Resource::Buffer(Buffer::Histogram))
        }));
    }
    for group in [BindGroup::Camera, BindGroup::Object(0), BindGroup::Splat] {
        assert!(!groups.contains(&group));
    }
    for mode in MODES {
        for half in 0..2 {
            let mut renderer = with_splats(mode);
            renderer.frame_index = half;
            for planned in renderer.encode_frame(&[]) {
                for target in color_targets(planned.pass, half) {
                    assert!(target == Texture::Output || images.contains(&target));
                }
                for step in &planned.steps {
                    if let Step::SetBindGroup { group, .. } = step {
                        for resource in group_entries(*group) {
                            if let Resource::Texture(texture) = resource {
                                assert!(images.contains(&texture) && groups.contains(group));
                            }
                        }
                    }
                }
            }
        }
    }
}

#[test]
fn the_first_prior_is_flat_and_unused() {
    assert_eq!(initial_prior_params(), [0.0f32.to_bits(), 0, 0, 0]);
    let flat = flat_prior();
    assert_eq!(flat.len(), 64);
    assert!(flat.iter().all(|&word| f32::from_bits(word) == 1.0 / 64.0));
}

#[test]
fn passes_have_their_targets() {
    assert_eq!(
        color_targets(Pass::HistoAccum, 1),
        vec![Texture::Accum, Texture::Revealage(1)]
    );
    assert_eq!(color_targets(Pass::SlicedAccum, 0).len(), 4);
    assert_eq!(color_targets(Pass::SlicedComposite, 0), vec![Texture::Output]);
    assert_eq!(
        depth_target(Pass::SlicedFrontCore),
        Some(DepthTarget { texture: Texture::Depth, load: false, store: true })
    );
    assert_eq!(
        depth_target(Pass::SlicedAccum),
        Some(DepthTarget { texture: Texture::Depth, load: true, store: false })
    );
    assert_eq!(depth_target(Pass::HistoComposite), None);
    assert!(runs_compute(Pass::CdfBuild) && runs_compute(Pass::FrontColorFilter));
    assert!(!runs_compute(Pass::HistoAccum));
}
