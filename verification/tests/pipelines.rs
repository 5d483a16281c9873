use wboit_splats::frame::PixelFormat;
use wboit_splats::pipeline::{
    layout_entries, BindingKind, Blend, BlendFactor, ColorTarget, DepthCompare, DepthState,
    GroupLayout, HistogramWboitPipeline, LayoutEntry, TargetFormat, Topology, Visibility,
};

/// One channel of an image after a fragment was blended on it.
fn blend(blend: Blend, target: f64, value: f64, alpha: f64) -> f64 {
    let factor = |f: BlendFactor| match f {
        BlendFactor::Zero => 0.0,
        BlendFactor::One => 1.0,
        BlendFactor::OneMinusSource => 1.0 - value,
        BlendFactor::OneMinusSourceAlpha => 1.0 - alpha,
    };
    let (source, under) = blend.blend_factors();
    value * factor(source) + target * factor(under)
}

#[test]
fn accumulation_draws_to_two_images() {
    let pipeline = HistogramWboitPipeline::new();
    assert_eq!(
        pipeline.accum.targets,
        vec![
            ColorTarget { format: TargetFormat::Rgba16Float, blend: Blend::Additive },
            ColorTarget { format: TargetFormat::R8Unorm, blend: Blend::Multiplicative },
        ]
    );
    assert_eq!(
        pipeline.accum.groups,
        vec![GroupLayout::Camera, GroupLayout::Object, GroupLayout::HistoAccum]
    );
    assert!(pipeline.accum.reads_vertices && !pipeline.accum.culls);
    assert_eq!(pipeline.accum.topology, Topology::TriangleList);
    assert_eq!(
        pipeline.accum.depth,
        Some(DepthState {
            format: PixelFormat::Depth32Float,
            compare: DepthCompare::Less,
            writes: false,
        })
    );
    assert_eq!(pipeline.accum.vertex_entry, "vs_main");
    assert_eq!(pipeline.accum.fragment_entry, "fs_main");
}

#[test]
fn the_composite_draws_over_the_surface() {
    let pipeline = HistogramWboitPipeline::new();
    assert_eq!(
        pipeline.composite.targets,
        vec![ColorTarget { format: TargetFormat::Surface, blend: Blend::Premultiplied }]
    );
    assert_eq!(
        pipeline.composite.groups,
        vec![GroupLayout::HistoCompositeImages, GroupLayout::HistoCompositeBuffers]
    );
    assert!(!pipeline.composite.reads_vertices && !pipeline.composite.culls);
    assert_eq!(pipeline.composite.topology, Topology::TriangleList);
    assert_eq!(pipeline.composite.depth, None);
}

#[test]
fn layouts_list_their_bindings() {
    let entries = |visibility: Visibility, kinds: &[BindingKind]| -> Vec<LayoutEntry> {
        kinds
            .iter()
            .map(|&kind| LayoutEntry { visibility, kind })
            .collect()
    };
    let written = BindingKind::StorageBuffer { read_only: false };
    let read = BindingKind::StorageBuffer { read_only: true };
    let uniform = BindingKind::UniformBuffer;
    for layout in [GroupLayout::Camera, GroupLayout::Object] {
        assert_eq!(
            layout_entries(layout),
            entries(Visibility::VertexAndFragment, &[uniform])
        );
    }
    assert_eq!(
        layout_entries(GroupLayout::HistoAccum),
        entries(Visibility::Fragment, &[written, read, uniform])
    );
    assert_eq!(
        layout_entries(GroupLayout::HistoCompositeImages),
        entries(Visibility::Fragment, &[BindingKind::Image; 2])
    );
    assert_eq!(
        layout_entries(GroupLayout::HistoCompositeBuffers),
        entries(Visibility::Fragment, &[written, written, uniform])
    );
}

#[test]
fn accumulated_fragments_may_come_in_any_order() {
    let fragments = [(0.5, 0.5), (0.25, 0.75), (0.125, 0.25)];
    for target in HistogramWboitPipeline::new().accum.targets {
        let forward = fragments
            .iter()
            .fold(1.0, |t, &(v, a)| blend(target.blend, t, v, a));
        let backward = fragments
            .iter()
            .rev()
            .fold(1.0, |t, &(v, a)| blend(target.blend, t, v, a));
        assert_eq!(forward, backward);
    }
    assert_eq!(blend(Blend::Additive, 1.0, 0.5, 0.5), 1.5);
    assert_eq!(blend(Blend::Multiplicative, 1.0, 0.25, 0.5), 0.75);
    // Blending over what is there does depend on the order.
    assert_eq!(blend(Blend::Premultiplied, 1.0, 0.5, 0.5), 1.0);
    let over = |t, (v, a)| blend(Blend::Premultiplied, t, v, a);
    assert_ne!(
        over(over(0.0, fragments[0]), fragments[1]),
        over(over(0.0, fragments[1]), fragments[0])
    );
}
