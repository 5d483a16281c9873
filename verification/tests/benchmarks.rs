use wboit_splats::benchmark::{
    benchmark_modes, foreground_pixels, image_edges, view_steps, BenchmarkConfig, BenchmarkRun,
    BenchmarkStep,
};
use wboit_splats::frame::RenderMode;

#[test]
fn a_benchmark_has_at_least_one_view() {
    assert_eq!(BenchmarkConfig { views: 0, seed: 1 }.view_count(), 1);
    assert_eq!(BenchmarkConfig { views: 16, seed: 1 }.view_count(), 16);
}

#[test]
fn one_mode_is_scored() {
    assert_eq!(benchmark_modes(), vec![RenderMode::DepthSlicedOit]);
    assert_eq!(
        view_steps(&benchmark_modes()),
        vec![
            BenchmarkStep::Pose,
            BenchmarkStep::Reference,
            BenchmarkStep::Score(RenderMode::DepthSlicedOit),
        ]
    );
}

#[test]
fn modes_that_read_the_frame_before_are_primed() {
    assert_eq!(
        view_steps(&[RenderMode::NaiveWboit, RenderMode::DoubleSampleFrontWboit]),
        vec![
            BenchmarkStep::Pose,
            BenchmarkStep::Reference,
            BenchmarkStep::Score(RenderMode::NaiveWboit),
            BenchmarkStep::Prime(RenderMode::DoubleSampleFrontWboit),
            BenchmarkStep::Score(RenderMode::DoubleSampleFrontWboit),
        ]
    );
    assert_eq!(view_steps(&[]).len(), 2);
}

#[test]
fn the_foreground_is_what_either_image_covers() {
    let alphas = |values: &[f32]| values.iter().map(|v| v.to_bits()).collect::<Vec<u32>>();
    let reference = alphas(&[0.0, 0.5, 0.0, 1.0 / 255.0, f32::NAN]);
    let candidate = alphas(&[0.0, 0.0, 0.01, 1.0 / 255.0, 0.0]);
    assert_eq!(foreground_pixels(&reference, &candidate), vec![1, 2]);
    assert!(foreground_pixels(&[], &[]).is_empty());
}

#[test]
fn edges_join_neighbours() {
    assert_eq!(
        image_edges(3, 2),
        vec![(0, 1), (0, 3), (1, 2), (1, 4), (2, 5), (3, 4), (4, 5)]
    );
    assert_eq!(image_edges(1, 3), vec![(0, 1), (1, 2)]);
    assert_eq!(image_edges(3, 1), vec![(0, 1), (1, 2)]);
    assert!(image_edges(1, 1).is_empty());
    assert!(image_edges(0, 4).is_empty());
    assert!(image_edges(4, 0).is_empty());
    assert_eq!(image_edges(640, 360).len(), 360 * 639 + 359 * 640);
}

#[test]
fn every_view_has_its_steps() {
    let modes = [RenderMode::SpatialBakedHistogramWboit];
    let steps = view_steps(&modes);
    assert_eq!(steps.len(), 4);
    for (views, expected) in [(0, 1), (1, 1), (3, 3)] {
        let mut run = BenchmarkRun::new(&BenchmarkConfig { views, seed: 1 }, &modes);
        for view in 0..expected {
            for (i, step) in steps.iter().enumerate() {
                assert_eq!(run.advance(), Some((view, *step)));
                assert_eq!(run.view_is_done(), i == 3);
            }
        }
        assert_eq!(run.advance(), None);
        assert_eq!(run.advance(), None);
    }
}
