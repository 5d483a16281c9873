use wboit_splats::prior::{
    bin_pair, depth_bin, nearest_directions, DirectionalHistogramPrior,
    HighQualitySpatialDirectionalPrior, SpatialDirectionalHistogramPrior, DIRECTIONAL_DEPTH_BINS,
    DIRECTIONAL_VIEW_COUNT, HQ_DIRECTIONAL_VIEW_COUNT, HQ_SPATIAL_PRIOR_HEIGHT,
    HQ_SPATIAL_PRIOR_WIDTH, SPATIAL_PRIOR_DEPTH_BINS, SPATIAL_PRIOR_HEIGHT, SPATIAL_PRIOR_WIDTH,
};

fn bits(values: &[f32]) -> Vec<u32> {
    values.iter().map(|v| v.to_bits()).collect()
}

#[test]
fn the_three_nearest_directions_are_found() {
    let dots = bits(&[0.1, 0.9, -0.5, 0.95, 0.3, 0.9]);
    let nearest = nearest_directions(&dots);
    let views: Vec<usize> = nearest.iter().map(|n| n.1).collect();
    // Of equal ones the first is nearer.
    assert_eq!(views, vec![3, 1, 5]);
    assert_eq!(nearest[0].0, 0.95f32.to_bits());
    assert_eq!(nearest[2].0, 0.9f32.to_bits());
}

#[test]
fn missing_directions_are_infinitely_far() {
    let nearest = nearest_directions(&bits(&[0.5, f32::NAN]));
    assert_eq!(nearest[0], (0.5f32.to_bits(), 0));
    assert_eq!(nearest[1], (f32::NEG_INFINITY.to_bits(), 0));
    assert_eq!(nearest[2], (f32::NEG_INFINITY.to_bits(), 0));
}

#[test]
fn places_of_bins() {
    assert_eq!(SpatialDirectionalHistogramPrior::index(0, 0, 0, 0), 0);
    assert_eq!(SpatialDirectionalHistogramPrior::index(0, 1, 0, 0), 32);
    assert_eq!(SpatialDirectionalHistogramPrior::index(0, 0, 1, 0), 256);
    assert_eq!(SpatialDirectionalHistogramPrior::index(1, 2, 3, 4), 2048 + 768 + 64 + 4);
    assert_eq!(SpatialDirectionalHistogramPrior::index(63, 7, 7, 31), 131071);
    assert_eq!(HighQualitySpatialDirectionalPrior::index(1, 2, 3, 4), 7680 + 1920 + 64 + 4);
    assert_eq!(HighQualitySpatialDirectionalPrior::index(511, 19, 11, 31), 3932159);
    assert_eq!(SpatialDirectionalHistogramPrior::output_index(1, 2, 3), 17 * 64 + 3);
    assert_eq!(HighQualitySpatialDirectionalPrior::output_index(1, 2, 3), 41 * 64 + 3);
}

#[test]
fn every_bin_has_a_place_of_its_own() {
    let len = DIRECTIONAL_VIEW_COUNT
        * SPATIAL_PRIOR_WIDTH
        * SPATIAL_PRIOR_HEIGHT
        * SPATIAL_PRIOR_DEPTH_BINS;
    let mut taken = vec![false; len];
    for view in 0..DIRECTIONAL_VIEW_COUNT {
        for y in 0..SPATIAL_PRIOR_HEIGHT {
            for x in 0..SPATIAL_PRIOR_WIDTH {
                for bin in 0..SPATIAL_PRIOR_DEPTH_BINS {
                    let at = SpatialDirectionalHistogramPrior::index(view, x, y, bin);
                    assert!(!taken[at]);
                    taken[at] = true;
                }
            }
        }
    }
    assert!(taken.iter().all(|&t| t));
}

#[test]
fn a_spatial_prior_holds_what_is_written() {
    let mut prior = SpatialDirectionalHistogramPrior::new(vec![[0; 3]; DIRECTIONAL_VIEW_COUNT], 7);
    assert_eq!(prior.radius, 7);
    assert_eq!(prior.get(5, 6, 7, 8), 0);
    prior.set(5, 6, 7, 8, 99);
    assert_eq!(prior.get(5, 6, 7, 8), 99);
    assert_eq!(prior.get(5, 6, 7, 9), 0);
    assert_eq!(prior.get(5, 7, 6, 8), 0);
}

#[test]
fn cells_are_normalized_or_flat() {
    let mut prior = SpatialDirectionalHistogramPrior::new(vec![[0; 3]; DIRECTIONAL_VIEW_COUNT], 0);
    let shares: Vec<u32> = (100..132).collect();
    prior.normalize(3, 2, 1, 4.0f32.to_bits(), &shares);
    assert_eq!(prior.get(3, 2, 1, 0), 100);
    assert_eq!(prior.get(3, 2, 1, 31), 131);
    assert_eq!(prior.get(3, 3, 1, 0), 0);
    for sum in [0.0f32, -1.0, f32::NAN] {
        prior.normalize(3, 2, 1, sum.to_bits(), &shares);
        for bin in 0..SPATIAL_PRIOR_DEPTH_BINS {
            assert_eq!(f32::from_bits(prior.get(3, 2, 1, bin)), 1.0 / 32.0);
        }
    }
    let total: f32 = (0..SPATIAL_PRIOR_DEPTH_BINS)
        .map(|bin| f32::from_bits(prior.get(3, 2, 1, bin)))
        .sum();
    assert_eq!(total, 1.0);
}

#[test]
fn a_high_quality_prior_holds_what_is_written() {
    let mut prior =
        HighQualitySpatialDirectionalPrior::new(vec![[1; 3]; HQ_DIRECTIONAL_VIEW_COUNT], 3);
    assert_eq!(prior.directions.len(), 512);
    prior.set(511, 19, 11, 31, 42);
    assert_eq!(prior.get(511, 19, 11, 31), 42);
    prior.normalize(511, 19, 11, 0, &[5; 32]);
    assert_eq!(f32::from_bits(prior.get(511, 19, 11, 31)), 1.0 / 32.0);
    prior.normalize(511, 19, 11, 1.0f32.to_bits(), &[5; 32]);
    assert_eq!(prior.get(511, 19, 11, 31), 5);
}

#[test]
fn a_directional_prior_holds_what_is_written() {
    let mut prior = DirectionalHistogramPrior::new(vec![[0; 3]; DIRECTIONAL_VIEW_COUNT], 2);
    prior.set(63, 63, 17);
    assert_eq!(prior.get(63, 63), 17);
    assert_eq!(prior.get(63, 62), 0);
    prior.normalize(1, 0.0f32.to_bits(), &[9; 64]);
    let total: f32 = (0..DIRECTIONAL_DEPTH_BINS)
        .map(|bin| f32::from_bits(prior.get(1, bin)))
        .sum();
    assert_eq!(total, 1.0);
    prior.normalize(1, 2.0f32.to_bits(), &[9; 64]);
    assert_eq!(prior.get(1, 33), 9);
}

#[test]
fn taps_stay_inside() {
    assert_eq!(
        SpatialDirectionalHistogramPrior::taps(2, 3),
        [(2, 3), (3, 3), (2, 4), (3, 4)]
    );
    assert_eq!(
        SpatialDirectionalHistogramPrior::taps(7, 7),
        [(7, 7), (7, 7), (7, 7), (7, 7)]
    );
    assert_eq!(
        HighQualitySpatialDirectionalPrior::taps(
            HQ_SPATIAL_PRIOR_WIDTH - 1,
            HQ_SPATIAL_PRIOR_HEIGHT - 2
        ),
        [(19, 10), (19, 10), (19, 11), (19, 11)]
    );
}

#[test]
fn depths_fall_in_bins() {
    assert_eq!(depth_bin(0, 32), 0);
    assert_eq!(depth_bin(31, 32), 31);
    assert_eq!(depth_bin(32, 32), 31);
    assert_eq!(bin_pair(0), (0, 1));
    assert_eq!(bin_pair(62), (62, 63));
    assert_eq!(bin_pair(63), (63, 63));
}
