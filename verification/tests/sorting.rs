use wboit_splats::order::{permute, stable_descending_order};
use wboit_splats::sorter::{
    counting_sort, depth_extent, exact_back_to_front_order, order_keys, Reply, SortRequest, Sorter,
    BUCKETS,
};

fn depths_along(positions: &[[f32; 3]], forward: [f32; 3]) -> Vec<f32> {
    positions
        .iter()
        .map(|p| p[0] * forward[0] + p[1] * forward[1] + p[2] * forward[2])
        .collect()
}

fn bits(values: &[f32]) -> Vec<u32> {
    values.iter().map(|v| v.to_bits()).collect()
}

/// Depths as 16-bit keys, spread over the whole range of the first `count` of them.
fn quantize(positions: &[[f32; 3]], forward: [f32; 3], count: usize) -> Vec<u16> {
    let depths = depths_along(positions, forward);
    let n = count.min(depths.len());
    let (low, high) = depth_extent(&bits(&depths[..n]));
    let (low, high) = (f32::from_bits(low), f32::from_bits(high));
    let span = high - low;
    let scale = if span > 1e-9 { 65535.0 / span } else { 0.0 };
    depths.iter().map(|d| ((d - low) * scale) as u16).collect()
}

fn request(forward: [f32; 3], count: usize) -> SortRequest {
    SortRequest {
        forward: [
            forward[0].to_bits(),
            forward[1].to_bits(),
            forward[2].to_bits(),
        ],
        count,
    }
}

const Z: [f32; 3] = [0.0, 0.0, 1.0];

#[test]
fn counting_sort_orders_back_to_front() {
    // Points along +Z at increasing distance from an eye looking down +Z.
    let positions: Vec<[f32; 3]> = vec![
        [0.0, 0.0, 5.0],
        [0.0, 0.0, 1.0],
        [0.0, 0.0, 9.0],
        [0.0, 0.0, 3.0],
    ];
    let req = request(Z, positions.len());
    let quantized = quantize(&positions, Z, positions.len());
    let (mut keys, mut counts, mut out) = (Vec::new(), vec![0u32; 65536], Vec::new());
    counting_sort(&quantized, &req, &mut keys, &mut counts, &mut out);

    // Farthest first.
    assert_eq!(out, vec![2, 0, 3, 1]);

    // Depths must be non-increasing along the draw order.
    let depths: Vec<f32> = out.iter().map(|&i| positions[i as usize][2]).collect();
    assert!(depths.windows(2).all(|w| w[0] >= w[1]));
}

#[test]
fn counting_sort_respects_the_render_cap() {
    let positions: Vec<[f32; 3]> = (0..10).map(|i| [0.0, 0.0, i as f32]).collect();
    let req = request(Z, 4);
    let quantized = quantize(&positions, Z, 4);
    let (mut keys, mut counts, mut out) = (Vec::new(), vec![0u32; 65536], Vec::new());
    counting_sort(&quantized, &req, &mut keys, &mut counts, &mut out);

    // Only the first `count` splats participate, still ordered far to near.
    assert_eq!(out, vec![3, 2, 1, 0]);
}

#[test]
fn degenerate_scenes_do_not_panic() {
    let positions = vec![[1.0, 2.0, 3.0]; 5];
    let req = request(Z, 5);
    let quantized = quantize(&positions, Z, 5);
    let (mut keys, mut counts, mut out) = (Vec::new(), vec![0u32; 65536], Vec::new());
    counting_sort(&quantized, &req, &mut keys, &mut counts, &mut out);
    assert_eq!(out.len(), 5);
    let mut seen = out.clone();
    seen.sort_unstable();
    assert_eq!(seen, vec![0, 1, 2, 3, 4]);
}

#[test]
fn equal_keys_keep_their_order_and_reused_buffers_are_cleared() {
    let (mut keys, mut counts, mut out) = (vec![9u16; 3], vec![7u32; BUCKETS], vec![5u32; 8]);
    counting_sort(&[3, 3, 65535, 0, 3], &request(Z, 9), &mut keys, &mut counts, &mut out);
    assert_eq!(out, vec![2, 0, 1, 4, 3]);
    assert_eq!(keys, vec![3, 3, 65535, 0, 3]);
    // Each counter ends behind the last splat of its key.
    assert_eq!(counts[65535], 1);
    assert_eq!(counts[3], 4);
    assert_eq!(counts[0], 5);
}

#[test]
fn an_empty_scene_sorts_to_nothing() {
    let (mut keys, mut counts, mut out) = (Vec::new(), vec![1u32; BUCKETS], vec![1u32]);
    counting_sort(&[], &request(Z, 3), &mut keys, &mut counts, &mut out);
    assert!(out.is_empty());
    assert!(keys.is_empty());
    assert!(counts.iter().all(|&c| c == 0));
}

#[test]
fn exact_order_is_back_to_front_at_full_precision() {
    // The first two depths fall in one bucket, but not the exact order.
    let depths = [1.0f32, 1.0000001, 100.0, -3.5];
    assert_eq!(exact_back_to_front_order(&bits(&depths), 4), vec![2, 1, 0, 3]);
    assert_eq!(exact_back_to_front_order(&bits(&depths), 2), vec![1, 0]);
    assert_eq!(exact_back_to_front_order(&bits(&depths), 100), vec![2, 1, 0, 3]);
    assert!(exact_back_to_front_order(&[], 5).is_empty());
}

#[test]
fn both_sorts_agree_on_well_separated_depths() {
    let positions: Vec<[f32; 3]> = [4.0f32, -2.0, 8.0, 0.5, -7.25, 3.0]
        .iter()
        .map(|&z| [1.0, 1.0, z])
        .collect();
    let exact = exact_back_to_front_order(&bits(&depths_along(&positions, Z)), positions.len());
    let (mut keys, mut counts, mut out) = (Vec::new(), vec![0u32; BUCKETS], Vec::new());
    let quantized = quantize(&positions, Z, positions.len());
    counting_sort(&quantized, &request(Z, positions.len()), &mut keys, &mut counts, &mut out);
    assert_eq!(out, exact);
    assert_eq!(out, vec![2, 0, 5, 3, 1, 4]);
}

#[test]
fn depths_in_one_bucket_keep_the_order_of_the_scene() {
    // The first two depths differ by less than a bucket.
    let positions: Vec<[f32; 3]> = [1.0f32, 1.001, 100.0, -3.5]
        .iter()
        .map(|&z| [0.0, 0.0, z])
        .collect();
    let (mut keys, mut counts, mut out) = (Vec::new(), vec![0u32; BUCKETS], Vec::new());
    let quantized = quantize(&positions, Z, 4);
    assert_eq!(quantized[0], quantized[1]);
    counting_sort(&quantized, &request(Z, 4), &mut keys, &mut counts, &mut out);
    assert_eq!(out, vec![2, 0, 1, 3]);
}

#[test]
fn zeros_of_either_sign_are_equally_deep() {
    assert_eq!(exact_back_to_front_order(&bits(&[-0.0, 0.0, -0.0]), 3), vec![0, 1, 2]);
}

#[test]
fn the_extent_skips_what_is_no_number() {
    let (low, high) = depth_extent(&bits(&[f32::NAN, 2.0, -5.0, f32::NAN, 4.0]));
    assert_eq!((f32::from_bits(low), f32::from_bits(high)), (-5.0, 4.0));
    let (low, high) = depth_extent(&[]);
    assert_eq!((f32::from_bits(low), f32::from_bits(high)), (f32::INFINITY, f32::NEG_INFINITY));
}

#[test]
fn order_keys_order_like_the_numbers() {
    let numbers = [f32::NEG_INFINITY, -1.5, -1e-40, -0.0, 1e-45, 2.0, f32::MAX, f32::INFINITY];
    let keys = order_keys(&bits(&numbers), numbers.len());
    assert!(keys.windows(2).all(|w| w[0] < w[1]));
    assert_eq!(order_keys(&bits(&[0.0, -0.0]), 2), vec![0, 0]);
    assert_eq!(order_keys(&bits(&[f32::NAN, 1.0]), 1), vec![i32::MIN]);
}

#[test]
fn sorting_keeps_every_index_once() {
    let keys: Vec<i32> = (0..257).map(|i| (i * 37) % 101 - 50).collect();
    let order = stable_descending_order(&keys);
    assert!(order
        .windows(2)
        .all(|w| (keys[w[0] as usize], w[1]) > (keys[w[1] as usize], w[0])));
    let mut seen = order.clone();
    seen.sort_unstable();
    assert_eq!(seen, (0..257).collect::<Vec<u32>>());
}

#[test]
fn permuting_gathers_from_the_source() {
    assert_eq!(permute(&['a', 'b', 'c'], &[2, 0, 2]), vec!['c', 'a', 'c']);
    assert!(permute(&[1, 2], &[]).is_empty());
}

#[test]
fn a_sorter_has_one_request_in_flight() {
    let mut sorter = Sorter::new();
    assert!(!sorter.request(0));
    assert!(sorter.request(10));
    sorter.request_sent(true);
    assert!(sorter.pending);
    assert!(!sorter.request(10));
    assert_eq!(sorter.poll(Reply::Empty), None);
    assert!(!sorter.request(10));
    assert_eq!(sorter.poll(Reply::Order(vec![1, 0])), Some(vec![1, 0]));
    assert!(sorter.request(10));
}

#[test]
fn a_dead_sorter_is_asked_no_more() {
    let mut sorter = Sorter::new();
    assert!(sorter.request(1));
    sorter.request_sent(false);
    assert!(!sorter.alive && !sorter.pending);
    assert!(!sorter.request(1));

    let mut sorter = Sorter::new();
    sorter.request_sent(true);
    assert_eq!(sorter.poll(Reply::Disconnected), None);
    assert!(!sorter.alive && !sorter.pending);
    assert!(!sorter.request(1));
}
