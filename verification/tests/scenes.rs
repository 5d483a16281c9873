use wboit_splats::camera::Camera;
use wboit_splats::ieee;
use wboit_splats::scene::{sort_back_to_front, Mesh, Scene, SceneObject, Shape};
use wboit_splats::splats::{
    identity_order, robust_bounds, thinnest_axis, SplatGpu, SplatScene, SH_COEFFICIENTS,
};

fn bits(v: f32) -> u32 {
    v.to_bits()
}

fn point(x: f32, y: f32, z: f32) -> [u32; 3] {
    [bits(x), bits(y), bits(z)]
}

fn splat(id: f32) -> SplatGpu {
    SplatGpu {
        pos_opacity: [bits(id), bits(id + 0.25), bits(id + 0.5), bits(0.5)],
        cov_a: [bits(1.0), bits(2.0), bits(3.0), bits(0.1)],
        cov_b: [bits(4.0), bits(5.0), bits(6.0), bits(-0.2)],
        color: [bits(7.0), bits(8.0), bits(9.0), bits(0.3)],
    }
}

fn object(index_count: usize, extra: bool) -> SceneObject {
    let mesh = Mesh {
        vertices: vec![bits(1.0); 3],
        indices: vec![0; index_count],
    };
    SceneObject::new(mesh, [0; 16], bits(0.5), extra)
}

fn scene() -> Scene {
    Scene {
        objects: vec![
            object(6, false),
            object(12, false),
            object(36, true),
            object(99, true),
        ],
        show_meshes: true,
        force_opaque: false,
        time: ieee::ZERO,
    }
}

#[test]
fn splats_are_stored_most_important_first() {
    let gpu: Vec<SplatGpu> = (0..4).map(|i| splat(i as f32)).collect();
    let importance = [bits(0.5), bits(2.0), bits(0.5), bits(1.0)];
    let sh: Vec<u32> = (0..4 * SH_COEFFICIENTS as u32).collect();
    let scene = SplatScene::from_ply(&gpu, &importance, &sh, 3);
    let ids: Vec<f32> = scene
        .gpu
        .iter()
        .map(|s| f32::from_bits(s.pos_opacity[0]))
        .collect();
    assert_eq!(ids, vec![1.0, 3.0, 0.0, 2.0]);
    assert_eq!(scene.len(), 4);
    assert_eq!(scene.positions[1], point(3.0, 3.25, 3.5));
    // Coefficients move along with their splat.
    assert_eq!(scene.sh.len(), 4 * SH_COEFFICIENTS);
    assert_eq!(scene.sh[0], 45);
    assert_eq!(scene.sh[44], 89);
    assert_eq!(scene.sh[45], 135);
    assert_eq!(scene.sh[90], 0);
    assert_eq!(scene.sh_words(), scene.sh);
    assert_eq!(scene.sh_degree, 3);
}

#[test]
fn a_file_without_bands_has_no_coefficients() {
    let scene = SplatScene::from_ply(&[splat(1.0)], &[bits(1.0)], &[], 0);
    assert!(scene.sh.is_empty());
    // The buffer is never empty.
    assert_eq!(scene.sh_words(), vec![ieee::ZERO]);
}

#[test]
fn splats_become_sixteen_words() {
    let scene = SplatScene::from_ply(&[splat(2.0)], &[bits(1.0)], &[], 0);
    let expected: Vec<u32> = [
        2.0f32, 2.25, 2.5, 0.5, 1.0, 2.0, 3.0, 0.1, 4.0, 5.0, 6.0, -0.2, 7.0, 8.0, 9.0, 0.3,
    ]
    .iter()
    .map(|v| v.to_bits())
    .collect();
    assert_eq!(scene.gpu_words(), expected);
}

#[test]
fn normals_are_turned_away_from_the_centre() {
    let gpu = vec![splat(0.0), splat(1.0), splat(2.0)];
    let mut scene = SplatScene::from_ply(&gpu, &[bits(3.0), bits(2.0), bits(1.0)], &[], 0);
    let facing = [bits(-0.5), bits(0.5), bits(f32::NAN)];
    scene.set_bounds(point(1.0, 2.0, 3.0), bits(4.0), &facing);
    let normals: Vec<[f32; 3]> = scene
        .gpu
        .iter()
        .map(|s| {
            [
                f32::from_bits(s.cov_a[3]),
                f32::from_bits(s.cov_b[3]),
                f32::from_bits(s.color[3]),
            ]
        })
        .collect();
    assert_eq!(normals, vec![[-0.1, 0.2, -0.3], [0.1, -0.2, 0.3], [0.1, -0.2, 0.3]]);
    assert_eq!(scene.center, point(1.0, 2.0, 3.0));
    assert_eq!(scene.radius, bits(4.0));
    assert_eq!(scene.gpu[0].cov_a[..3], [bits(1.0), bits(2.0), bits(3.0)]);
}

#[test]
fn bounds_have_a_smallest_radius() {
    let mut scene = SplatScene::from_ply(&[splat(0.0)], &[bits(1.0)], &[], 0);
    assert_eq!((scene.center, scene.radius), ([0; 3], bits(1.0)));
    for (half_diagonal, radius) in [(0.0, 1e-3), (f32::NAN, 1e-3), (0.002, 0.002), (5.0, 5.0)] {
        scene.set_bounds(point(1.0, 2.0, 3.0), bits(half_diagonal), &[0]);
        assert_eq!(f32::from_bits(scene.radius), radius);
    }
    let mut empty = SplatScene::from_ply(&[], &[], &[], 0);
    empty.set_bounds(point(1.0, 2.0, 3.0), bits(5.0), &[]);
    assert_eq!((empty.center, empty.radius), ([0; 3], bits(1.0)));
}

#[test]
fn the_thinnest_axis_is_the_shortest() {
    assert_eq!(thinnest_axis(&point(1.0, 2.0, 3.0)), 0);
    assert_eq!(thinnest_axis(&point(2.0, 1.0, 3.0)), 1);
    assert_eq!(thinnest_axis(&point(3.0, 2.0, 1.0)), 2);
    // The first of equal ones.
    assert_eq!(thinnest_axis(&point(1.0, 1.0, 1.0)), 0);
    assert_eq!(thinnest_axis(&point(2.0, 1.0, 1.0)), 1);
}

#[test]
fn bounds_ignore_two_percent_at_either_end() {
    assert_eq!(robust_bounds(&[]), None);
    let few: Vec<[u32; 3]> = vec![point(3.0, -1.0, 0.0), point(1.0, 5.0, -2.0)];
    assert_eq!(
        robust_bounds(&few),
        Some((point(1.0, -1.0, -2.0), point(3.0, 5.0, 0.0)))
    );
    // A hundred splats: two are cut off at either end of each axis.
    let mut many: Vec<[u32; 3]> = (0..100)
        .map(|i| point(i as f32, -(i as f32), 2.0 * i as f32))
        .collect();
    many.swap(0, 57);
    assert_eq!(
        robust_bounds(&many),
        Some((point(2.0, -97.0, 4.0), point(97.0, -2.0, 194.0)))
    );
}

#[test]
fn the_first_order_is_that_of_the_scene() {
    assert_eq!(identity_order(4), vec![0, 1, 2, 3]);
    assert!(identity_order(0).is_empty());
}

#[test]
fn a_scene_starts_with_its_meshes_shown() {
    let shape = |id: u32| Shape {
        mesh: Mesh { vertices: vec![id], indices: vec![0; 3] },
        transform: [id; 16],
    };
    let quads = (shape(0), shape(1), shape(2), shape(3), shape(4), shape(5));
    let scene = Scene::new(quads, shape(6), shape(7));
    assert!(scene.show_meshes);
    assert!(!scene.force_opaque);
    assert_eq!(scene.time, ieee::ZERO);
    let alphas: Vec<f32> = scene
        .objects
        .iter()
        .map(|object| f32::from_bits(object.original_alpha))
        .collect();
    assert_eq!(alphas, vec![0.4, 0.5, 0.45, 0.35, 0.55, 0.5, 0.3, 0.35]);
    let extra: Vec<bool> = scene.objects.iter().map(|object| object.is_extra_mesh).collect();
    assert_eq!(extra, vec![false, false, false, false, false, false, true, true]);
    for (i, object) in scene.objects.iter().enumerate() {
        assert_eq!(object.color, [ieee::ONE; 4]);
        assert_eq!(object.transform, [i as u32; 16]);
        assert_eq!(object.mesh.vertices, vec![i as u32]);
    }
    assert_eq!(scene.visible_objects(), (0..8).collect::<Vec<usize>>());
}

#[test]
fn extra_meshes_can_be_hidden() {
    let mut scene = scene();
    scene.show_meshes = false;
    assert_eq!(scene.visible_objects(), vec![0, 1]);
}

#[test]
fn only_the_last_two_objects_turn() {
    let mut scene = scene();
    scene.update(bits(2.5), [1; 16], [2; 16]);
    assert_eq!(scene.time, bits(2.5));
    assert_eq!(scene.objects[0].transform, [0; 16]);
    assert_eq!(scene.objects[1].transform, [0; 16]);
    assert_eq!(scene.objects[2].transform, [1; 16]);
    assert_eq!(scene.objects[3].transform, [2; 16]);
}

#[test]
fn a_small_scene_turns_what_it_has() {
    let mut scene = scene();
    scene.objects.truncate(1);
    scene.update(bits(1.0), [1; 16], [2; 16]);
    assert_eq!(scene.objects[0].transform, [2; 16]);
    scene.objects.clear();
    scene.update(bits(2.0), [1; 16], [2; 16]);
    assert!(scene.objects.is_empty());
}

#[test]
fn uniforms_hold_the_transform_by_columns() {
    let mut object = object(3, false);
    for i in 0..16 {
        object.transform[i] = i as u32;
    }
    let expected: Vec<u32> = (0..16).chain([ieee::ONE; 4]).collect();
    assert_eq!(object.uniform().to_words(), expected);
    assert_eq!(object.uniform().model[2], [8, 9, 10, 11]);
    assert_eq!(object.frame_uniform(false, bits(2.0)).color, [ieee::ONE; 4]);
    let opaque = object.frame_uniform(true, bits(2.0));
    assert_eq!(opaque.color, [ieee::ONE, ieee::ONE, ieee::ONE, bits(2.0)]);
    assert_eq!(opaque.model, object.uniform().model);
}

#[test]
fn objects_are_sorted_back_to_front() {
    let distances = [bits(1.0), bits(9.0), bits(4.0), bits(9.0)];
    assert_eq!(sort_back_to_front(&vec![0, 1, 2, 3], &distances), vec![1, 3, 2, 0]);
    assert_eq!(sort_back_to_front(&vec![2, 0], &distances), vec![2, 0]);
    assert!(sort_back_to_front(&vec![], &distances).is_empty());
}

#[test]
fn the_camera_uniform_ends_with_the_planes() {
    let mut matrix = [0u32; 16];
    for i in 0..16 {
        matrix[i] = i as u32 + 100;
    }
    let mut expected: Vec<u32> = (100..116).collect();
    expected.extend([bits(2.0), bits(15.0), 0, 0]);
    assert_eq!(Camera::new(bits(1.5)).uniform(&matrix), expected);
}

#[test]
fn a_camera_is_dragged_while_the_button_is_held() {
    let mut camera = Camera::new(bits(1.5));
    assert_eq!(camera.on_mouse_move(10, 20), None);
    camera.set_dragging(true);
    assert_eq!(camera.on_mouse_move(11, 22), Some((10, 20)));
    assert_eq!(camera.last_mouse, Some((11, 22)));
    camera.set_dragging(false);
    assert_eq!(camera.last_mouse, None);
    assert_eq!(camera.on_mouse_move(5, 5), None);
    // A drag without a known position starts with the next one.
    let mut camera = Camera::new(bits(1.5));
    camera.set_dragging(true);
    assert_eq!(camera.on_mouse_move(1, 1), None);
    assert_eq!(camera.on_mouse_move(2, 1), Some((1, 1)));
}

#[test]
fn a_camera_stays_off_the_poles_and_within_reach() {
    let mut camera = Camera::new(bits(1.5));
    camera.orbit(bits(100.0), bits(2.0));
    assert_eq!((camera.yaw, camera.pitch), (bits(100.0), bits(1.4)));
    camera.orbit(bits(-3.0), bits(-2.0));
    assert_eq!(camera.pitch, bits(-1.4));
    camera.orbit(bits(-3.0), bits(0.7));
    assert_eq!(camera.pitch, bits(0.7));
    camera.on_scroll(bits(0.5));
    assert_eq!(camera.distance, bits(1.0));
    camera.on_scroll(bits(51.0));
    assert_eq!(camera.distance, bits(50.0));
    camera.on_scroll(bits(8.5));
    assert_eq!(camera.distance, bits(8.5));
}

#[test]
fn a_reset_camera_keeps_its_lens() {
    let mut camera = Camera::new(bits(1.5));
    camera.orbit(bits(1.0), bits(1.0));
    camera.on_scroll(bits(20.0));
    camera.target = point(1.0, 2.0, 3.0);
    camera.set_dragging(true);
    camera.on_mouse_move(1, 2);
    camera.near = bits(0.5);
    camera.aspect = bits(2.0);
    camera.reset();
    let fresh = Camera::new(bits(2.0));
    assert_eq!((camera.yaw, camera.pitch), (fresh.yaw, fresh.pitch));
    assert_eq!((camera.distance, camera.target), (fresh.distance, [0; 3]));
    assert!(!camera.dragging && camera.last_mouse.is_none());
    assert_eq!((camera.near, camera.aspect, camera.far), (bits(0.5), bits(2.0), bits(15.0)));
}
