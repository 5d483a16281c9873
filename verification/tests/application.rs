use wboit_splats::app::{cap_fraction, key_command, Action, App, Command, Event, CAP_STEPS};
use wboit_splats::benchmark::BenchmarkConfig;
use wboit_splats::frame::RenderMode;
use wboit_splats::ieee;
use wboit_splats::scene::{Mesh, Scene, SceneObject};
use wboit_splats::splats::{SplatGpu, SplatScene};

fn scene() -> Scene {
    let object = || {
        let mesh = Mesh { vertices: vec![], indices: vec![0; 3] };
        SceneObject::new(mesh, [0; 16], ieee::ONE, true)
    };
    Scene {
        objects: vec![object(), object()],
        show_meshes: true,
        force_opaque: false,
        time: ieee::ZERO,
    }
}

fn splats() -> SplatScene {
    let splat = SplatGpu {
        pos_opacity: [0; 4],
        cov_a: [0; 4],
        cov_b: [0; 4],
        color: [0; 4],
    };
    SplatScene::from_ply(&[splat; 4], &[0; 4], &[], 0)
}

fn opened(has_splats: bool, benchmark: Option<BenchmarkConfig>) -> App {
    let mut app = App::new(has_splats, benchmark, scene());
    assert_eq!(app.window_opened(1280, 720, ieee::ONE), RenderMode::DepthSlicedOit);
    app
}

fn press(app: &mut App, key: &str) -> Vec<Action> {
    app.window_event(Event::Character(key.to_string()))
}

#[test]
fn a_new_application_has_no_window() {
    let app = App::new(true, None, scene());
    assert!(!app.has_window && app.renderer.is_none());
    assert!(app.sorter.is_some());
    assert_eq!(f32::from_bits(app.camera.aspect), 16.0 / 9.0);
    assert!(App::new(false, None, scene()).sorter.is_none());
    let benchmark = BenchmarkConfig { views: 2, seed: 3 };
    assert!(App::new(true, Some(benchmark), scene()).sorter.is_none());
}

#[test]
fn windows_are_opened_once() {
    let plan = App::new(true, None, scene()).resumed().unwrap();
    assert_eq!(
        plan.title,
        "3DGS WBOIT Demo - 1/2/3/4/5/6/7/8 modes, C cap, [ ] size, R reset"
    );
    assert_eq!((plan.width, plan.height, plan.visible), (1280, 720, true));
    let plan = App::new(false, None, scene()).resumed().unwrap();
    assert_eq!(
        plan.title,
        "WBOIT Demo - Press 1/2/3/4/5/6/7/8 to switch modes, M meshes"
    );
    let benchmark = BenchmarkConfig { views: 2, seed: 3 };
    let plan = App::new(true, Some(benchmark), scene()).resumed().unwrap();
    assert_eq!((plan.width, plan.height, plan.visible), (640, 360, false));
    assert!(opened(false, None).resumed().is_none());
}

#[test]
fn an_opened_window_sizes_the_renderer() {
    let mut app = App::new(false, None, scene());
    app.window_opened(0, 50, 7);
    let renderer = app.renderer.as_ref().unwrap();
    assert_eq!((renderer.width, renderer.height), (1, 50));
    assert_eq!(app.camera.aspect, 7);
    assert!(app.has_window);
}

#[test]
fn keys_select_modes() {
    for n in 1..=8u32 {
        let mode = RenderMode::from_number(n).unwrap();
        assert_eq!(key_command(&n.to_string()), Command::SelectMode(mode));
        let mut app = opened(false, None);
        assert_eq!(press(&mut app, &n.to_string()), vec![Action::AnnounceMode(mode)]);
        assert_eq!(app.renderer.as_ref().unwrap().mode, mode);
    }
}

#[test]
fn keys_have_commands_in_either_case() {
    for (lower, upper, command) in [
        ("r", "R", Command::ResetCamera),
        ("m", "M", Command::ToggleMeshes),
        ("c", "C", Command::NextCap),
        ("o", "O", Command::ToggleOpaque),
    ] {
        assert_eq!(key_command(lower), command);
        assert_eq!(key_command(upper), command);
    }
    assert_eq!(key_command("["), Command::ShrinkSplats);
    assert_eq!(key_command("]"), Command::GrowSplats);
    for text in ["", "0", "9", "11", "rr", "x", "é", "１"] {
        assert_eq!(key_command(text), Command::Nothing, "{text:?}");
    }
}

#[test]
fn keys_do_nothing_without_a_window() {
    let mut app = App::new(true, None, scene());
    for key in ["1", "r", "m", "c", "[", "]", "o"] {
        assert!(press(&mut app, key).is_empty());
    }
    assert!(app.scene.show_meshes && !app.scene.force_opaque);
    assert!(app.window_event(Event::Escape).is_empty());
    assert_eq!(app.window_event(Event::CloseRequested), vec![Action::Exit]);
}

#[test]
fn toggles_come_back() {
    let mut app = opened(false, None);
    assert_eq!(press(&mut app, "m"), vec![Action::AnnounceMeshes(false)]);
    assert!(!app.scene.show_meshes);
    assert_eq!(press(&mut app, "M"), vec![Action::AnnounceMeshes(true)]);
    assert!(app.scene.show_meshes);
    assert_eq!(press(&mut app, "o"), vec![Action::AnnounceOpaque(true)]);
    assert_eq!(press(&mut app, "O"), vec![Action::AnnounceOpaque(false)]);
    assert!(!app.scene.force_opaque);
}

#[test]
fn caps_need_splats_and_come_round() {
    let mut app = opened(true, None);
    assert!(press(&mut app, "c").is_empty());
    app.renderer.as_mut().unwrap().upload_splats(&splats());
    for (cap, fraction) in [(1, 0.5f32), (2, 0.25), (3, 0.1), (0, 1.0)] {
        let fraction = fraction.to_bits();
        assert_eq!(press(&mut app, "c"), vec![Action::ApplyCap { fraction }]);
        assert_eq!(app.cap, cap);
        assert_eq!(cap_fraction(cap), fraction);
        assert!(app.cap < CAP_STEPS);
    }
    assert_eq!(press(&mut app, "["), vec![Action::ShrinkSplats]);
    assert_eq!(press(&mut app, "]"), vec![Action::GrowSplats]);
}

#[test]
fn the_camera_is_reset() {
    let mut app = opened(false, None);
    app.camera.on_scroll(20.0f32.to_bits());
    assert_eq!(press(&mut app, "r"), vec![Action::AnnounceCameraReset]);
    assert_eq!(app.camera.distance, 8.0f32.to_bits());
    assert_eq!(app.camera.aspect, ieee::ONE);
}

#[test]
fn a_new_size_reaches_camera_and_renderer() {
    let mut app = opened(false, None);
    let resized = Event::Resized { width: 64, height: 0, aspect: 64.0f32.to_bits() };
    assert_eq!(app.window_event(resized), vec![Action::Resize]);
    let renderer = app.renderer.as_ref().unwrap();
    assert_eq!((renderer.width, renderer.height), (64, 1));
    assert_eq!(app.camera.aspect, 64.0f32.to_bits());
    let mut app = App::new(false, None, scene());
    let resized = Event::Resized { width: 64, height: 32, aspect: 2.0f32.to_bits() };
    assert!(app.window_event(resized).is_empty());
    assert_eq!(f32::from_bits(app.camera.aspect), 16.0 / 9.0);
}

#[test]
fn drags_orbit_and_wheels_zoom() {
    let mut app = opened(false, None);
    assert!(app.window_event(Event::CursorMoved { x: 1, y: 2 }).is_empty());
    assert!(app.window_event(Event::LeftButton { pressed: true }).is_empty());
    assert_eq!(
        app.window_event(Event::CursorMoved { x: 3, y: 4 }),
        vec![Action::Orbit { from: (1, 2), to: (3, 4) }]
    );
    assert!(app.window_event(Event::LeftButton { pressed: false }).is_empty());
    assert!(app.window_event(Event::CursorMoved { x: 5, y: 6 }).is_empty());
    assert_eq!(
        app.window_event(Event::MouseWheel { delta: 9 }),
        vec![Action::Zoom { delta: 9 }]
    );
    assert!(app.window_event(Event::Other).is_empty());
    assert_eq!(app.window_event(Event::Escape), vec![Action::Exit]);
}

#[test]
fn uploads_come_with_the_first_frame() {
    let mut app = opened(true, None);
    assert_eq!(
        app.window_event(Event::RedrawRequested),
        vec![
            Action::UpdateScene,
            Action::UploadScene,
            Action::UploadSplats,
            Action::PollSorter,
            Action::Render,
            Action::RequestRedraw,
        ]
    );
    press(&mut app, "1");
    assert_eq!(
        app.window_event(Event::RedrawRequested),
        vec![
            Action::UpdateScene,
            Action::PollSorter,
            Action::RequestOrder,
            Action::Render,
            Action::RequestRedraw,
        ]
    );
}

#[test]
fn the_built_in_scene_is_not_sorted_in_the_background() {
    let mut app = opened(false, None);
    press(&mut app, "1");
    assert_eq!(
        app.window_event(Event::RedrawRequested),
        vec![
            Action::UpdateScene,
            Action::UploadScene,
            Action::Render,
            Action::RequestRedraw,
        ]
    );
}

#[test]
fn a_benchmark_runs_once_and_exits() {
    let benchmark = BenchmarkConfig { views: 2, seed: 3 };
    let mut app = opened(true, Some(benchmark));
    assert_eq!(
        app.window_event(Event::RedrawRequested),
        vec![
            Action::UpdateScene,
            Action::UploadScene,
            Action::UploadSplats,
            Action::RunBenchmark(benchmark),
            Action::Exit,
        ]
    );
    assert_eq!(
        app.window_event(Event::RedrawRequested),
        vec![Action::UpdateScene, Action::Render, Action::RequestRedraw]
    );
}

#[test]
fn a_redraw_without_a_window_only_moves_the_scene() {
    let mut app = App::new(true, None, scene());
    assert_eq!(app.window_event(Event::RedrawRequested), vec![Action::UpdateScene]);
    assert!(!app.scene_uploaded && !app.splats_uploaded);
}
