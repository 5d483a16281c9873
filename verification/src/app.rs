//! The application's state and how it answers the events of its window.
use crate::benchmark::BenchmarkConfig;
use crate::camera::Camera;
use crate::frame::RenderMode;
use crate::ieee;
use crate::renderer::Renderer;
use crate::scene::Scene;
use crate::sorter::Sorter;
use crate::surface::at_least_one;
use vstd::prelude::*;

verus! {

/// Number of render caps that the user cycles through.
pub const CAP_STEPS: usize = 4;

/// Bit pattern of 16/9, the aspect before there is a window.
pub const START_ASPECT: u32 = 0x3fe3_8e39;

/// What a key does.
#[derive(Clone, Copy, PartialEq, Eq, Structural, Debug)]
pub enum Command {
    SelectMode(RenderMode),
    ResetCamera,
    ToggleMeshes,
    NextCap,
    ShrinkSplats,
    GrowSplats,
    ToggleOpaque,
    Nothing,
}

/// What a character key does. A text of more than one character does nothing.
pub open spec fn command_of(text: Seq<char>) -> Command {
    if text == seq!['1'] {
        Command::SelectMode(RenderMode::AlphaBlend)
    } else if text == seq!['2'] {
        Command::SelectMode(RenderMode::NaiveWboit)
    } else if text == seq!['3'] {
        Command::SelectMode(RenderMode::HistogramWboit)
    } else if text == seq!['4'] {
        Command::SelectMode(RenderMode::DirectionalHistogramWboit)
    } else if text == seq!['5'] {
        Command::SelectMode(RenderMode::SpatialBakedHistogramWboit)
    } else if text == seq!['6'] {
        Command::SelectMode(RenderMode::HighQualitySpatialBakedWboit)
    } else if text == seq!['7'] {
        Command::SelectMode(RenderMode::DoubleSampleFrontWboit)
    } else if text == seq!['8'] {
        Command::SelectMode(RenderMode::DepthSlicedOit)
    } else if text == seq!['r'] || text == seq!['R'] {
        Command::ResetCamera
    } else if text == seq!['m'] || text == seq!['M'] {
        Command::ToggleMeshes
    } else if text == seq!['c'] || text == seq!['C'] {
        Command::NextCap
    } else if text == seq!['['] {
        Command::ShrinkSplats
    } else if text == seq![']'] {
        Command::GrowSplats
    } else if text == seq!['o'] || text == seq!['O'] {
        Command::ToggleOpaque
    } else {
        Command::Nothing
    }
}

/// What a character key does.
pub fn key_command(text: &str) -> (command: Command)
    ensures
        command == command_of(text@),
{
    if text.unicode_len() != 1 {
        proof {
            lemma_only_single_characters(text@);
        }
        return Command::Nothing;
    }
    let c = text.get_char(0);
    proof {
        assert(text@ =~= seq![c]);
        assert forall|d: char| (#[trigger] seq![d]) == seq![c] <==> d == c by {
            assert(seq![d][0] == d && seq![c][0] == c);
        }
    }
    if '1' <= c && c <= '8' {
        match RenderMode::from_number(c as u32 - '0' as u32) {
            Some(mode) => Command::SelectMode(mode),
            None => Command::Nothing,
        }
    } else if c == 'r' || c == 'R' {
        Command::ResetCamera
    } else if c == 'm' || c == 'M' {
        Command::ToggleMeshes
    } else if c == 'c' || c == 'C' {
        Command::NextCap
    } else if c == '[' {
        Command::ShrinkSplats
    } else if c == ']' {
        Command::GrowSplats
    } else if c == 'o' || c == 'O' {
        Command::ToggleOpaque
    } else {
        Command::Nothing
    }
}

proof fn lemma_only_single_characters(text: Seq<char>)
    requires
        text.len() != 1,
    ensures
        command_of(text) == Command::Nothing,
{
    assert forall|d: char| (#[trigger] seq![d]) != text by {
        assert(seq![d].len() == 1);
    }
}

/// What happens to the window.
pub enum Event {
    CloseRequested,
    /// `aspect` is the quotient of the new width and height.
    Resized { width: u32, height: u32, aspect: u32 },
    /// A character key was pressed.
    Character(String),
    Escape,
    /// The left mouse button was pressed or released.
    LeftButton { pressed: bool },
    CursorMoved { x: u64, y: u64 },
    MouseWheel { delta: u32 },
    RedrawRequested,
    /// Anything that the application does not answer.
    Other,
}

/// What the application is to do.
#[derive(Clone, Copy, PartialEq, Eq, Debug)]
pub enum Action {
    Exit,
    /// Make the images anew for the renderer's size.
    Resize,
    AnnounceMode(RenderMode),
    AnnounceCameraReset,
    AnnounceMeshes(bool),
    AnnounceOpaque(bool),
    /// Draw this fraction of the splats.
    ApplyCap { fraction: u32 },
    ShrinkSplats,
    GrowSplats,
    /// Turn the camera by the way from the first position to the second.
    Orbit { from: (u64, u64), to: (u64, u64) },
    Zoom { delta: u32 },
    /// Advance the scene by the time since the last frame.
    UpdateScene,
    UploadScene,
    UploadSplats,
    RunBenchmark(BenchmarkConfig),
    /// Draw the order that the sorting thread has finished, if it has one.
    PollSorter,
    /// Ask the sorting thread for an order.
    RequestOrder,
    Render,
    RequestRedraw,
}

/// How the window is opened.
#[derive(Clone, Copy)]
pub struct WindowPlan {
    pub title: &'static str,
    pub width: u32,
    pub height: u32,
    pub visible: bool,
}

pub struct App {
    pub has_window: bool,
    /// Present once the window is open.
    pub renderer: Option<Renderer>,
    pub camera: Camera,
    pub scene: Scene,
    pub scene_uploaded: bool,
    /// Whether a splat scene was loaded; without one the built-in scene is shown.
    pub has_splats: bool,
    pub sorter: Option<Sorter>,
    pub splats_uploaded: bool,
    /// Which render cap is in force.
    pub cap: usize,
    pub benchmark: Option<BenchmarkConfig>,
}

impl App {
    /// A benchmark compares renderings of splats, so it comes with a splat scene; it does not
    /// sort in the background. There is a renderer where there is a window.
    pub open spec fn well_formed(self) -> bool {
        &&& self.cap < CAP_STEPS
        &&& self.has_window <==> self.renderer is Some
        &&& self.benchmark is Some ==> self.has_splats
        &&& self.sorter is Some ==> self.has_splats && self.benchmark is None
        &&& self.renderer matches Some(renderer) ==> renderer.well_formed()
    }

    /// An application without a window. Splats are sorted in the background, except in a
    /// benchmark, which sorts each view exactly.
    pub fn new(has_splats: bool, benchmark: Option<BenchmarkConfig>, scene: Scene) -> (app: Self)
        requires
            benchmark is Some ==> has_splats,
        ensures
            app.well_formed(),
            !app.has_window,
            app.renderer is None,
            app.camera.is_at_start(),
            app.camera.aspect == START_ASPECT,
            app.scene == scene,
            !app.scene_uploaded,
            app.has_splats == has_splats,
            app.sorter == if has_splats && benchmark is None {
                Some(Sorter { pending: false, alive: true })
            } else {
                None
            },
            !app.splats_uploaded,
            app.cap == 0,
            app.benchmark == benchmark,
    {
        let sorter = if benchmark.is_none() && has_splats {
            Some(Sorter::new())
        } else {
            None
        };
        App {
            has_window: false,
            renderer: None,
            camera: Camera::new(START_ASPECT),
            scene,
            scene_uploaded: false,
            has_splats,
            sorter,
            splats_uploaded: false,
            cap: 0,
            benchmark,
        }
    }

    /// How to open the window, where there is none yet: what it is called depends on the
    /// scene; a benchmark gets a smaller one that stays hidden.
    pub fn resumed(&self) -> (plan: Option<WindowPlan>)
        ensures
            plan is Some <==> !self.has_window,
            plan matches Some(p) ==> {
                &&& p.title@ == if self.has_splats {
                    "3DGS WBOIT Demo - 1/2/3/4/5/6/7/8 modes, C cap, [ ] size, R reset"@
                } else {
                    "WBOIT Demo - Press 1/2/3/4/5/6/7/8 to switch modes, M meshes"@
                }
                &&& self.benchmark is Some ==> (p.width, p.height, p.visible) == (
                    640u32,
                    360u32,
                    false,
                )
                &&& self.benchmark is None ==> (p.width, p.height, p.visible) == (
                    1280u32,
                    720u32,
                    true,
                )
            },
    {
        if self.has_window {
            return None;
        }
        let title = if self.has_splats {
            "3DGS WBOIT Demo - 1/2/3/4/5/6/7/8 modes, C cap, [ ] size, R reset"
        } else {
            "WBOIT Demo - Press 1/2/3/4/5/6/7/8 to switch modes, M meshes"
        };
        if self.benchmark.is_some() {
            Some(WindowPlan { title, width: 640, height: 360, visible: false })
        } else {
            Some(WindowPlan { title, width: 1280, height: 720, visible: true })
        }
    }

    /// Takes the window that was opened, with its size. Gives the mode to announce.
    pub fn window_opened(&mut self, width: u32, height: u32, aspect: u32) -> (mode: RenderMode)
        requires
            old(self).well_formed(),
            width <= u32::MAX - 32,
            height <= u32::MAX - 32,
        ensures
            final(self).well_formed(),
            mode == RenderMode::DepthSlicedOit,
            final(self).renderer matches Some(renderer) && {
                &&& renderer.mode == mode
                &&& renderer.width == at_least_one(width)
                &&& renderer.height == at_least_one(height)
                &&& renderer.splats is None
                &&& renderer.index_counts@.len() == 0
                &&& renderer.frame_index == 0
            },
            *final(self) == (App {
                has_window: true,
                renderer: final(self).renderer,
                camera: Camera { aspect, ..old(self).camera },
                ..*old(self)
            }),
    {
        let renderer = Renderer::new(width, height);
        let mode = renderer.mode;
        self.camera.aspect = aspect;
        self.renderer = Some(renderer);
        self.has_window = true;
        mode
    }

    /// Whether `actions` is the answer to a key and `next` the application after it.
    pub open spec fn obeys(self, command: Command, next: App, actions: Seq<Action>) -> bool {
        match self.renderer {
            None => next == self && actions.len() == 0,
            Some(renderer) => match command {
                Command::SelectMode(mode) => {
                    &&& next == App { renderer: Some(Renderer { mode, ..renderer }), ..self }
                    &&& actions == seq![Action::AnnounceMode(mode)]
                },
                Command::ResetCamera => {
                    &&& next == App { camera: next.camera, ..self }
                    &&& next.camera.is_at_start()
                    &&& next.camera.has_lens_of(self.camera)
                    &&& actions == seq![Action::AnnounceCameraReset]
                },
                Command::ToggleMeshes => {
                    let shown = !self.scene.show_meshes;
                    &&& next == App { scene: Scene { show_meshes: shown, ..self.scene }, ..self }
                    &&& actions == seq![Action::AnnounceMeshes(shown)]
                },
                Command::NextCap => if renderer.splats is Some {
                    &&& next == App { cap: next_cap(self.cap), ..self }
                    &&& actions == seq![
                        Action::ApplyCap { fraction: fraction_of(next_cap(self.cap)) },
                    ]
                } else {
                    next == self && actions.len() == 0
                },
                Command::ShrinkSplats => next == self && actions == seq![Action::ShrinkSplats],
                Command::GrowSplats => next == self && actions == seq![Action::GrowSplats],
                Command::ToggleOpaque => {
                    let opaque = !self.scene.force_opaque;
                    &&& next == App { scene: Scene { force_opaque: opaque, ..self.scene }, ..self }
                    &&& actions == seq![Action::AnnounceOpaque(opaque)]
                },
                Command::Nothing => next == self && actions.len() == 0,
            },
        }
    }

    /// Does what a key asks for, where there is a window to show it.
    fn run_command(&mut self, command: Command) -> (actions: Vec<Action>)
        requires
            old(self).well_formed(),
        ensures
            final(self).well_formed(),
            old(self).obeys(command, *final(self), actions@),
    {
        let mut actions: Vec<Action> = Vec::new();
        match &mut self.renderer {
            None => {},
            Some(renderer) => match command {
                Command::SelectMode(mode) => {
                    renderer.mode = mode;
                    actions.push(Action::AnnounceMode(mode));
                },
                Command::ResetCamera => {
                    self.camera.reset();
                    actions.push(Action::AnnounceCameraReset);
                },
                Command::ToggleMeshes => {
                    self.scene.show_meshes = !self.scene.show_meshes;
                    actions.push(Action::AnnounceMeshes(self.scene.show_meshes));
                },
                Command::NextCap => {
                    if renderer.has_splats() {
                        self.cap = (self.cap + 1) % CAP_STEPS;
                        actions.push(Action::ApplyCap { fraction: cap_fraction(self.cap) });
                    }
                },
                Command::ShrinkSplats => {
                    actions.push(Action::ShrinkSplats);
                },
                Command::GrowSplats => {
                    actions.push(Action::GrowSplats);
                },
                Command::ToggleOpaque => {
                    self.scene.force_opaque = !self.scene.force_opaque;
                    actions.push(Action::AnnounceOpaque(self.scene.force_opaque));
                },
                Command::Nothing => {},
            },
        }
        actions
    }

    /// The uploads that the next frame still waits for.
    pub open spec fn uploads(self) -> Seq<Action> {
        let scene = if self.scene_uploaded {
            seq![]
        } else {
            seq![Action::UploadScene]
        };
        let splats = if self.has_splats && !self.splats_uploaded {
            seq![Action::UploadSplats]
        } else {
            seq![]
        };
        scene + splats
    }

    /// The order is kept fresh for the one mode that draws the splats in it.
    pub open spec fn sorting(self) -> Seq<Action> {
        if self.sorter is None {
            seq![]
        } else if self.renderer matches Some(renderer) && renderer.mode == RenderMode::AlphaBlend {
            seq![Action::PollSorter, Action::RequestOrder]
        } else {
            seq![Action::PollSorter]
        }
    }

    /// Whether `actions` shows the next frame and `next` is the application after it: the
    /// scene and the splats are uploaded before the first frame, and a benchmark, where one is
    /// asked for, runs in place of it.
    pub open spec fn redraws(self, next: App, actions: Seq<Action>) -> bool {
        if self.renderer is None {
            &&& next == self
            &&& actions == if self.has_window {
                seq![Action::UpdateScene, Action::RequestRedraw]
            } else {
                seq![Action::UpdateScene]
            }
        } else {
            &&& next == App {
                scene_uploaded: true,
                splats_uploaded: self.splats_uploaded || self.has_splats,
                benchmark: None,
                ..self
            }
            &&& actions == seq![Action::UpdateScene] + self.uploads() + match self.benchmark {
                Some(config) => seq![Action::RunBenchmark(config), Action::Exit],
                None => self.sorting() + if self.has_window {
                    seq![Action::Render, Action::RequestRedraw]
                } else {
                    seq![Action::Render]
                },
            }
        }
    }

    /// Shows the next frame.
    fn redraw(&mut self) -> (actions: Vec<Action>)
        requires
            old(self).well_formed(),
        ensures
            final(self).well_formed(),
            old(self).redraws(*final(self), actions@),
    {
        let mut actions: Vec<Action> = Vec::new();
        actions.push(Action::UpdateScene);
        if let Some(renderer) = &self.renderer {
            if !self.scene_uploaded {
                actions.push(Action::UploadScene);
                self.scene_uploaded = true;
            }
            if self.has_splats && !self.splats_uploaded {
                actions.push(Action::UploadSplats);
                self.splats_uploaded = true;
            }
            proof {
                assert(actions@ =~= seq![Action::UpdateScene] + old(self).uploads());
            }
            if let Some(config) = self.benchmark.take() {
                actions.push(Action::RunBenchmark(config));
                actions.push(Action::Exit);
                proof {
                    assert(actions@ =~= seq![Action::UpdateScene] + old(self).uploads() + seq![
                        Action::RunBenchmark(config),
                        Action::Exit,
                    ]);
                }
                return actions;
            }
            if self.sorter.is_some() {
                actions.push(Action::PollSorter);
                if renderer.mode == RenderMode::AlphaBlend {
                    actions.push(Action::RequestOrder);
                }
            }
            actions.push(Action::Render);
        }
        if self.has_window {
            actions.push(Action::RequestRedraw);
        }
        proof {
            let shown = old(self).sorting() + if self.has_window {
                seq![Action::Render, Action::RequestRedraw]
            } else {
                seq![Action::Render]
            };
            assert(old(self).renderer is Some ==> actions@ =~= seq![Action::UpdateScene]
                + old(self).uploads() + shown);
        }
        actions
    }

    /// Whether `actions` is the answer to an event of the window and `next` the application
    /// after it.
    pub open spec fn answers(self, event: Event, next: App, actions: Seq<Action>) -> bool {
        match event {
            Event::CloseRequested => next == self && actions == seq![Action::Exit],
            Event::Resized { width, height, aspect } => match self.renderer {
                None => next == self && actions.len() == 0,
                Some(renderer) => {
                    &&& next.renderer matches Some(resized) && resized == Renderer {
                        width: at_least_one(width),
                        height: at_least_one(height),
                        histo_params: resized.histo_params,
                        ..renderer
                    }
                    &&& next == App {
                        renderer: next.renderer,
                        camera: Camera { aspect, ..self.camera },
                        ..self
                    }
                    &&& actions == seq![Action::Resize]
                },
            },
            Event::Character(text) => self.obeys(command_of(text@), next, actions),
            Event::Escape => next == self && if self.renderer is Some {
                actions == seq![Action::Exit]
            } else {
                actions.len() == 0
            },
            Event::LeftButton { pressed } => {
                &&& next == App {
                    camera: Camera {
                        dragging: pressed,
                        last_mouse: if pressed {
                            self.camera.last_mouse
                        } else {
                            None
                        },
                        ..self.camera
                    },
                    ..self
                }
                &&& actions.len() == 0
            },
            Event::CursorMoved { x, y } => {
                &&& next == App {
                    camera: Camera { last_mouse: Some((x, y)), ..self.camera },
                    ..self
                }
                &&& match self.camera.drag_origin() {
                    Some(from) => actions == seq![Action::Orbit { from, to: (x, y) }],
                    None => actions.len() == 0,
                }
            },
            Event::MouseWheel { delta } => next == self && actions == seq![Action::Zoom { delta }],
            Event::RedrawRequested => self.redraws(next, actions),
            Event::Other => next == self && actions.len() == 0,
        }
    }

    /// Answers an event of the window. What the actions say is then done in their order.
    pub fn window_event(&mut self, event: Event) -> (actions: Vec<Action>)
        requires
            old(self).well_formed(),
            event matches Event::Resized { width, height, .. } ==> width <= u32::MAX - 32
                && height <= u32::MAX - 32,
        ensures
            final(self).well_formed(),
            old(self).answers(event, *final(self), actions@),
    {
        let mut actions: Vec<Action> = Vec::new();
        match event {
            Event::CloseRequested => {
                actions.push(Action::Exit);
            },
            Event::Resized { width, height, aspect } => {
                if let Some(renderer) = &mut self.renderer {
                    self.camera.aspect = aspect;
                    renderer.resize(width, height);
                    actions.push(Action::Resize);
                }
            },
            Event::Character(text) => {
                return self.run_command(key_command(text.as_str()));
            },
            Event::Escape => {
                if self.renderer.is_some() {
                    actions.push(Action::Exit);
                }
            },
            Event::LeftButton { pressed } => {
                self.camera.set_dragging(pressed);
            },
            Event::CursorMoved { x, y } => {
                if let Some(from) = self.camera.on_mouse_move(x, y) {
                    actions.push(Action::Orbit { from, to: (x, y) });
                }
            },
            Event::MouseWheel { delta } => {
                actions.push(Action::Zoom { delta });
            },
            Event::RedrawRequested => {
                return self.redraw();
            },
            Event::Other => {},
        }
        actions
    }
}

/// The render cap after this one; the last one is followed by the first.
pub open spec fn next_cap(cap: usize) -> usize {
    ((cap + 1) % CAP_STEPS as int) as usize
}

/// Bit pattern of the fraction of the scene that a render cap draws: all of it, a half, a
/// quarter, a tenth.
pub open spec fn fraction_of(cap: usize) -> u32 {
    if cap == 0 {
        0x3f80_0000
    } else if cap == 1 {
        0x3f00_0000
    } else if cap == 2 {
        0x3e80_0000
    } else {
        0x3dcc_cccd
    }
}

/// The fraction of the scene that a render cap draws.
pub fn cap_fraction(cap: usize) -> (fraction: u32)
    requires
        cap < CAP_STEPS,
    ensures
        fraction == fraction_of(cap),
{
    match cap {
        0 => 0x3f80_0000,
        1 => 0x3f00_0000,
        2 => 0x3e80_0000,
        _ => 0x3dcc_cccd,
    }
}

/// The render caps come round: after as many presses as there are caps, the first one is
/// back.
pub proof fn caps_come_round(cap: usize)
    requires
        cap < CAP_STEPS,
    ensures
        next_cap(next_cap(next_cap(next_cap(cap)))) == cap,
        next_cap(cap) != cap,
        next_cap(next_cap(cap)) != cap,
        next_cap(next_cap(next_cap(cap))) != cap,
{
}

/// Four presses of the cap's key bring back the cap: the last one asks for the fraction that the
/// first cap stands for. Between presses anything else may change.
pub proof fn four_presses_bring_back_the_cap(
    before: Seq<App>,
    after: Seq<App>,
    actions: Seq<Seq<Action>>,
)
    requires
        before.len() == 4,
        after.len() == 4,
        actions.len() == 4,
        before[0].cap < CAP_STEPS,
        forall|i: int|
            0 <= i < 4 ==> {
                &&& (#[trigger] before[i]).renderer matches Some(renderer) && renderer.splats is Some
                &&& before[i].obeys(Command::NextCap, after[i], actions[i])
            },
        forall|i: int, j: int|
            0 <= i && j == i + 1 && j < 4 ==> (#[trigger] before[j]).cap == (
            #[trigger] after[i]).cap,
    ensures
        after[3].cap == before[0].cap,
        actions[3] == seq![Action::ApplyCap { fraction: fraction_of(before[0].cap) }],
{
    assert(before[0].obeys(Command::NextCap, after[0], actions[0]));
    assert(before[1].obeys(Command::NextCap, after[1], actions[1]));
    assert(before[2].obeys(Command::NextCap, after[2], actions[2]));
    assert(before[3].obeys(Command::NextCap, after[3], actions[3]));
    caps_come_round(before[0].cap);
}

/// Every cap draws less of the scene than the one before it.
pub proof fn caps_shrink(cap: usize, later: usize)
    requires
        cap < later < CAP_STEPS,
    ensures
        !ieee::is_nan(fraction_of(cap)),
        !ieee::is_nan(fraction_of(later)),
        ieee::value(fraction_of(cap)) > ieee::value(fraction_of(later)) > 0,
{
    ieee::rank_orders_values(fraction_of(cap), fraction_of(later));
    ieee::rank_orders_values(ieee::ZERO, fraction_of(later));
    assert(ieee::value(ieee::ZERO) == 0);
}

/// Every mode is selected by the key that is its number.
pub proof fn modes_have_keys(mode: RenderMode)
    ensures
        command_of(seq![(mode.key() + 48) as char]) == Command::SelectMode(mode),
{
    let c = (mode.key() + 48) as char;
    assert forall|d: char| (#[trigger] seq![d]) == seq![c] <==> d == c by {
        assert(seq![d][0] == d && seq![c][0] == c);
    }
}

/// A key that toggles, pressed twice, leaves the application as it was.
pub proof fn toggles_undo_themselves(
    command: Command,
    start: App,
    middle: App,
    end: App,
    first: Seq<Action>,
    second: Seq<Action>,
)
    requires
        command == Command::ToggleMeshes || command == Command::ToggleOpaque,
        start.obeys(command, middle, first),
        middle.obeys(command, end, second),
    ensures
        end == start,
{
}

/// Without a window no key does anything.
pub proof fn keys_need_a_window(text: Seq<char>, app: App, next: App, actions: Seq<Action>)
    requires
        app.well_formed(),
        !app.has_window,
        app.obeys(command_of(text), next, actions),
    ensures
        next == app,
        actions.len() == 0,
{
}

/// An event and its answer, with the application before and after.
pub struct Turn {
    pub before: App,
    pub event: Event,
    pub after: App,
    pub actions: Seq<Action>,
}

/// Whether these are turns of one application. Between two turns the actions are done, which
/// changes nothing of what is uploaded and what is still to be run.
pub open spec fn are_turns(turns: Seq<Turn>) -> bool {
    &&& forall|i: int|
        0 <= i < turns.len() ==> {
            let turn = #[trigger] turns[i];
            turn.before.answers(turn.event, turn.after, turn.actions)
        }
    &&& forall|i: int, j: int|
        0 <= i && j == i + 1 && j < turns.len() ==> {
            let left = (#[trigger] turns[i]).after;
            let found = (#[trigger] turns[j]).before;
            &&& found.scene_uploaded == left.scene_uploaded
            &&& found.splats_uploaded == left.splats_uploaded
            &&& found.benchmark == left.benchmark
        }
}

/// Whether an action is one that is done once.
pub open spec fn is_done_once(action: Action) -> bool {
    action is UploadScene || action is UploadSplats || action is RunBenchmark
}

/// The scene and the splats are uploaded once, and a benchmark is run once: no two turns of an
/// application hold the same one of these actions.
pub proof fn once_is_enough(turns: Seq<Turn>, i: int, j: int, action: Action, other: Action)
    requires
        are_turns(turns),
        0 <= i < j < turns.len(),
        is_done_once(action),
        turns[i].actions.contains(action),
        action is UploadScene ==> other is UploadScene,
        action is UploadSplats ==> other is UploadSplats,
        action is RunBenchmark ==> other is RunBenchmark,
    ensures
        !turns[j].actions.contains(other),
{
    lemma_done(turns[i], action);
    lemma_stays_done(turns, i, j, action);
    lemma_not_done_again(turns[j], other);
}

/// Whether an application has nothing left to do of a kind that is done once.
spec fn is_done(app: App, action: Action) -> bool {
    match action {
        Action::UploadScene => app.scene_uploaded,
        Action::UploadSplats => app.splats_uploaded,
        Action::RunBenchmark(_) => app.benchmark is None,
        _ => true,
    }
}

proof fn lemma_done(turn: Turn, action: Action)
    requires
        turn.before.answers(turn.event, turn.after, turn.actions),
        is_done_once(action),
        turn.actions.contains(action),
    ensures
        is_done(turn.after, action),
{
}

proof fn lemma_not_done_again(turn: Turn, action: Action)
    requires
        turn.before.answers(turn.event, turn.after, turn.actions),
        is_done_once(action),
        is_done(turn.before, action),
    ensures
        !turn.actions.contains(action),
{
}

proof fn lemma_stays_done(turns: Seq<Turn>, i: int, j: int, action: Action)
    requires
        are_turns(turns),
        0 <= i < j < turns.len(),
        is_done(turns[i].after, action),
    ensures
        is_done(turns[j].before, action),
    decreases j - i,
{
    if j > i + 1 {
        lemma_stays_done(turns, i, j - 1, action);
        let turn = turns[j - 1];
        assert(turn.before.answers(turn.event, turn.after, turn.actions));
    } else {
        assert(turns[i].before.answers(turns[i].event, turns[i].after, turns[i].actions));
    }
}

/// A benchmark leaves the application: the turn that runs it ends with the exit and shows no
/// picture.
pub proof fn benchmark_exits(app: App, next: App, actions: Seq<Action>)
    requires
        app.well_formed(),
        app.has_window,
        app.benchmark is Some,
        app.answers(Event::RedrawRequested, next, actions),
    ensures
        actions.last() == Action::Exit,
        actions.contains(Action::RunBenchmark(app.benchmark->0)),
        !actions.contains(Action::Render),
        !actions.contains(Action::RequestRedraw),
{
    assert(actions[actions.len() - 2] == Action::RunBenchmark(app.benchmark->0));
}

/// Frames follow one another: a picture that is shown asks for the next one, and what it shows
/// has been uploaded, now or before.
pub proof fn frames_follow(app: App, next: App, actions: Seq<Action>)
    requires
        app.well_formed(),
        app.answers(Event::RedrawRequested, next, actions),
        actions.contains(Action::Render),
    ensures
        actions.last() == Action::RequestRedraw,
        actions[actions.len() - 2] == Action::Render,
        next.scene_uploaded,
        next.splats_uploaded || !next.has_splats,
{
}

/// What a character does as a key, over all characters.
pub proof fn keys_have_one_meaning(c: char)
    ensures
        command_of(seq![c]) is SelectMode <==> '1' <= c <= '8',
        command_of(seq![c]) is ResetCamera <==> c == 'r' || c == 'R',
        command_of(seq![c]) is ToggleMeshes <==> c == 'm' || c == 'M',
        command_of(seq![c]) is NextCap <==> c == 'c' || c == 'C',
        command_of(seq![c]) is ShrinkSplats <==> c == '[',
        command_of(seq![c]) is GrowSplats <==> c == ']',
        command_of(seq![c]) is ToggleOpaque <==> c == 'o' || c == 'O',
{
    assert forall|d: char| (#[trigger] seq![d]) == seq![c] <==> d == c by {
        assert(seq![d][0] == d && seq![c][0] == c);
    }
}

/// Only single characters are keys.
pub proof fn keys_are_single_characters(text: Seq<char>)
    requires
        text.len() != 1,
    ensures
        command_of(text) == Command::Nothing,
{
    lemma_only_single_characters(text);
}

/// Whether every `first` stands before every `second`.
pub open spec fn precedes(actions: Seq<Action>, first: Action, second: Action) -> bool {
    forall|i: int, j: int|
        0 <= i < actions.len() && 0 <= j < actions.len() && #[trigger] actions[i] == first
            && #[trigger] actions[j] == second ==> i < j
}

/// A frame that is shown takes a finished order first, wherever orders are made, and asks for the
/// next one exactly in the mode that draws in order, whatever the sorting thread is doing.
#[verifier::rlimit(40)]
pub proof fn frames_keep_the_order_fresh(app: App, next: App, actions: Seq<Action>)
    requires
        app.renderer is Some,
        app.sorter is Some,
        app.benchmark is None,
        app.answers(Event::RedrawRequested, next, actions),
    ensures
        actions.contains(Action::Render),
        actions.contains(Action::PollSorter),
        precedes(actions, Action::PollSorter, Action::Render),
        actions.contains(Action::RequestOrder) <==> app.renderer->0.mode == RenderMode::AlphaBlend,
        precedes(actions, Action::PollSorter, Action::RequestOrder),
        precedes(actions, Action::RequestOrder, Action::Render),
{
    let front = seq![Action::UpdateScene] + app.uploads();
    let at = front.len() as int;
    assert(actions[at] == Action::PollSorter);
    if app.renderer->0.mode == RenderMode::AlphaBlend {
        assert(actions[at + 1] == Action::RequestOrder);
        assert(actions[at + 2] == Action::Render);
    } else {
        assert(actions[at + 1] == Action::Render);
    }
}

/// Without a sorting thread, in a benchmark and without a window no order is asked for.
#[verifier::rlimit(40)]
pub proof fn orders_need_a_sorter(app: App, next: App, actions: Seq<Action>)
    requires
        app.renderer is None || app.sorter is None || app.benchmark is Some,
        app.answers(Event::RedrawRequested, next, actions),
    ensures
        !actions.contains(Action::PollSorter),
        !actions.contains(Action::RequestOrder),
{
}

/// A redraw advances the scene before anything else, uploads what is not uploaded yet, runs the
/// benchmark where there is one and otherwise shows a picture.
#[verifier::rlimit(40)]
pub proof fn redraws_do_what_is_due(app: App, next: App, actions: Seq<Action>)
    requires
        app.renderer is Some,
        app.answers(Event::RedrawRequested, next, actions),
    ensures
        actions.len() > 0,
        actions[0] == Action::UpdateScene,
        actions.contains(Action::UploadScene) <==> !app.scene_uploaded,
        actions.contains(Action::UploadSplats) <==> app.has_splats && !app.splats_uploaded,
        forall|config: BenchmarkConfig|
            #[trigger] actions.contains(Action::RunBenchmark(config)) <==> app.benchmark == Some(
                config,
            ),
        actions.contains(Action::Exit) <==> app.benchmark is Some,
        actions.contains(Action::Render) <==> app.benchmark is None,
        actions.contains(Action::RequestRedraw) <==> app.benchmark is None && app.has_window,
{
    let uploads = app.uploads();
    let at = 1 + uploads.len() as int;
    if !app.scene_uploaded {
        assert(actions[1] == Action::UploadScene);
    }
    if app.has_splats && !app.splats_uploaded {
        assert(actions[at - 1] == Action::UploadSplats);
    }
    if let Some(config) = app.benchmark {
        assert(actions[at] == Action::RunBenchmark(config));
        assert(actions[at + 1] == Action::Exit);
    } else {
        let shown = at + app.sorting().len();
        assert(actions[shown] == Action::Render);
        if app.has_window {
            assert(actions[shown + 1] == Action::RequestRedraw);
        }
    }
}

/// When in a redraw an action has its turn.
pub open spec fn stage(action: Action) -> int {
    match action {
        Action::UpdateScene => 0,
        Action::UploadScene => 1,
        Action::UploadSplats => 2,
        Action::RunBenchmark(_) => 3,
        Action::PollSorter => 4,
        Action::RequestOrder => 5,
        Action::Render => 6,
        Action::RequestRedraw => 7,
        Action::Exit => 8,
        _ => -1,
    }
}

/// A redraw goes through its stages in order and does nothing twice: it advances the scene,
/// uploads, and then runs the benchmark or takes, asks for and draws an order.
#[verifier::rlimit(40)]
pub proof fn redraws_go_through_stages(app: App, next: App, actions: Seq<Action>, i: int, j: int)
    requires
        app.answers(Event::RedrawRequested, next, actions),
        0 <= i < j < actions.len(),
    ensures
        0 <= stage(actions[i]) < stage(actions[j]),
{
}

/// A redraw leaves everything uploaded and no benchmark to run, and changes nothing else.
pub proof fn redraws_change_little(app: App, next: App, actions: Seq<Action>)
    requires
        app.answers(Event::RedrawRequested, next, actions),
    ensures
        app.renderer is None ==> next == app,
        app.renderer is Some ==> {
            &&& next.scene_uploaded
            &&& next.splats_uploaded == (app.splats_uploaded || app.has_splats)
            &&& next.benchmark is None
        },
        next.has_window == app.has_window,
        next.renderer == app.renderer,
        next.camera == app.camera,
        next.scene == app.scene,
        next.has_splats == app.has_splats,
        next.sorter == app.sorter,
        next.cap == app.cap,
{
}

/// Without a window a redraw only advances the scene.
pub proof fn hidden_frames_advance_the_scene(app: App, next: App, actions: Seq<Action>)
    requires
        app.well_formed(),
        !app.has_window,
        app.answers(Event::RedrawRequested, next, actions),
    ensures
        actions == seq![Action::UpdateScene],
{
}

/// A mode's key selects that mode, whichever one was selected, announces it and changes nothing
/// else.
pub proof fn mode_keys_select(app: App, mode: RenderMode, next: App, actions: Seq<Action>)
    requires
        app.renderer is Some,
        app.obeys(Command::SelectMode(mode), next, actions),
    ensures
        next.renderer is Some,
        next.renderer->0.mode == mode,
        next.renderer->0.width == app.renderer->0.width,
        next.renderer->0.height == app.renderer->0.height,
        next.renderer->0.histo_params == app.renderer->0.histo_params,
        next.renderer->0.splats == app.renderer->0.splats,
        next.renderer->0.index_counts == app.renderer->0.index_counts,
        next.renderer->0.frame_index == app.renderer->0.frame_index,
        next == (App { renderer: next.renderer, ..app }),
        actions.len() == 1,
        actions[0] == Action::AnnounceMode(next.renderer->0.mode),
{
}

/// The toggles turn round what they are for and announce what it has become.
pub proof fn toggles_turn_round(app: App, next: App, actions: Seq<Action>)
    requires
        app.renderer is Some,
    ensures
        app.obeys(Command::ToggleMeshes, next, actions) ==> {
            &&& next.scene.show_meshes == !app.scene.show_meshes
            &&& next.scene.force_opaque == app.scene.force_opaque
            &&& next.scene.objects == app.scene.objects
            &&& actions.len() == 1
            &&& actions[0] == Action::AnnounceMeshes(next.scene.show_meshes)
        },
        app.obeys(Command::ToggleOpaque, next, actions) ==> {
            &&& next.scene.force_opaque == !app.scene.force_opaque
            &&& next.scene.show_meshes == app.scene.show_meshes
            &&& next.scene.objects == app.scene.objects
            &&& actions.len() == 1
            &&& actions[0] == Action::AnnounceOpaque(next.scene.force_opaque)
        },
        app.obeys(Command::ToggleMeshes, next, actions) || app.obeys(
            Command::ToggleOpaque,
            next,
            actions,
        ) ==> next == (App { scene: next.scene, ..app }),
{
}

/// The remaining keys: the cap moves on where splats are loaded and nowhere else, sizes are asked
/// for in any case, and the camera goes back to its start.
pub proof fn other_keys_do_their_part(app: App, next: App, actions: Seq<Action>)
    requires
        app.renderer is Some,
        app.cap < CAP_STEPS,
    ensures
        app.obeys(Command::NextCap, next, actions) ==> {
            &&& app.renderer->0.splats is Some ==> actions.len() == 1 && actions[0]
                == (Action::ApplyCap { fraction: fraction_of(next.cap) })
            &&& app.renderer->0.splats is Some && app.cap + 1 < CAP_STEPS ==> next.cap == app.cap
                + 1
            &&& app.renderer->0.splats is Some && app.cap + 1 == CAP_STEPS ==> next.cap == 0
            &&& app.renderer->0.splats is None ==> next.cap == app.cap && actions.len() == 0
            &&& next == (App { cap: next.cap, ..app })
        },
        app.obeys(Command::ShrinkSplats, next, actions) ==> next == app && actions.len() == 1
            && actions[0] == Action::ShrinkSplats,
        app.obeys(Command::GrowSplats, next, actions) ==> next == app && actions.len() == 1
            && actions[0] == Action::GrowSplats,
        app.obeys(Command::Nothing, next, actions) ==> next == app && actions.len() == 0,
        app.obeys(Command::ResetCamera, next, actions) ==> {
            &&& next == (App { camera: next.camera, ..app })
            &&& next.camera.aspect == app.camera.aspect
            &&& !next.camera.dragging
            &&& next.camera.last_mouse is None
            &&& actions.len() == 1
            &&& actions[0] == Action::AnnounceCameraReset
        },
{
}

/// What the window's events do, one by one.
#[verifier::rlimit(40)]
pub proof fn events_have_their_answers(app: App, event: Event, next: App, actions: Seq<Action>)
    requires
        app.well_formed(),
        app.answers(event, next, actions),
    ensures
        event is CloseRequested ==> actions == seq![Action::Exit],
        event is Escape ==> actions == if app.has_window {
            seq![Action::Exit]
        } else {
            Seq::<Action>::empty()
        },
        event is CloseRequested || event is Escape || event is MouseWheel || event is Other ==> next
            == app,
        event is Other ==> actions.len() == 0,
        event matches Event::MouseWheel { delta } ==> actions == seq![Action::Zoom { delta }],
        event matches Event::LeftButton { pressed } ==> {
            &&& next.camera.dragging == pressed
            &&& pressed ==> next.camera.last_mouse == app.camera.last_mouse
            &&& !pressed ==> next.camera.last_mouse is None
            &&& actions.len() == 0
        },
        event matches Event::CursorMoved { x, y } ==> {
            &&& next.camera.last_mouse == Some((x, y))
            &&& next.camera.dragging == app.camera.dragging
            &&& app.camera.dragging && app.camera.last_mouse is Some ==> actions == seq![
                Action::Orbit { from: app.camera.last_mouse->0, to: (x, y) },
            ]
            &&& !app.camera.dragging || app.camera.last_mouse is None ==> actions.len() == 0
        },
        event is LeftButton || event is CursorMoved ==> next == (App {
            camera: Camera {
                dragging: next.camera.dragging,
                last_mouse: next.camera.last_mouse,
                ..app.camera
            },
            ..app
        }),
{
}

/// A new size reaches the renderer and the camera, where there is a window, and nothing else.
pub proof fn new_sizes_arrive(
    app: App,
    width: u32,
    height: u32,
    aspect: u32,
    next: App,
    actions: Seq<Action>,
)
    requires
        app.well_formed(),
        app.answers(Event::Resized { width, height, aspect }, next, actions),
    ensures
        !app.has_window ==> next == app && actions.len() == 0,
        app.has_window ==> {
            &&& actions == seq![Action::Resize]
            &&& next.renderer is Some
            &&& next.renderer->0.width >= 1 && next.renderer->0.height >= 1
            &&& width > 0 ==> next.renderer->0.width == width
            &&& height > 0 ==> next.renderer->0.height == height
            &&& width == 0 ==> next.renderer->0.width == 1
            &&& height == 0 ==> next.renderer->0.height == 1
            &&& next.renderer->0.mode == app.renderer->0.mode
            &&& next.renderer->0.splats == app.renderer->0.splats
            &&& next.renderer->0.index_counts == app.renderer->0.index_counts
            &&& next.renderer->0.frame_index == app.renderer->0.frame_index
            &&& next.camera.aspect == aspect
            &&& next.camera == (Camera { aspect, ..app.camera })
            &&& next == (App { renderer: next.renderer, camera: next.camera, ..app })
        },
{
}

/// The caps draw all of the scene, a half, a quarter and a tenth: the first ones halve exactly, and
/// the last one is the smallest number that is no less than a tenth.
pub proof fn caps_draw_simple_fractions()
    ensures
        ieee::value(fraction_of(0)) == ieee::value(ieee::ONE),
        2 * ieee::value(fraction_of(1)) == ieee::value(fraction_of(0)),
        2 * ieee::value(fraction_of(2)) == ieee::value(fraction_of(1)),
        10 * ieee::value(fraction_of(3)) >= ieee::value(ieee::ONE),
        10 * ieee::value((fraction_of(3) - 1) as u32) < ieee::value(ieee::ONE),
{
    ieee::exponents_double(fraction_of(1));
    ieee::exponents_double(fraction_of(2));
    vstd::arithmetic::power2::lemma_pow2_adds(122, 4);
    vstd::arithmetic::power2::lemma_pow2_pos(122);
    vstd::arithmetic::power2::lemma2_to64();
    let p = vstd::arithmetic::power2::pow2(122) as int;
    let q = vstd::arithmetic::power2::pow2(126) as int;
    assert(q == 16 * p);
    ieee::exponents_scale_fractions(ieee::ONE, 127, 0);
    ieee::exponents_scale_fractions(0x3dcc_cccd, 123, 0x4c_cccd);
    ieee::exponents_scale_fractions(0x3dcc_cccc, 123, 0x4c_cccc);
    assert(ieee::value(ieee::ONE) == 0x80_0000 * q);
    assert(ieee::value(fraction_of(3)) == 0xcc_cccd * p);
    assert(ieee::value((fraction_of(3) - 1) as u32) == 0xcc_cccc * p);
}

/// A character does what its key is for, whatever else goes on.
pub proof fn characters_are_keys(app: App, text: String, next: App, actions: Seq<Action>)
    requires
        app.answers(Event::Character(text), next, actions),
    ensures
        app.obeys(command_of(text@), next, actions),
{
}

/// Without a window no command does anything.
pub proof fn commands_need_a_window(app: App, command: Command, next: App, actions: Seq<Action>)
    requires
        app.renderer is None,
        app.obeys(command, next, actions),
    ensures
        next == app,
        actions.len() == 0,
{
}

} // verus!
