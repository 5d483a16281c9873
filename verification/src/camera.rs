//! The orbit camera's settings and how the mouse changes them. Real numbers are held as bit
//! patterns: of 32 bits for settings, of 64 bits for mouse positions.
use crate::ieee;
use vstd::prelude::*;

verus! {

/// Bit pattern of 0.5.
pub const START_YAW: u32 = 0x3f00_0000;

/// Bit pattern of 0.3.
pub const START_PITCH: u32 = 0x3e99_999a;

/// Bit pattern of 8.0.
pub const START_DISTANCE: u32 = 0x4100_0000;

/// Bit pattern of 45 degrees in radians.
pub const FIELD_OF_VIEW: u32 = 0x3f49_0fdb;

/// Bit pattern of 2.0.
pub const NEAR_PLANE: u32 = 0x4000_0000;

/// Bit pattern of 15.0.
pub const FAR_PLANE: u32 = 0x4170_0000;

/// Bit pattern of -1.4.
pub const MIN_PITCH: u32 = 0xbfb3_3333;

/// Bit pattern of 1.4.
pub const MAX_PITCH: u32 = 0x3fb3_3333;

/// Bit pattern of 1.0.
pub const MIN_DISTANCE: u32 = 0x3f80_0000;

/// Bit pattern of 50.0.
pub const MAX_DISTANCE: u32 = 0x4248_0000;

#[derive(Clone, Copy)]
pub struct Camera {
    pub yaw: u32,
    pub pitch: u32,
    pub distance: u32,
    pub target: [u32; 3],
    pub aspect: u32,
    pub fov_y: u32,
    pub near: u32,
    pub far: u32,
    /// Whether the left button is held down.
    pub dragging: bool,
    /// Where the mouse was last seen.
    pub last_mouse: Option<(u64, u64)>,
}

impl Camera {
    /// Whether the camera is where it starts: its direction, distance and target, with no drag
    /// under way.
    pub open spec fn is_at_start(self) -> bool {
        &&& self.yaw == START_YAW
        &&& self.pitch == START_PITCH
        &&& self.distance == START_DISTANCE
        &&& self.target@ == seq![ieee::ZERO, ieee::ZERO, ieee::ZERO]
        &&& !self.dragging
        &&& self.last_mouse is None
    }

    /// Whether two cameras have the same lens: aspect, field of view, near and far plane.
    pub open spec fn has_lens_of(self, other: Camera) -> bool {
        &&& self.aspect == other.aspect
        &&& self.fov_y == other.fov_y
        &&& self.near == other.near
        &&& self.far == other.far
    }

    /// A camera at its start.
    pub fn new(aspect: u32) -> (camera: Self)
        ensures
            camera.is_at_start(),
            camera.aspect == aspect,
            camera.fov_y == FIELD_OF_VIEW,
            camera.near == NEAR_PLANE,
            camera.far == FAR_PLANE,
    {
        Camera {
            yaw: START_YAW,
            pitch: START_PITCH,
            distance: START_DISTANCE,
            target: [ieee::ZERO, ieee::ZERO, ieee::ZERO],
            aspect,
            fov_y: FIELD_OF_VIEW,
            near: NEAR_PLANE,
            far: FAR_PLANE,
            dragging: false,
            last_mouse: None,
        }
    }

    /// The words that the shaders read: the matrix from the world to the screen by columns, the
    /// near and the far plane, and padding.
    pub fn uniform(&self, view_proj: &[u32; 16]) -> (words: Vec<u32>)
        ensures
            words@ == view_proj@ + seq![self.near, self.far, ieee::ZERO, ieee::ZERO],
    {
        let mut words: Vec<u32> = Vec::with_capacity(20);
        let mut i: usize = 0;
        while i < 16
            invariant
                i <= 16,
                words@ == view_proj@.take(i as int),
            decreases 16 - i,
        {
            words.push(view_proj[i]);
            i = i + 1;
        }
        words.push(self.near);
        words.push(self.far);
        words.push(ieee::ZERO);
        words.push(ieee::ZERO);
        words
    }

    /// Where a drag moves the camera from: the last mouse position, while the button is held.
    pub open spec fn drag_origin(self) -> Option<(u64, u64)> {
        if self.dragging {
            self.last_mouse
        } else {
            None
        }
    }

    /// Follows the mouse. Gives the position that the camera is dragged from, where it is
    /// dragged; the distance that the mouse moved since then is what `orbit` turns by.
    pub fn on_mouse_move(&mut self, x: u64, y: u64) -> (from: Option<(u64, u64)>)
        ensures
            from == old(self).drag_origin(),
            !old(self).dragging ==> from is None,
            old(self).dragging ==> from == old(self).last_mouse,
            *final(self) == (Camera { last_mouse: Some((x, y)), ..*old(self) }),
    {
        let from = if self.dragging { self.last_mouse } else { None };
        self.last_mouse = Some((x, y));
        from
    }

    /// Turns the camera to a direction; the pitch is held short of the poles.
    pub fn orbit(&mut self, yaw: u32, pitch: u32)
        ensures
            *final(self) == (Camera {
                yaw,
                pitch: ieee::clamped(pitch, MIN_PITCH, MAX_PITCH),
                ..*old(self)
            }),
            !ieee::is_nan(pitch) ==> ieee::value(MIN_PITCH) <= ieee::value(final(self).pitch)
                <= ieee::value(MAX_PITCH),
            !ieee::is_nan(pitch) && ieee::value(MIN_PITCH) <= ieee::value(pitch) <= ieee::value(
                MAX_PITCH,
            ) ==> final(self).pitch == pitch,
    {
        proof {
            ieee::rank_orders_values(MIN_PITCH, MAX_PITCH);
        }
        self.yaw = yaw;
        self.pitch = ieee::clamp(pitch, MIN_PITCH, MAX_PITCH);
    }

    /// Moves the camera to a distance, held between the nearest and the farthest one.
    pub fn on_scroll(&mut self, distance: u32)
        ensures
            *final(self) == (Camera {
                distance: ieee::clamped(distance, MIN_DISTANCE, MAX_DISTANCE),
                ..*old(self)
            }),
            !ieee::is_nan(distance) ==> ieee::value(MIN_DISTANCE) <= ieee::value(
                final(self).distance,
            ) <= ieee::value(MAX_DISTANCE),
            !ieee::is_nan(distance) && ieee::value(MIN_DISTANCE) <= ieee::value(distance)
                <= ieee::value(MAX_DISTANCE) ==> final(self).distance == distance,
    {
        proof {
            ieee::rank_orders_values(MIN_DISTANCE, MAX_DISTANCE);
        }
        self.distance = ieee::clamp(distance, MIN_DISTANCE, MAX_DISTANCE);
    }

    /// Starts a drag, or ends it and forgets where the mouse was.
    pub fn set_dragging(&mut self, pressed: bool)
        ensures
            *final(self) == (Camera {
                dragging: pressed,
                last_mouse: if pressed {
                    old(self).last_mouse
                } else {
                    None
                },
                ..*old(self)
            }),
    {
        self.dragging = pressed;
        if !pressed {
            self.last_mouse = None;
        }
    }

    /// Puts the camera back to its start; the lens stays.
    pub fn reset(&mut self)
        ensures
            final(self).is_at_start(),
            final(self).has_lens_of(*old(self)),
    {
        self.yaw = START_YAW;
        self.pitch = START_PITCH;
        self.distance = START_DISTANCE;
        self.target = [ieee::ZERO, ieee::ZERO, ieee::ZERO];
        self.dragging = false;
        self.last_mouse = None;
    }
}

/// A drag starts where the mouse was last seen, and only while the button is held.
pub proof fn drags_need_the_button(camera: Camera)
    ensures
        !camera.dragging ==> camera.drag_origin() is None,
        camera.dragging ==> camera.drag_origin() == camera.last_mouse,
{
}

/// A reset forgets everything but the lens: two cameras at their start with the same lens agree in
/// every setting.
pub proof fn resets_forget_all_but_the_lens(a: Camera, b: Camera, c: int)
    requires
        a.is_at_start(),
        b.is_at_start(),
        a.has_lens_of(b),
        0 <= c < 3,
    ensures
        a.yaw == START_YAW,
        a.pitch == START_PITCH,
        a.distance == START_DISTANCE,
        a.yaw == b.yaw,
        a.pitch == b.pitch,
        a.distance == b.distance,
        a.target@[c] == b.target@[c],
        a.target@[c] == ieee::ZERO,
        a.aspect == b.aspect,
        a.fov_y == b.fov_y,
        a.near == b.near,
        a.far == b.far,
        !a.dragging,
        a.last_mouse is None,
        a.dragging == b.dragging,
        a.last_mouse == b.last_mouse,
{
}

/// The camera starts inside the bounds that it is held to.
pub proof fn the_start_is_within_bounds(camera: Camera)
    requires
        camera.is_at_start(),
    ensures
        ieee::clamped(camera.pitch, MIN_PITCH, MAX_PITCH) == camera.pitch,
        ieee::clamped(camera.distance, MIN_DISTANCE, MAX_DISTANCE) == camera.distance,
{
    ieee::rank_orders_values(MIN_PITCH, camera.pitch);
    ieee::rank_orders_values(camera.pitch, MAX_PITCH);
    ieee::rank_orders_values(MIN_DISTANCE, camera.distance);
    ieee::rank_orders_values(camera.distance, MAX_DISTANCE);
}

} // verus!
