//! The trailing camera: view pose, the perspective projection, and the
//! planar distance used for depth ordering.
//!
//! World lengths are plain integer units; the yaw angle is a fixed-point
//! angle (see `trig`); screen coordinates are pixel indices.  Projection
//! culls points closer than `NEAR_PLANE` in camera-facing depth and clamps
//! everything else onto the screen, so a cull is the only way a point can
//! fail to produce a pixel position.

use vstd::prelude::*;
use crate::num::clamp_s;
use crate::num::clamp_i64;
use crate::num::div_floor;
use crate::num::isqrt;
use crate::num::lemma_div_magnitude;
use crate::num::lemma_div_range;
use crate::num::lemma_mul_abs_bound;
use crate::trig::TURN;
use crate::trig::TRIG_ONE;
use crate::trig::sin_fp;
use crate::trig::cos_fp;
use crate::trig::sin_q;
use crate::trig::cos_q;

verus! {

/// Points nearer than this camera-facing depth are culled instead of
/// projected.
pub const NEAR_PLANE: i64 = 1;

/// Floor of the perspective divisor, so very close points cannot blow the
/// projection up.
pub const MIN_DEPTH_DENOM: i64 = 5;

/// Overall strength of the perspective foreshortening.
pub const PROJECTION_STRENGTH: i64 = 400;

/// Largest magnitude of a world coordinate the pipeline accepts.
pub const COORD_LIMIT: i64 = 1_000_000;

/// Largest speed the camera ever records.
pub const SPEED_LIMIT: i64 = 1_000;

/// Lowest height the camera can be smoothed to.
pub const MIN_CAMERA_HEIGHT: i64 = 18;

/// Highest height the camera can be smoothed to.
pub const MAX_CAMERA_HEIGHT: i64 = 80;

/// Height of a freshly created camera.
pub const INITIAL_CAMERA_HEIGHT: i64 = 60;

/// Base trailing distance behind the target, before the speed term.
pub const FOLLOW_BASE_DISTANCE: i64 = 35;

/// Shortest allowed trailing distance.
pub const FOLLOW_MIN_DISTANCE: i64 = 20;

/// Longest allowed trailing distance.
pub const FOLLOW_MAX_DISTANCE: i64 = 120;

/// Base trailing height, before the speed term.
pub const FOLLOW_BASE_HEIGHT: i64 = 50;

/// Largest screen dimension the projection accepts.
pub const MAX_SCREEN_DIM: usize = 16384;

/// The camera pose: position on the ground plane, yaw, height above the
/// ground, and the last observed target speed.
#[derive(Clone, Copy, PartialEq, Eq, Structural, Debug)]
pub struct Camera {
    pub x: i64,
    pub z: i64,
    pub direction: i64,
    pub height: i64,
    pub speed: i64,
}

/// The squared planar distance between two ground points.
pub open spec fn dist_sq_s(ax: int, az: int, bx: int, bz: int) -> int {
    (bx - ax) * (bx - ax) + (bz - az) * (bz - az)
}

/// The screen row of the horizon: a fixed fraction (three fifths) of the
/// screen height, shared between the projection and the background fill.
pub open spec fn horizon_row_s(h: int) -> int {
    3 * h / 5
}

/// The trailing distance for a given target speed: grows with speed,
/// clamped to a safe range.
pub open spec fn follow_distance_s(speed: int) -> int {
    clamp_s(FOLLOW_BASE_DISTANCE + 12 * speed / 10, FOLLOW_MIN_DISTANCE as int, FOLLOW_MAX_DISTANCE as int)
}

/// The desired camera height for a given target speed: sinks with speed,
/// clamped to a safe range.
pub open spec fn follow_height_s(speed: int) -> int {
    clamp_s(FOLLOW_BASE_HEIGHT - speed / 2, MIN_CAMERA_HEIGHT as int, MAX_CAMERA_HEIGHT as int)
}

/// The x offset that places the camera behind a target facing `dir`.
pub open spec fn follow_offset_x_s(dir: int, speed: int) -> int {
    -(sin_fp(dir) * follow_distance_s(speed)) / (TRIG_ONE as int)
}

/// The z offset that places the camera behind a target facing `dir`.
pub open spec fn follow_offset_z_s(dir: int, speed: int) -> int {
    -(cos_fp(dir) * follow_distance_s(speed)) / (TRIG_ONE as int)
}

/// The exponential smoothing blend for the camera position: 85 parts the
/// current value, 15 parts the desired one.
pub open spec fn blend_pos_s(cur: int, desired: int) -> int {
    (cur * 85 + desired * 15) / 100
}

/// The exponential smoothing blend for the camera height: 9 parts the
/// current value, 1 part the desired one.
pub open spec fn blend_height_s(cur: int, desired: int) -> int {
    (cur * 9 + desired) / 10
}

/// The camera-relative x of a world point, rotated into camera-facing
/// space.
pub open spec fn rot_x_s(cam: Camera, wx: int, wz: int) -> int {
    ((wx - cam.x) * cos_fp(cam.direction as int) - (wz - cam.z) * sin_fp(cam.direction as int))
        / (TRIG_ONE as int)
}

/// The camera-facing depth of a world point.
pub open spec fn rot_z_s(cam: Camera, wx: int, wz: int) -> int {
    ((wx - cam.x) * sin_fp(cam.direction as int) + (wz - cam.z) * cos_fp(cam.direction as int))
        / (TRIG_ONE as int)
}

/// The perspective divisor: the camera-facing depth, floored at
/// `MIN_DEPTH_DENOM`.
pub open spec fn depth_denom_s(cam: Camera, wx: int, wz: int) -> int {
    if rot_z_s(cam, wx, wz) < MIN_DEPTH_DENOM {
        MIN_DEPTH_DENOM as int
    } else {
        rot_z_s(cam, wx, wz)
    }
}

/// The speed-reactive scale of the perspective factor, in hundredths.
pub open spec fn speed_scale_s(cam: Camera) -> int {
    100 + 3 * cam.speed
}

/// The unclamped screen column of a projected world point.
pub open spec fn screen_x_s(cam: Camera, wx: int, wz: int, w: int) -> int {
    w / 2 + rot_x_s(cam, wx, wz) * (PROJECTION_STRENGTH * speed_scale_s(cam)) / (
    100 * depth_denom_s(cam, wx, wz))
}

/// The unclamped screen row of a projected world point.  The height term
/// is inverted (camera height minus world height) so lower world points
/// land lower on the screen, and the vertical scale is eight tenths.
pub open spec fn screen_y_s(cam: Camera, wx: int, wz: int, wy: int, h: int) -> int {
    horizon_row_s(h) + (cam.height - wy) * (PROJECTION_STRENGTH * speed_scale_s(cam) * 8) / (
    1000 * depth_denom_s(cam, wx, wz))
}

/// Whether a world point survives the near-plane cull.
pub open spec fn visible_s(cam: Camera, wx: int, wz: int) -> bool {
    rot_z_s(cam, wx, wz) >= NEAR_PLANE
}

/// The screen column a visible world point projects to, clamped onto the
/// screen.
pub open spec fn screen_col_s(cam: Camera, wx: int, wz: int, w: int) -> int {
    clamp_s(screen_x_s(cam, wx, wz, w), 0, w - 1)
}

/// The screen row a visible world point projects to, clamped onto the
/// screen.
pub open spec fn screen_row_s(cam: Camera, wx: int, wz: int, wy: int, h: int) -> int {
    clamp_s(screen_y_s(cam, wx, wz, wy, h), 0, h - 1)
}

impl Camera {
    /// The pose invariant: coordinates, yaw, height and speed all lie in
    /// the ranges the projection arithmetic is safe for.
    pub open spec fn wf(self) -> bool {
        &&& -COORD_LIMIT <= self.x <= COORD_LIMIT
        &&& -COORD_LIMIT <= self.z <= COORD_LIMIT
        &&& 0 <= self.direction < TURN
        &&& MIN_CAMERA_HEIGHT <= self.height <= MAX_CAMERA_HEIGHT
        &&& 0 <= self.speed <= SPEED_LIMIT
    }

    /// Creates a camera at the given ground position, facing yaw zero at
    /// the initial height, at rest.
    pub fn new(x: i64, z: i64) -> (cam: Camera)
        requires
            -COORD_LIMIT <= x <= COORD_LIMIT,
            -COORD_LIMIT <= z <= COORD_LIMIT,
        ensures
            cam == (Camera { x, z, direction: 0, height: INITIAL_CAMERA_HEIGHT, speed: 0 }),
            cam.wf(),
    {
        Camera { x, z, direction: 0, height: INITIAL_CAMERA_HEIGHT, speed: 0 }
    }

    /// Moves the camera one smoothing step toward a trailing pose behind
    /// the target: position and height are blended, yaw and speed are
    /// copied unsmoothed.
    pub fn follow_player(
        &mut self,
        player_x: i64,
        player_z: i64,
        player_direction: i64,
        player_speed: i64,
    )
        requires
            old(self).wf(),
            -(COORD_LIMIT - FOLLOW_MAX_DISTANCE) <= player_x <= COORD_LIMIT - FOLLOW_MAX_DISTANCE,
            -(COORD_LIMIT - FOLLOW_MAX_DISTANCE) <= player_z <= COORD_LIMIT - FOLLOW_MAX_DISTANCE,
            0 <= player_direction < TURN,
            0 <= player_speed <= SPEED_LIMIT,
        ensures
            final(self).x == blend_pos_s(
                old(self).x as int,
                player_x + follow_offset_x_s(player_direction as int, player_speed as int),
            ),
            final(self).z == blend_pos_s(
                old(self).z as int,
                player_z + follow_offset_z_s(player_direction as int, player_speed as int),
            ),
            final(self).height == blend_height_s(
                old(self).height as int,
                follow_height_s(player_speed as int),
            ),
            final(self).direction == player_direction,
            final(self).speed == player_speed,
            final(self).wf(),
    {
        let base_distance: i64 = clamp_i64(
            FOLLOW_BASE_DISTANCE + 12 * player_speed / 10,
            FOLLOW_MIN_DISTANCE,
            FOLLOW_MAX_DISTANCE,
        );
        let base_height: i64 = clamp_i64(
            FOLLOW_BASE_HEIGHT - player_speed / 2,
            MIN_CAMERA_HEIGHT,
            MAX_CAMERA_HEIGHT,
        );

        let sin_d: i64 = sin_q(player_direction);
        let cos_d: i64 = cos_q(player_direction);
        proof {
            lemma_mul_abs_bound(sin_d as int, base_distance as int, TRIG_ONE as int, FOLLOW_MAX_DISTANCE as int);
            lemma_mul_abs_bound(cos_d as int, base_distance as int, TRIG_ONE as int, FOLLOW_MAX_DISTANCE as int);
            lemma_div_magnitude(-(sin_d as int * base_distance as int), TRIG_ONE as int);
            lemma_div_magnitude(-(cos_d as int * base_distance as int), TRIG_ONE as int);
            lemma_div_range(-(sin_d as int * base_distance as int), TRIG_ONE as int, -(FOLLOW_MAX_DISTANCE as int), FOLLOW_MAX_DISTANCE as int);
            lemma_div_range(-(cos_d as int * base_distance as int), TRIG_ONE as int, -(FOLLOW_MAX_DISTANCE as int), FOLLOW_MAX_DISTANCE as int);
        }
        let offset_x: i64 = div_floor(-(sin_d * base_distance), TRIG_ONE);
        let offset_z: i64 = div_floor(-(cos_d * base_distance), TRIG_ONE);

        let desired_x: i64 = player_x + offset_x;
        let desired_z: i64 = player_z + offset_z;
        proof {
            lemma_div_range(
                old(self).x as int * 85 + desired_x as int * 15,
                100,
                -(COORD_LIMIT as int),
                COORD_LIMIT as int,
            );
            lemma_div_range(
                old(self).z as int * 85 + desired_z as int * 15,
                100,
                -(COORD_LIMIT as int),
                COORD_LIMIT as int,
            );
            lemma_div_range(
                old(self).height as int * 9 + base_height as int,
                10,
                MIN_CAMERA_HEIGHT as int,
                MAX_CAMERA_HEIGHT as int,
            );
        }
        self.x = div_floor(self.x * 85 + desired_x * 15, 100);
        self.z = div_floor(self.z * 85 + desired_z * 15, 100);
        self.height = div_floor(self.height * 9 + base_height, 10);
        self.direction = player_direction;
        self.speed = player_speed;
    }

    /// Projects a world point onto the screen.
    ///
    /// Returns nothing exactly when the point lies closer than the near
    /// plane in camera-facing depth; otherwise returns the projected
    /// column and row, each clamped onto the screen.
    pub fn world_to_screen(
        &self,
        world_x: i64,
        world_z: i64,
        world_y: i64,
        screen_w: usize,
        screen_h: usize,
    ) -> (r: Option<(usize, usize)>)
        requires
            self.wf(),
            -COORD_LIMIT <= world_x <= COORD_LIMIT,
            -COORD_LIMIT <= world_z <= COORD_LIMIT,
            -COORD_LIMIT <= world_y <= COORD_LIMIT,
            1 <= screen_w <= MAX_SCREEN_DIM,
            1 <= screen_h <= MAX_SCREEN_DIM,
        ensures
            r is None <==> rot_z_s(*self, world_x as int, world_z as int) < NEAR_PLANE,
            r is Some <==> visible_s(*self, world_x as int, world_z as int),
            r matches Some((sx, sy)) ==> {
                &&& sx as int == screen_col_s(*self, world_x as int, world_z as int, screen_w as int)
                &&& sy as int == screen_row_s(
                    *self,
                    world_x as int,
                    world_z as int,
                    world_y as int,
                    screen_h as int,
                )
                &&& sx < screen_w
                &&& sy < screen_h
            },
    {
        let rel_x: i64 = world_x - self.x;
        let rel_z: i64 = world_z - self.z;
        let rel_y: i64 = self.height - world_y;

        let cos_d: i64 = cos_q(self.direction);
        let sin_d: i64 = sin_q(self.direction);

        proof {
            lemma_mul_abs_bound(rel_x as int, cos_d as int, 2 * COORD_LIMIT as int, TRIG_ONE as int);
            lemma_mul_abs_bound(rel_z as int, sin_d as int, 2 * COORD_LIMIT as int, TRIG_ONE as int);
            lemma_mul_abs_bound(rel_x as int, sin_d as int, 2 * COORD_LIMIT as int, TRIG_ONE as int);
            lemma_mul_abs_bound(rel_z as int, cos_d as int, 2 * COORD_LIMIT as int, TRIG_ONE as int);
        }
        let num_x: i64 = rel_x * cos_d - rel_z * sin_d;
        let num_z: i64 = rel_x * sin_d + rel_z * cos_d;
        proof {
            lemma_div_magnitude(num_x as int, TRIG_ONE as int);
            lemma_div_magnitude(num_z as int, TRIG_ONE as int);
        }
        let rot_x: i64 = div_floor(num_x, TRIG_ONE);
        let rot_z: i64 = div_floor(num_z, TRIG_ONE);

        if rot_z < NEAR_PLANE {
            return None;
        }

        let denom: i64 = if rot_z < MIN_DEPTH_DENOM {
            MIN_DEPTH_DENOM
        } else {
            rot_z
        };
        let scale: i64 = 100 + 3 * self.speed;

        let w_i: i64 = screen_w as i64;
        let h_i: i64 = screen_h as i64;

        proof {
            assert(-0x20_0000_0000_0000 <= rot_x as int * (PROJECTION_STRENGTH as int
                * scale as int) <= 0x20_0000_0000_0000) by (nonlinear_arith)
                requires
                    -0x1_0000_0000 <= rot_x as int <= 0x1_0000_0000,
                    0 < PROJECTION_STRENGTH as int * scale as int <= 0x20_0000,
            ;
            assert(-0x200_0000_0000_0000 <= rel_y as int * (PROJECTION_STRENGTH as int
                * scale as int * 8) <= 0x200_0000_0000_0000) by (nonlinear_arith)
                requires
                    -0x2000_0000 <= rel_y as int <= 0x2000_0000,
                    0 < PROJECTION_STRENGTH as int * scale as int * 8 <= 0x100_0000,
            ;
        }
        let sx_num: i64 = rot_x * (PROJECTION_STRENGTH * scale);
        let sy_num: i64 = rel_y * (PROJECTION_STRENGTH * scale * 8);

        proof {
            lemma_div_magnitude(sx_num as int, 100 * denom as int);
            lemma_div_magnitude(sy_num as int, 1000 * denom as int);
        }
        let sx_raw: i64 = w_i / 2 + div_floor(sx_num, 100 * denom);
        let sy_raw: i64 = 3 * h_i / 5 + div_floor(sy_num, 1000 * denom);

        let sx: i64 = clamp_i64(sx_raw, 0, w_i - 1);
        let sy: i64 = clamp_i64(sy_raw, 0, h_i - 1);

        Some((sx as usize, sy as usize))
    }

    /// The planar distance from the camera to a ground point: the integer
    /// square root of the squared distance.  Zero exactly when the point
    /// is the camera's own position.
    pub fn distance_to(&self, x: i64, z: i64) -> (r: i64)
        requires
            self.wf(),
            -COORD_LIMIT <= x <= COORD_LIMIT,
            -COORD_LIMIT <= z <= COORD_LIMIT,
        ensures
            0 <= r,
            r == crate::num::sqrt_floor_s(dist_sq_s(self.x as int, self.z as int, x as int, z as int)),
            r * r <= dist_sq_s(self.x as int, self.z as int, x as int, z as int) < (r + 1) * (r
                + 1),
            r == 0 <==> (x == self.x && z == self.z),
    {
        let dx: i64 = x - self.x;
        let dz: i64 = z - self.z;
        proof {
            lemma_mul_abs_bound(dx as int, dx as int, 2 * COORD_LIMIT as int, 2 * COORD_LIMIT as int);
            lemma_mul_abs_bound(dz as int, dz as int, 2 * COORD_LIMIT as int, 2 * COORD_LIMIT as int);
            assert(dx as int * dx as int >= 0) by (nonlinear_arith);
            assert(dz as int * dz as int >= 0) by (nonlinear_arith);
        }
        let sq: i64 = dx * dx + dz * dz;
        let root: u64 = isqrt(sq as u64);
        proof {
            assert(sq as u64 == sq as int);
            assert(root <= 3_000_000) by (nonlinear_arith)
                requires
                    root as int * root as int <= 8_000_000_000_000,
            ;
            if root == 0 {
                assert(sq as int == 0) by (nonlinear_arith)
                    requires
                        root as int == 0,
                        0 <= sq as int,
                        (sq as int) < ((root as int + 1) * (root as int + 1)),
                ;
                assert(dx as int * dx as int + dz as int * dz as int == 0 ==> dx as int == 0
                    && dz as int == 0) by (nonlinear_arith);
            }
            if dx == 0 && dz == 0 {
                assert(root as int * root as int <= 0 ==> root as int == 0) by (nonlinear_arith);
            }
        }
        root as i64
    }
}

/// The planar distance does not depend on which end is the camera:
/// swapping the two points changes neither the squared distance nor its
/// integer square root, and the distance is zero exactly when the points
/// coincide.
pub proof fn lemma_distance_symmetric_and_zero(ax: int, az: int, bx: int, bz: int)
    ensures
        dist_sq_s(ax, az, bx, bz) == dist_sq_s(bx, bz, ax, az),
        crate::num::sqrt_floor_s(dist_sq_s(ax, az, bx, bz)) == crate::num::sqrt_floor_s(
            dist_sq_s(bx, bz, ax, az),
        ),
        dist_sq_s(ax, az, bx, bz) == 0 <==> (ax == bx && az == bz),
{
    assert(dist_sq_s(ax, az, bx, bz) == dist_sq_s(bx, bz, ax, az) && (dist_sq_s(ax, az, bx, bz)
        == 0 <==> (ax == bx && az == bz))) by (nonlinear_arith);
}

} // verus!
