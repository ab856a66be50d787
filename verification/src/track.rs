//! The track curve: a periodic lateral offset of the road's centerline as
//! a function of world depth, the sole source of road curvature.

use vstd::prelude::*;
use crate::num::div_floor;
use crate::num::lemma_div_range;
use crate::num::lemma_mul_abs_bound;
use crate::trig::TURN;
use crate::trig::TRIG_ONE;
use crate::trig::sin_fp;
use crate::trig::lemma_sin_fp_periodic;
use crate::trig::lemma_sin_fp_bounds;

verus! {

/// Full width of the road surface, in world units.
pub const TRACK_WIDTH: i64 = 280;

/// Amplitude of the centerline's lateral swing, in world units.
pub const CURVE_AMPLITUDE: i64 = 140;

/// Depth period of the centerline: one angle step per world unit of depth,
/// so the curve repeats after `TURN` world units.
pub const CURVE_PERIOD: i64 = TURN;

/// The lateral offset of the road's center at world depth `z`: a sine of
/// the depth, scaled to the curve amplitude.
pub open spec fn center_offset_s(z: int) -> int {
    CURVE_AMPLITUDE * sin_fp(z) / (TRIG_ONE as int)
}

/// The centerline is periodic in depth with period `CURVE_PERIOD`, exactly.
pub proof fn lemma_center_offset_periodic(z: int)
    ensures
        center_offset_s(z + CURVE_PERIOD) == center_offset_s(z),
{
    lemma_sin_fp_periodic(z);
}

/// The centerline never leaves the band of one amplitude on either side.
pub proof fn lemma_center_offset_bounded(z: int)
    ensures
        -CURVE_AMPLITUDE <= center_offset_s(z) <= CURVE_AMPLITUDE,
{
    lemma_sin_fp_bounds(z);
    lemma_mul_abs_bound(CURVE_AMPLITUDE as int, sin_fp(z), CURVE_AMPLITUDE as int, TRIG_ONE as int);
    lemma_div_range(
        CURVE_AMPLITUDE as int * sin_fp(z),
        TRIG_ONE as int,
        -(CURVE_AMPLITUDE as int),
        CURVE_AMPLITUDE as int,
    );
}

/// Computes the centerline offset on machine integers.
pub fn center_offset(z: i64) -> (r: i64)
    requires
        -0x4000_0000_0000_0000 < z < 0x4000_0000_0000_0000,
    ensures
        r == center_offset_s(z as int),
        -CURVE_AMPLITUDE <= r <= CURVE_AMPLITUDE,
{
    let s: i64 = crate::trig::sin_q(z);
    proof {
        lemma_mul_abs_bound(CURVE_AMPLITUDE as int, s as int, CURVE_AMPLITUDE as int, TRIG_ONE as int);
        lemma_div_range(
            CURVE_AMPLITUDE as int * s as int,
            TRIG_ONE as int,
            -(CURVE_AMPLITUDE as int),
            CURVE_AMPLITUDE as int,
        );
    }
    div_floor(CURVE_AMPLITUDE * s, TRIG_ONE)
}

/// The road renderer for one screen: its dimensions and the road's world
/// width.
pub struct Track {
    pub width: usize,
    pub height: usize,
    pub track_width: i64,
}

impl Track {
    /// The renderer invariant: screen dimensions the projection accepts
    /// and the fixed road width.
    pub open spec fn wf(self) -> bool {
        &&& 1 <= self.width <= crate::camera::MAX_SCREEN_DIM
        &&& 1 <= self.height <= crate::camera::MAX_SCREEN_DIM
        &&& self.track_width == TRACK_WIDTH
    }

    /// Creates a renderer for a screen of the given size.
    pub fn new(width: usize, height: usize) -> (t: Track)
        requires
            1 <= width <= crate::camera::MAX_SCREEN_DIM,
            1 <= height <= crate::camera::MAX_SCREEN_DIM,
        ensures
            t.width == width,
            t.height == height,
            t.track_width == TRACK_WIDTH,
            t.wf(),
    {
        Track { width, height, track_width: TRACK_WIDTH }
    }

    /// Adopts a new screen size, as after a window resize.
    pub fn resize(&mut self, width: usize, height: usize)
        requires
            old(self).wf(),
            1 <= width <= crate::camera::MAX_SCREEN_DIM,
            1 <= height <= crate::camera::MAX_SCREEN_DIM,
        ensures
            final(self).width == width,
            final(self).height == height,
            final(self).track_width == old(self).track_width,
            final(self).wf(),
    {
        self.width = width;
        self.height = height;
    }

    /// Renders one frame of scenery: the flat background, then the road
    /// in perspective on top of it.
    ///
    /// The contract states the composition: every in-frame pixel of the
    /// first `height` rows outside the road's spans shows the background
    /// color of its row (sky above the horizon, ground below), every row
    /// inside the rasterized band carries a fully painted road span over
    /// that background, the nearest cross-section's row is filled with
    /// the plain road color, and nothing outside the screen changes.
    pub fn draw(&self, frame: &mut Vec<u8>, camera: &crate::camera::Camera)
        requires
            self.wf(),
            camera.wf(),
            -(crate::camera::COORD_LIMIT - crate::rasterizer::MAX_DRAW_DISTANCE) <= camera.z
                <= crate::camera::COORD_LIMIT - crate::rasterizer::MAX_DRAW_DISTANCE,
        ensures
            final(frame).len() == old(frame).len(),
            forall|i: int|
                0 <= i < old(frame).len() ==> final(frame)@[i] == old(frame)@[i] || (
                crate::framebuffer::pixel_in_frame(
                    old(frame).len() as int,
                    self.width as int,
                    crate::framebuffer::col_of(i, self.width as int),
                    crate::framebuffer::row_of(i, self.width as int),
                ) && crate::framebuffer::row_of(i, self.width as int) < self.height),
            forall|i: int|
                0 <= i < old(frame).len() && crate::framebuffer::pixel_in_frame(
                    old(frame).len() as int,
                    self.width as int,
                    crate::framebuffer::col_of(i, self.width as int),
                    crate::framebuffer::row_of(i, self.width as int),
                ) && crate::framebuffer::row_of(i, self.width as int) < self.height
                    && !crate::rasterizer::within_road_span_s(
                    *camera,
                    self.width as int,
                    self.height as int,
                    crate::framebuffer::row_of(i, self.width as int),
                    crate::framebuffer::col_of(i, self.width as int),
                ) ==> final(frame)@[i] == crate::framebuffer::channel_s(
                    crate::background::background_color_s(
                        crate::framebuffer::row_of(i, self.width as int),
                        self.height as int,
                    ),
                    i % 4,
                ),
            forall|y: int|
                crate::rasterizer::rows_bracket_s(*camera, self.width as int, self.height as int, y)
                    ==> #[trigger] crate::rasterizer::row_painted_road_s(
                    *camera,
                    self.width as int,
                    self.height as int,
                    final(frame)@,
                    y,
                ),
            forall|dn: int|
                #![trigger crate::rasterizer::nearest_surviving_depth_s(*camera, self.width as int, self.height as int, dn)]
                crate::rasterizer::nearest_surviving_depth_s(
                    *camera,
                    self.width as int,
                    self.height as int,
                    dn,
                ) && (exists|d2: int|
                    crate::rasterizer::surviving_depth_s(*camera, d2) && d2 != dn)
                    && crate::rasterizer::road_sample_s(
                    *camera,
                    self.width as int,
                    self.height as int,
                    dn,
                ).left_x <= crate::rasterizer::road_sample_s(
                    *camera,
                    self.width as int,
                    self.height as int,
                    dn,
                ).right_x ==> crate::rasterizer::row_strip_plain_road_s(
                    final(frame)@,
                    self.width as int,
                    crate::rasterizer::depth_row_s(
                        *camera,
                        self.width as int,
                        self.height as int,
                        dn,
                    ),
                    crate::rasterizer::road_sample_s(
                        *camera,
                        self.width as int,
                        self.height as int,
                        dn,
                    ).left_x as int,
                    crate::rasterizer::road_sample_s(
                        *camera,
                        self.width as int,
                        self.height as int,
                        dn,
                    ).right_x as int,
                ),
    {
        crate::background::fill_background(frame, self.width, self.height);
        crate::rasterizer::draw_road(frame, self.width, self.height, camera);
    }
}

} // verus!
