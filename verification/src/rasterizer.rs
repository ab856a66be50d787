//! The road rasterizer: samples the curving road along depth, projects
//! each cross-section through the camera, sorts the surviving samples by
//! screen row, and fills every row between adjacent samples by linear
//! interpolation, so no background shows through the road surface.

use vstd::prelude::*;
use crate::camera::Camera;
use crate::camera::MAX_SCREEN_DIM;
use crate::camera::COORD_LIMIT;
use crate::camera::visible_s;
use crate::camera::screen_col_s;
use crate::camera::screen_row_s;
use crate::track::TRACK_WIDTH;
use crate::track::center_offset;
use crate::track::center_offset_s;
use crate::track::lemma_center_offset_bounded;
use crate::framebuffer::Color;
use crate::framebuffer::channel_s;
use crate::framebuffer::col_of;
use crate::framebuffer::row_of;
use crate::framebuffer::pixel_in_frame;
use crate::framebuffer::set_pixel;
use crate::framebuffer::fill_row_solid;

verus! {

/// How far behind the camera's own depth sampling starts, so the nearest
/// strip of road overlaps the bottom screen edge.
pub const DRAW_BEHIND: i64 = 200;

/// How far ahead of the camera's own depth sampling stops.
pub const MAX_DRAW_DISTANCE: i64 = 1500;

/// World-depth distance between two successive road samples.
pub const DEPTH_STEP: i64 = 3;

/// One surviving road cross-section: the screen row it projects to, the
/// projected columns of the road's left edge, right edge and centerline,
/// and the depth offset it was sampled at.
#[derive(Clone, Copy, PartialEq, Eq, Structural, Debug)]
pub struct RoadSample {
    pub screen_y: usize,
    pub left_x: usize,
    pub right_x: usize,
    pub center_x: usize,
    pub depth: i64,
}

/// The world x of the road's left edge at depth `z`.
pub open spec fn road_left_world_s(z: int) -> int {
    center_offset_s(z) - TRACK_WIDTH / 2
}

/// The world x of the road's right edge at depth `z`.
pub open spec fn road_right_world_s(z: int) -> int {
    center_offset_s(z) + TRACK_WIDTH / 2
}

/// Whether a depth offset is one of the sampled candidates: it lies in
/// the drawing range and on the sampling grid.
pub open spec fn depth_on_grid_s(d: int) -> bool {
    &&& -DRAW_BEHIND <= d < MAX_DRAW_DISTANCE
    &&& (d + DRAW_BEHIND) % (DEPTH_STEP as int) == 0
}

/// Whether the whole road cross-section at depth offset `d` survives the
/// cull: its left edge, centerline and right edge must all be visible.
/// Opaque for the same reason as `road_sample_s`.
#[verifier::opaque]
pub open spec fn cross_section_visible_s(cam: Camera, d: int) -> bool {
    let z = cam.z + d;
    &&& visible_s(cam, road_left_world_s(z), z)
    &&& visible_s(cam, road_right_world_s(z), z)
    &&& visible_s(cam, center_offset_s(z), z)
}

/// The sample record a visible cross-section at depth offset `d` yields:
/// each edge projected and clamped, and the screen row the midpoint of
/// the two edge rows.  Opaque: proofs about the drawn frame treat the
/// record as a value; only the sampling itself unfolds the projection.
#[verifier::opaque]
pub open spec fn road_sample_s(cam: Camera, w: int, h: int, d: int) -> RoadSample {
    let z = cam.z + d;
    let lx = road_left_world_s(z);
    let rx = road_right_world_s(z);
    let cx = center_offset_s(z);
    RoadSample {
        screen_y: ((screen_row_s(cam, lx, z, 0, h) + screen_row_s(cam, rx, z, 0, h)) / 2) as usize,
        left_x: screen_col_s(cam, lx, z, w) as usize,
        right_x: screen_col_s(cam, rx, z, w) as usize,
        center_x: screen_col_s(cam, cx, z, w) as usize,
        depth: d as i64,
    }
}

/// Whether a sample record is exactly the projection of a fully visible
/// on-grid road cross-section, with all screen fields inside a `w` by `h`
/// screen.
pub open spec fn sample_wf_s(cam: Camera, w: int, h: int, s: RoadSample) -> bool {
    &&& depth_on_grid_s(s.depth as int)
    &&& cross_section_visible_s(cam, s.depth as int)
    &&& s == road_sample_s(cam, w, h, s.depth as int)
    &&& (s.screen_y as int) < h
    &&& (s.left_x as int) < w
    &&& (s.right_x as int) < w
    &&& (s.center_x as int) < w
}

/// Samples the road along depth and keeps exactly the fully visible
/// cross-sections, in ascending depth order, each projected into a
/// `RoadSample`.
pub fn collect_road_samples(cam: &Camera, width: usize, height: usize) -> (r: Vec<RoadSample>)
    requires
        cam.wf(),
        -(COORD_LIMIT - MAX_DRAW_DISTANCE) <= cam.z <= COORD_LIMIT - MAX_DRAW_DISTANCE,
        1 <= width <= MAX_SCREEN_DIM,
        1 <= height <= MAX_SCREEN_DIM,
    ensures
        forall|j: int|
            0 <= j < r@.len() ==> sample_wf_s(*cam, width as int, height as int, #[trigger] r@[j]),
        forall|j1: int, j2: int|
            0 <= j1 < j2 < r@.len() ==> r@[j1].depth < r@[j2].depth,
        forall|d: int|
            depth_on_grid_s(d) && cross_section_visible_s(*cam, d) ==> exists|j: int|
                0 <= j < r@.len() && r@[j].depth == d,
{
    let mut samples: Vec<RoadSample> = Vec::new();
    let mut d: i64 = -DRAW_BEHIND;
    while d < MAX_DRAW_DISTANCE
        invariant
            cam.wf(),
            -(COORD_LIMIT - MAX_DRAW_DISTANCE) <= cam.z <= COORD_LIMIT - MAX_DRAW_DISTANCE,
            1 <= width <= MAX_SCREEN_DIM,
            1 <= height <= MAX_SCREEN_DIM,
            -DRAW_BEHIND <= d <= MAX_DRAW_DISTANCE + DEPTH_STEP,
            (d + DRAW_BEHIND) % (DEPTH_STEP as int) == 0,
            forall|j: int|
                0 <= j < samples@.len() ==> sample_wf_s(
                    *cam,
                    width as int,
                    height as int,
                    #[trigger] samples@[j],
                ),
            forall|j: int| 0 <= j < samples@.len() ==> (#[trigger] samples@[j]).depth < d,
            forall|j1: int, j2: int|
                0 <= j1 < j2 < samples@.len() ==> samples@[j1].depth < samples@[j2].depth,
            forall|e: int|
                -DRAW_BEHIND <= e < d && depth_on_grid_s(e) && cross_section_visible_s(*cam, e)
                    ==> exists|j: int| 0 <= j < samples@.len() && samples@[j].depth == e,
        decreases MAX_DRAW_DISTANCE + DEPTH_STEP - d,
    {
        let ghost pre_samples: Seq<RoadSample> = samples@;
        let z: i64 = cam.z + d;
        proof {
            reveal(road_sample_s);
            reveal(cross_section_visible_s);
            lemma_center_offset_bounded(z as int);
        }
        let center: i64 = center_offset(z);
        let left: i64 = center - TRACK_WIDTH / 2;
        let right: i64 = center + TRACK_WIDTH / 2;

        let left_p = cam.world_to_screen(left, z, 0, width, height);
        let right_p = cam.world_to_screen(right, z, 0, width, height);
        let center_p = cam.world_to_screen(center, z, 0, width, height);

        if let (Some((lsx, lsy)), Some((rsx, rsy)), Some((csx, _csy))) = (left_p, right_p, center_p) {
            let y: usize = (lsy + rsy) / 2;
            let sample = RoadSample {
                screen_y: y,
                left_x: lsx,
                right_x: rsx,
                center_x: csx,
                depth: d,
            };
            proof {
                assert(sample == road_sample_s(*cam, width as int, height as int, d as int));
            }
            samples.push(sample);
            proof {
                assert(samples@[samples@.len() - 1].depth == d);
            }
        } else {
            proof {
                assert(!cross_section_visible_s(*cam, d as int));
            }
        }
        proof {
            assert forall|e: int|
                -DRAW_BEHIND <= e < d + DEPTH_STEP && depth_on_grid_s(e)
                    && cross_section_visible_s(*cam, e) implies exists|j: int|
                0 <= j < samples@.len() && samples@[j].depth == e by {
                if e >= d {
                    vstd::arithmetic::div_mod::lemma_fundamental_div_mod(
                        e + DRAW_BEHIND,
                        DEPTH_STEP as int,
                    );
                    vstd::arithmetic::div_mod::lemma_fundamental_div_mod(
                        d as int + DRAW_BEHIND,
                        DEPTH_STEP as int,
                    );
                    assert(e == d);
                } else {
                    let j0 = choose|j: int| 0 <= j < pre_samples.len() && pre_samples[j].depth == e;
                    assert(samples@[j0].depth == e);
                }
            }
        }
        d = d + DEPTH_STEP;
        proof {
            vstd::arithmetic::div_mod::lemma_mod_add_multiples_vanish(
                (d as int - DEPTH_STEP) + DRAW_BEHIND,
                DEPTH_STEP as int,
            );
        }
    }
    samples
}

/// Whether every pair of samples sharing a screen row ascends in depth.
/// Strictly depth-ascending input has this outright; a stable row sort
/// keeps it, which fixes which of two equal-row samples is drawn later.
pub open spec fn equal_rows_ascend_s(s: Seq<RoadSample>) -> bool {
    forall|a: int, b: int|
        0 <= a < b < s.len() && (#[trigger] s[a]).screen_y == (#[trigger] s[b]).screen_y
            ==> s[a].depth < s[b].depth
}

/// Sorts the samples by their screen row, ascending, keeping exactly the
/// same collection of samples.  Perspective compresses distant depths
/// into few rows near the horizon, so depth order and row order differ
/// and the scanline fill needs the latter.  The sort is stable: samples
/// sharing a row keep their order, so on depth-ascending input equal-row
/// samples stay depth-ascending.
pub fn sort_samples_by_row(v: &mut Vec<RoadSample>)
    ensures
        final(v)@.len() == old(v)@.len(),
        forall|a: int, b: int|
            0 <= a <= b < final(v)@.len() ==> (#[trigger] final(v)@[a]).screen_y <= (
            #[trigger] final(v)@[b]).screen_y,
        final(v)@.to_multiset() == old(v)@.to_multiset(),
        equal_rows_ascend_s(old(v)@) ==> equal_rows_ascend_s(final(v)@),
{
    let n: usize = v.len();
    if n == 0 {
        return ;
    }
    let mut i: usize = 1;
    while i < n
        invariant
            1 <= i <= n,
            v@.len() == n,
            n == old(v)@.len(),
            v@.to_multiset() == old(v)@.to_multiset(),
            equal_rows_ascend_s(old(v)@) ==> equal_rows_ascend_s(v@),
            forall|a: int, b: int|
                0 <= a <= b < i ==> (#[trigger] v@[a]).screen_y <= (#[trigger] v@[b]).screen_y,
        decreases n - i,
    {
        let mut j: usize = i;
        while j > 0 && v[j - 1].screen_y > v[j].screen_y
            invariant
                0 <= j <= i < n,
                v@.len() == n,
                n == old(v)@.len(),
                v@.to_multiset() == old(v)@.to_multiset(),
                equal_rows_ascend_s(old(v)@) ==> equal_rows_ascend_s(v@),
                forall|a: int, b: int|
                    0 <= a <= b <= i && b != j ==> (#[trigger] v@[a]).screen_y <= (
                    #[trigger] v@[b]).screen_y,
            decreases j,
        {
            let ghost pre: Seq<RoadSample> = v@;
            let lower = v[j - 1];
            let upper = v[j];
            v.set(j - 1, upper);
            v.set(j, lower);
            proof {
                broadcast use vstd::seq_lib::to_multiset_update;
                broadcast use vstd::seq_lib::group_to_multiset_ensures;

                assert(pre.contains(lower)) by {
                    assert(pre[j - 1] == lower);
                }
                assert(pre.contains(upper)) by {
                    assert(pre[j as int] == upper);
                }
                assert(v@.to_multiset() =~= pre.to_multiset());
            }
            j = j - 1;
        }
        i = i + 1;
    }
}

/// One filled screen row of road: the row, the interpolated left, right
/// and center columns, and the interpolated depth offset.
#[derive(Clone, Copy, PartialEq, Eq, Structural, Debug)]
pub struct RowSpan {
    pub y: usize,
    pub left: usize,
    pub right: usize,
    pub center: usize,
    pub depth: i64,
}

/// Linear interpolation from `a` toward `b` by the fraction `num / den`.
pub open spec fn lerp_s(a: int, b: int, num: int, den: int) -> int {
    a + (b - a) * num / den
}

/// Computes `lerp_s` on machine integers; the result never leaves the
/// interval between `a` and `b`.
pub fn lerp_i64(a: i64, b: i64, num: i64, den: i64) -> (r: i64)
    requires
        0 < den <= 0x3fff_ffff,
        0 <= num <= den,
        -0x3fff_ffff <= a <= 0x3fff_ffff,
        -0x3fff_ffff <= b <= 0x3fff_ffff,
    ensures
        r == lerp_s(a as int, b as int, num as int, den as int),
        a <= b ==> a <= r <= b,
        b <= a ==> b <= r <= a,
{
    let diff: i64 = b - a;
    proof {
        if diff >= 0 {
            assert(0 <= diff as int * num as int <= diff as int * den as int) by (nonlinear_arith)
                requires
                    0 <= num as int <= den as int,
                    0 <= diff as int,
            ;
            crate::num::lemma_div_range(diff as int * num as int, den as int, 0, diff as int);
        } else {
            assert(diff as int * den as int <= diff as int * num as int <= 0) by (nonlinear_arith)
                requires
                    0 <= num as int <= den as int,
                    diff as int <= 0,
            ;
            crate::num::lemma_div_range(diff as int * num as int, den as int, diff as int, 0);
        }
        crate::num::lemma_mul_abs_bound(diff as int, num as int, 0x7fff_fffe, 0x3fff_ffff);
    }
    a + crate::num::div_floor(diff * num, den)
}

/// The interpolated row span a pair of adjacent samples produces at row
/// `y`: each field moves linearly from the first sample's value to the
/// second's as `y` runs from the first row to the second; two samples on
/// the same row yield the first sample's values.
pub open spec fn span_between_s(s0: RoadSample, s1: RoadSample, y: int) -> RowSpan {
    let den = s1.screen_y - s0.screen_y;
    let num = y - s0.screen_y;
    if den == 0 {
        RowSpan {
            y: y as usize,
            left: s0.left_x,
            right: s0.right_x,
            center: s0.center_x,
            depth: s0.depth,
        }
    } else {
        RowSpan {
            y: y as usize,
            left: lerp_s(s0.left_x as int, s1.left_x as int, num, den) as usize,
            right: lerp_s(s0.right_x as int, s1.right_x as int, num, den) as usize,
            center: lerp_s(s0.center_x as int, s1.center_x as int, num, den) as usize,
            depth: lerp_s(s0.depth as int, s1.depth as int, num, den) as i64,
        }
    }
}

/// Whether a sample's screen fields fit a `w` by `h` screen and its depth
/// lies in the sampled range.
pub open spec fn sample_fits_s(s: RoadSample, w: int, h: int) -> bool {
    &&& (s.screen_y as int) < h
    &&& (s.left_x as int) < w
    &&& (s.right_x as int) < w
    &&& (s.center_x as int) < w
    &&& -DRAW_BEHIND <= s.depth <= MAX_DRAW_DISTANCE
}

/// Whether a span's screen fields fit a `w` by `h` screen and its depth
/// lies in the sampled range.
pub open spec fn span_fits_s(p: RowSpan, w: int, h: int) -> bool {
    &&& (p.y as int) < h
    &&& (p.left as int) < w
    &&& (p.right as int) < w
    &&& (p.center as int) < w
    &&& -DRAW_BEHIND <= p.depth <= MAX_DRAW_DISTANCE
}

/// Whether a span is the interpolation of some adjacent pair of the given
/// samples at its own row.
pub open spec fn span_from_samples_s(samples: Seq<RoadSample>, p: RowSpan) -> bool {
    exists|k: int|
        0 <= k < samples.len() - 1 && (#[trigger] samples[k]).screen_y <= p.y
            <= samples[k + 1].screen_y && p == span_between_s(samples[k], samples[k + 1], p.y as int)
}

/// Expands sorted samples into one span per covered screen row: every
/// adjacent pair of samples is interpolated across every row between
/// their rows, inclusive, so the produced rows climb in steps of at most
/// one and reach from the first sample's row to the last's.
pub fn build_spans(samples: &Vec<RoadSample>, width: usize, height: usize) -> (r: Vec<RowSpan>)
    requires
        1 <= width <= MAX_SCREEN_DIM,
        1 <= height <= MAX_SCREEN_DIM,
        forall|j: int|
            0 <= j < samples@.len() ==> sample_fits_s(
                #[trigger] samples@[j],
                width as int,
                height as int,
            ),
        forall|a: int, b: int|
            0 <= a <= b < samples@.len() ==> (#[trigger] samples@[a]).screen_y <= (
            #[trigger] samples@[b]).screen_y,
    ensures
        samples@.len() < 2 ==> r@.len() == 0,
        samples@.len() >= 2 ==> r@.len() >= 1 && r@[0].y == samples@[0].screen_y && r@[r@.len()
            - 1].y == samples@[samples@.len() - 1].screen_y,
        forall|m: int|
            0 <= m && m + 1 < r@.len() ==> ((#[trigger] r@[m + 1]).y == r@[m].y || r@[m + 1].y
                == r@[m].y + 1),
        forall|m: int| 0 <= m < r@.len() ==> span_from_samples_s(samples@, #[trigger] r@[m]),
        forall|m: int|
            0 <= m < r@.len() ==> span_fits_s(#[trigger] r@[m], width as int, height as int),
{
    let mut spans: Vec<RowSpan> = Vec::new();
    let n: usize = samples.len();
    if n < 2 {
        return spans;
    }
    let mut k: usize = 0;
    while k < n - 1
        invariant
            2 <= n == samples@.len(),
            0 <= k <= n - 1,
            1 <= width <= MAX_SCREEN_DIM,
            1 <= height <= MAX_SCREEN_DIM,
            forall|j: int|
                0 <= j < samples@.len() ==> sample_fits_s(
                    #[trigger] samples@[j],
                    width as int,
                    height as int,
                ),
            forall|a: int, b: int|
                0 <= a <= b < samples@.len() ==> (#[trigger] samples@[a]).screen_y <= (
                #[trigger] samples@[b]).screen_y,
            k == 0 ==> spans@.len() == 0,
            k >= 1 ==> spans@.len() >= 1 && spans@[0].y == samples@[0].screen_y && spans@[spans@.len()
                - 1].y == samples@[k as int].screen_y,
            forall|m: int|
                0 <= m && m + 1 < spans@.len() ==> ((#[trigger] spans@[m + 1]).y == spans@[m].y
                    || spans@[m + 1].y == spans@[m].y + 1),
            forall|m: int| 0 <= m < spans@.len() ==> span_from_samples_s(samples@, #[trigger] spans@[m]),
            forall|m: int|
                0 <= m < spans@.len() ==> span_fits_s(#[trigger] spans@[m], width as int, height as int),
        decreases n - 1 - k,
    {
        let s0: RoadSample = samples[k];
        let s1: RoadSample = samples[k + 1];
        let y0: usize = s0.screen_y;
        let y1: usize = s1.screen_y;
        let mut y: usize = y0;
        while y <= y1
            invariant
                2 <= n == samples@.len(),
                0 <= k < n - 1,
                1 <= width <= MAX_SCREEN_DIM,
                1 <= height <= MAX_SCREEN_DIM,
                s0 == samples@[k as int],
                s1 == samples@[k as int + 1],
                y0 == s0.screen_y,
                y1 == s1.screen_y,
                y0 <= y <= y1 + 1,
                forall|j: int|
                    0 <= j < samples@.len() ==> sample_fits_s(
                        #[trigger] samples@[j],
                        width as int,
                        height as int,
                    ),
                forall|a: int, b: int|
                    0 <= a <= b < samples@.len() ==> (#[trigger] samples@[a]).screen_y <= (
                    #[trigger] samples@[b]).screen_y,
                spans@.len() == 0 ==> (k == 0 && y == y0),
                spans@.len() >= 1 ==> spans@[0].y == samples@[0].screen_y,
                spans@.len() >= 1 && y == y0 ==> spans@[spans@.len() - 1].y == y0 && k >= 1,
                spans@.len() >= 1 && y > y0 ==> (spans@[spans@.len() - 1].y + 1 == y),
                forall|m: int|
                    0 <= m && m + 1 < spans@.len() ==> ((#[trigger] spans@[m + 1]).y == spans@[m].y
                        || spans@[m + 1].y == spans@[m].y + 1),
                forall|m: int|
                    0 <= m < spans@.len() ==> span_from_samples_s(samples@, #[trigger] spans@[m]),
                forall|m: int|
                    0 <= m < spans@.len() ==> span_fits_s(
                        #[trigger] spans@[m],
                        width as int,
                        height as int,
                    ),
            decreases y1 + 1 - y,
        {
            let den: usize = y1 - y0;
            let span: RowSpan = if den == 0 {
                RowSpan { y, left: s0.left_x, right: s0.right_x, center: s0.center_x, depth: s0.depth }
            } else {
                let num: i64 = (y - y0) as i64;
                let den_i: i64 = den as i64;
                let left: i64 = lerp_i64(s0.left_x as i64, s1.left_x as i64, num, den_i);
                let right: i64 = lerp_i64(s0.right_x as i64, s1.right_x as i64, num, den_i);
                let center: i64 = lerp_i64(s0.center_x as i64, s1.center_x as i64, num, den_i);
                let depth: i64 = lerp_i64(s0.depth, s1.depth, num, den_i);
                RowSpan {
                    y,
                    left: left as usize,
                    right: right as usize,
                    center: center as usize,
                    depth,
                }
            };
            proof {
                assert(span == span_between_s(s0, s1, y as int));
                assert(samples@[k as int].screen_y <= span.y <= samples@[k as int + 1].screen_y);
            }
            spans.push(span);
            proof {
                assert(spans@[spans@.len() - 1] == span);
                assert(span_from_samples_s(samples@, span));
            }
            y = y + 1;
        }
        k = k + 1;
    }
    spans
}

/// The plain road surface color.
pub open spec fn road_color_s() -> Color {
    Color { r: 80, g: 80, b: 90, a: 255 }
}

/// The color of the longitudinal center stripe dashes.
pub open spec fn stripe_color_s() -> Color {
    Color { r: 220, g: 220, b: 200, a: 255 }
}

/// The color of the periodic lane-edge markers.
pub open spec fn edge_color_s() -> Color {
    Color { r: 255, g: 255, b: 255, a: 255 }
}

/// Whether the stripe dash is "on" at a depth offset: dashes alternate
/// every 48 depth units, and everything behind the camera counts as the
/// first dash.
pub open spec fn stripe_on_s(depth: int) -> bool {
    (if depth < 0 {
        0int
    } else {
        depth / 48
    }) % 2 == 0
}

/// Whether a depth offset carries the lane-edge marker: every 20 depth
/// units.
pub open spec fn edge_marker_s(depth: int) -> bool {
    depth % 20 == 0
}

/// The on-screen width of a span, floored at one pixel.
pub open spec fn span_road_width_s(p: RowSpan) -> int {
    let d = if p.right >= p.left {
        p.right - p.left
    } else {
        p.left - p.right
    };
    if d < 1 {
        1
    } else {
        d
    }
}

/// The color of one column of a road span: the edge marker on marker
/// rows at the two outermost columns, the stripe color near the center
/// when the dash is on, the plain road color elsewhere.
pub open spec fn span_col_color_s(p: RowSpan, col: int) -> Color {
    if edge_marker_s(p.depth as int) && (col == p.left || col == p.right) {
        edge_color_s()
    } else {
        let dist = if col >= p.center {
            col - p.center
        } else {
            p.center - col
        };
        if 20 * dist < 7 * (span_road_width_s(p) + 2) && stripe_on_s(p.depth as int) {
            stripe_color_s()
        } else {
            road_color_s()
        }
    }
}

/// Fills one road span: every column from its left to its right bound on
/// its row gets that column's road color, bounds-checked per pixel.
pub fn fill_span(frame: &mut Vec<u8>, width: usize, p: RowSpan)
    requires
        p.left <= MAX_SCREEN_DIM,
        p.right <= MAX_SCREEN_DIM,
        p.center <= MAX_SCREEN_DIM,
        -DRAW_BEHIND <= p.depth <= MAX_DRAW_DISTANCE,
    ensures
        final(frame).len() == old(frame).len(),
        forall|i: int|
            0 <= i < old(frame).len() ==> final(frame)@[i] == (if pixel_in_frame(
                old(frame).len() as int,
                width as int,
                col_of(i, width as int),
                row_of(i, width as int),
            ) && row_of(i, width as int) == p.y && p.left <= col_of(i, width as int) <= p.right {
                channel_s(span_col_color_s(p, col_of(i, width as int)), i % 4)
            } else {
                old(frame)@[i]
            }),
{
    let len: usize = frame.len();
    let edge_row: bool = crate::num::mod_floor(p.depth, 20) == 0;
    let stripe_on: bool = (if p.depth < 0 {
        0
    } else {
        p.depth / 48
    }) % 2 == 0;
    let road_w: usize = if p.right >= p.left {
        p.right - p.left
    } else {
        p.left - p.right
    };
    let road_w: usize = if road_w < 1 {
        1
    } else {
        road_w
    };
    let mut col: usize = p.left;
    while col <= p.right
        invariant
            p.left <= col,
            col <= p.right + 1 || col == p.left,
            p.left <= MAX_SCREEN_DIM,
            p.right <= MAX_SCREEN_DIM,
            p.center <= MAX_SCREEN_DIM,
            -DRAW_BEHIND <= p.depth <= MAX_DRAW_DISTANCE,
            edge_row == edge_marker_s(p.depth as int),
            stripe_on == stripe_on_s(p.depth as int),
            road_w == span_road_width_s(p),
            frame.len() == len,
            len == old(frame).len(),
            forall|i: int|
                0 <= i < len ==> frame@[i] == (if pixel_in_frame(
                    len as int,
                    width as int,
                    col_of(i, width as int),
                    row_of(i, width as int),
                ) && row_of(i, width as int) == p.y && p.left <= col_of(i, width as int) < col {
                    channel_s(span_col_color_s(p, col_of(i, width as int)), i % 4)
                } else {
                    old(frame)@[i]
                }),
        decreases p.right + 1 - col,
    {
        let color: Color = if edge_row && (col == p.left || col == p.right) {
            Color { r: 255, g: 255, b: 255, a: 255 }
        } else {
            let dist: usize = if col >= p.center {
                col - p.center
            } else {
                p.center - col
            };
            if 20 * (dist as i64) < 7 * (road_w as i64 + 2) && stripe_on {
                Color { r: 220, g: 220, b: 200, a: 255 }
            } else {
                Color { r: 80, g: 80, b: 90, a: 255 }
            }
        };
        proof {
            assert(color == span_col_color_s(p, col as int));
        }
        set_pixel(frame, width, col, p.y, color);
        col = col + 1;
    }
}

/// Whether depth offset `d` is a cross-section that the sampling keeps:
/// on the grid and fully visible to this camera.
pub open spec fn surviving_depth_s(cam: Camera, d: int) -> bool {
    depth_on_grid_s(d) && cross_section_visible_s(cam, d)
}

/// The screen row the cross-section at depth offset `d` projects to.
pub open spec fn depth_row_s(cam: Camera, w: int, h: int, d: int) -> int {
    road_sample_s(cam, w, h, d).screen_y as int
}

/// Whether `(c, r)` lies inside the span that two surviving
/// cross-sections whose rows bracket `r` interpolate at row `r`.
pub open spec fn within_road_span_s(cam: Camera, w: int, h: int, r: int, c: int) -> bool {
    exists|d1: int, d2: int|
        #![trigger surviving_depth_s(cam, d1), surviving_depth_s(cam, d2)]
        {
            &&& surviving_depth_s(cam, d1)
            &&& surviving_depth_s(cam, d2)
            &&& depth_row_s(cam, w, h, d1) <= r <= depth_row_s(cam, w, h, d2)
            &&& {
                let p = span_between_s(road_sample_s(cam, w, h, d1), road_sample_s(cam, w, h, d2), r);
                p.left <= c <= p.right
            }
        }
}

/// Whether every in-frame byte of row `y` whose column lies inside the
/// span's bounds holds the matching channel of that span's column color.
pub open spec fn span_pixels_painted_s(s: Seq<u8>, w: int, p: RowSpan, y: int) -> bool {
    forall|i: int|
        0 <= i < s.len() && row_of(i, w) == y && p.left <= col_of(i, w) <= p.right
            && pixel_in_frame(s.len() as int, w, col_of(i, w), row_of(i, w)) ==> s[i]
            == channel_s(
            span_col_color_s(p, col_of(i, w)),
            i % 4,
        )
}

/// Whether row `y` of the frame carries road: some span interpolated at
/// `y` from two surviving cross-sections whose rows bracket `y` is
/// painted across its whole width with that span's column colors.
pub open spec fn row_painted_road_s(cam: Camera, w: int, h: int, s: Seq<u8>, y: int) -> bool {
    exists|d1: int, d2: int|
        #![trigger surviving_depth_s(cam, d1), surviving_depth_s(cam, d2)]
        {
            &&& surviving_depth_s(cam, d1)
            &&& surviving_depth_s(cam, d2)
            &&& depth_row_s(cam, w, h, d1) <= y <= depth_row_s(cam, w, h, d2)
            &&& span_pixels_painted_s(
                s,
                w,
                span_between_s(road_sample_s(cam, w, h, d1), road_sample_s(cam, w, h, d2), y),
                y,
            )
        }
}

/// Whether every in-frame byte of row `y` with column in `[l, r]` holds
/// the plain road color.
pub open spec fn row_strip_plain_road_s(s: Seq<u8>, w: int, y: int, l: int, r: int) -> bool {
    forall|i: int|
        0 <= i < s.len() && row_of(i, w) == y && l <= col_of(i, w) <= r && pixel_in_frame(
            s.len() as int,
            w,
            col_of(i, w),
            row_of(i, w),
        ) ==> s[i] == channel_s(road_color_s(), i % 4)
}

/// Whether `d` is the nearest surviving cross-section: every other
/// surviving one projects to a higher row, or to the same row at a
/// smaller depth.
pub open spec fn nearest_surviving_depth_s(cam: Camera, w: int, h: int, d: int) -> bool {
    &&& surviving_depth_s(cam, d)
    &&& forall|d2: int|
        surviving_depth_s(cam, d2) ==> (depth_row_s(cam, w, h, d2) < depth_row_s(cam, w, h, d) || (
        depth_row_s(cam, w, h, d2) == depth_row_s(cam, w, h, d) && d2 <= d))
}

/// Whether row `y` lies inside the rasterized band but strictly above
/// its bottom: some surviving cross-section projects at or above `y` and
/// some other projects strictly below it.
pub open spec fn rows_bracket_s(cam: Camera, w: int, h: int, y: int) -> bool {
    exists|da: int, db: int|
        #![trigger surviving_depth_s(cam, da), surviving_depth_s(cam, db)]
        surviving_depth_s(cam, da) && surviving_depth_s(cam, db) && depth_row_s(cam, w, h, da) <= y
            < depth_row_s(cam, w, h, db)
}

/// Draws the whole road for one frame: collects the visible samples,
/// sorts them by screen row, interpolates every covered row, fills each
/// interpolated span, and finally fills the nearest sample's row once
/// more with the plain road color.
///
/// The contract states the result: with fewer than two surviving
/// cross-sections nothing is drawn; every changed byte lies inside some
/// surviving span on a row below `height`; every row inside the
/// rasterized band carries a fully painted road span (no background
/// bleeds through between covered rows); and the nearest surviving
/// cross-section's row is filled with the plain road color across its
/// own span.
#[verifier::rlimit(100)]
pub fn draw_road(frame: &mut Vec<u8>, width: usize, height: usize, cam: &Camera)
    requires
        cam.wf(),
        -(COORD_LIMIT - MAX_DRAW_DISTANCE) <= cam.z <= COORD_LIMIT - MAX_DRAW_DISTANCE,
        1 <= width <= MAX_SCREEN_DIM,
        1 <= height <= MAX_SCREEN_DIM,
    ensures
        final(frame).len() == old(frame).len(),
        forall|i: int|
            0 <= i < old(frame).len() ==> final(frame)@[i] == old(frame)@[i] || (pixel_in_frame(
                old(frame).len() as int,
                width as int,
                col_of(i, width as int),
                row_of(i, width as int),
            ) && row_of(i, width as int) < height && within_road_span_s(
                *cam,
                width as int,
                height as int,
                row_of(i, width as int),
                col_of(i, width as int),
            )),
        forall|y: int|
            rows_bracket_s(*cam, width as int, height as int, y) ==> #[trigger] row_painted_road_s(
                *cam,
                width as int,
                height as int,
                final(frame)@,
                y,
            ),
        forall|dn: int|
            #![trigger nearest_surviving_depth_s(*cam, width as int, height as int, dn)]
            nearest_surviving_depth_s(*cam, width as int, height as int, dn) && (exists|d2: int|
                surviving_depth_s(*cam, d2) && d2 != dn) && road_sample_s(
                *cam,
                width as int,
                height as int,
                dn,
            ).left_x <= road_sample_s(*cam, width as int, height as int, dn).right_x
                ==> row_strip_plain_road_s(
                final(frame)@,
                width as int,
                depth_row_s(*cam, width as int, height as int, dn),
                road_sample_s(*cam, width as int, height as int, dn).left_x as int,
                road_sample_s(*cam, width as int, height as int, dn).right_x as int,
            ),
        (forall|d1: int, d2: int|
            (depth_on_grid_s(d1) && cross_section_visible_s(*cam, d1) && depth_on_grid_s(d2)
                && cross_section_visible_s(*cam, d2)) ==> d1 == d2) ==> final(frame)@ == old(
        frame)@,
{
    let len: usize = frame.len();
    let ghost w_i: int = width as int;
    let ghost h_i: int = height as int;
    let mut samples: Vec<RoadSample> = collect_road_samples(cam, width, height);
    let ghost collected: Seq<RoadSample> = samples@;
    if samples.len() < 2 {
        proof {
            assert forall|y: int| rows_bracket_s(*cam, w_i, h_i, y) implies #[trigger] row_painted_road_s(
                *cam,
                w_i,
                h_i,
                frame@,
                y,
            ) by {
                let (da, db) = choose|da: int, db: int|
                    #![trigger surviving_depth_s(*cam, da), surviving_depth_s(*cam, db)]
                    surviving_depth_s(*cam, da) && surviving_depth_s(*cam, db) && depth_row_s(
                        *cam,
                        w_i,
                        h_i,
                        da,
                    ) <= y < depth_row_s(*cam, w_i, h_i, db);
                let ja = choose|j: int| 0 <= j < collected.len() && collected[j].depth == da;
                let jb = choose|j: int| 0 <= j < collected.len() && collected[j].depth == db;
                assert(da != db);
                assert(ja != jb);
                assert(false);
            }
            assert forall|dn: int|
                nearest_surviving_depth_s(*cam, w_i, h_i, dn) && (exists|d2: int|
                    surviving_depth_s(*cam, d2) && d2 != dn) && road_sample_s(
                    *cam,
                    w_i,
                    h_i,
                    dn,
                ).left_x <= road_sample_s(*cam, w_i, h_i, dn).right_x implies row_strip_plain_road_s(
                frame@,
                w_i,
                depth_row_s(*cam, w_i, h_i, dn),
                road_sample_s(*cam, w_i, h_i, dn).left_x as int,
                road_sample_s(*cam, w_i, h_i, dn).right_x as int,
            ) by {
                let d2 = choose|d2: int| surviving_depth_s(*cam, d2) && d2 != dn;
                let ja = choose|j: int| 0 <= j < collected.len() && collected[j].depth == dn;
                let jb = choose|j: int| 0 <= j < collected.len() && collected[j].depth == d2;
                assert(ja != jb);
                assert(false);
            }
        }
        return ;
    }
    proof {
        assert(collected[0].depth != collected[1].depth);
        assert(depth_on_grid_s(collected[0].depth as int) && cross_section_visible_s(
            *cam,
            collected[0].depth as int,
        ));
        assert(depth_on_grid_s(collected[1].depth as int) && cross_section_visible_s(
            *cam,
            collected[1].depth as int,
        ));
        assert(equal_rows_ascend_s(collected));
    }
    sort_samples_by_row(&mut samples);
    proof {
        broadcast use vstd::seq_lib::group_to_multiset_ensures;

        assert forall|j: int| 0 <= j < samples@.len() implies sample_wf_s(
            *cam,
            w_i,
            h_i,
            #[trigger] samples@[j],
        ) && sample_fits_s(samples@[j], w_i, h_i) by {
            let s = samples@[j];
            assert(samples@.contains(s)) by {
                assert(samples@[j] == s);
            }
            assert(samples@.to_multiset().count(s) > 0);
            assert(collected.to_multiset().count(s) > 0);
            assert(collected.contains(s));
            let j2 = choose|j2: int| 0 <= j2 < collected.len() && collected[j2] == s;
            assert(sample_wf_s(*cam, w_i, h_i, collected[j2]));
            assert(depth_on_grid_s(s.depth as int));
        }
        assert forall|d: int| surviving_depth_s(*cam, d) implies exists|j: int|
            0 <= j < samples@.len() && (#[trigger] samples@[j]).depth == d by {
            let jc = choose|j: int| 0 <= j < collected.len() && collected[j].depth == d;
            let sc = collected[jc];
            assert(collected.contains(sc)) by {
                assert(collected[jc] == sc);
            }
            assert(collected.to_multiset().count(sc) > 0);
            assert(samples@.to_multiset().count(sc) > 0);
            assert(samples@.contains(sc));
            let js = choose|j: int| 0 <= j < samples@.len() && samples@[j] == sc;
            assert(samples@[js].depth == d);
        }
        assert(equal_rows_ascend_s(samples@));
    }
    let spans: Vec<RowSpan> = build_spans(&samples, width, height);
    let mut m: usize = 0;
    while m < spans.len()
        invariant
            m <= spans@.len(),
            frame.len() == len,
            len == old(frame).len(),
            1 <= width <= MAX_SCREEN_DIM,
            1 <= height <= MAX_SCREEN_DIM,
            w_i == width as int,
            h_i == height as int,
            2 <= samples@.len(),
            forall|j: int|
                0 <= j < samples@.len() ==> sample_wf_s(*cam, w_i, h_i, #[trigger] samples@[j]),
            forall|j: int|
                0 <= j < spans@.len() ==> span_fits_s(#[trigger] spans@[j], w_i, h_i),
            forall|j: int|
                0 <= j < spans@.len() ==> span_from_samples_s(samples@, #[trigger] spans@[j]),
            forall|i: int|
                0 <= i < len ==> frame@[i] == old(frame)@[i] || (pixel_in_frame(
                    len as int,
                    w_i,
                    col_of(i, w_i),
                    row_of(i, w_i),
                ) && row_of(i, w_i) < height && within_road_span_s(
                    *cam,
                    w_i,
                    h_i,
                    row_of(i, w_i),
                    col_of(i, w_i),
                )),
            forall|mm: int|
                0 <= mm < m && (forall|m2: int|
                    mm < m2 < m as int ==> (#[trigger] spans@[m2]).y != spans@[mm].y)
                    ==> span_pixels_painted_s(
                    frame@,
                    w_i,
                    #[trigger] spans@[mm],
                    spans@[mm].y as int,
                ),
        decreases spans.len() - m,
    {
        let ghost pre_frame: Seq<u8> = frame@;
        let ghost p: RowSpan = spans@[m as int];
        fill_span(frame, width, spans[m]);
        proof {
            assert(span_from_samples_s(samples@, p));
            let k = choose|k: int|
                0 <= k < samples@.len() - 1 && (#[trigger] samples@[k]).screen_y <= p.y
                    <= samples@[k + 1].screen_y && p == span_between_s(
                    samples@[k],
                    samples@[k + 1],
                    p.y as int,
                );
            let d1 = samples@[k].depth as int;
            let d2 = samples@[k + 1].depth as int;
            assert(samples@[k] == road_sample_s(*cam, w_i, h_i, d1));
            assert(samples@[k + 1] == road_sample_s(*cam, w_i, h_i, d2));
            assert forall|i: int| 0 <= i < len implies frame@[i] == old(frame)@[i] || (
            pixel_in_frame(len as int, w_i, col_of(i, w_i), row_of(i, w_i)) && row_of(i, w_i)
                < height && within_road_span_s(*cam, w_i, h_i, row_of(i, w_i), col_of(i, w_i))) by {
                if frame@[i] != pre_frame[i] {
                    assert(row_of(i, w_i) == p.y as int && p.left <= col_of(i, w_i) <= p.right);
                    assert(surviving_depth_s(*cam, d1) && surviving_depth_s(*cam, d2)
                        && depth_row_s(*cam, w_i, h_i, d1) <= row_of(i, w_i) <= depth_row_s(
                        *cam,
                        w_i,
                        h_i,
                        d2,
                    ) && span_between_s(
                        road_sample_s(*cam, w_i, h_i, d1),
                        road_sample_s(*cam, w_i, h_i, d2),
                        row_of(i, w_i),
                    ).left <= col_of(i, w_i) <= span_between_s(
                        road_sample_s(*cam, w_i, h_i, d1),
                        road_sample_s(*cam, w_i, h_i, d2),
                        row_of(i, w_i),
                    ).right);
                    assert(within_road_span_s(*cam, w_i, h_i, row_of(i, w_i), col_of(i, w_i)));
                }
            }
            assert forall|mm: int|
                0 <= mm < m + 1 && (forall|m2: int|
                    mm < m2 < m + 1 ==> (#[trigger] spans@[m2]).y != spans@[mm].y)
                    implies span_pixels_painted_s(
                frame@,
                w_i,
                #[trigger] spans@[mm],
                spans@[mm].y as int,
            ) by {
                if mm == m {
                    assert(spans@[mm] == p);
                } else {
                    assert(spans@[m as int].y != spans@[mm].y);
                    assert(span_pixels_painted_s(pre_frame, w_i, spans@[mm], spans@[mm].y as int));
                    assert forall|i: int|
                        0 <= i < frame@.len() && row_of(i, w_i) == spans@[mm].y as int
                            && spans@[mm].left <= col_of(i, w_i) <= spans@[mm].right
                            && pixel_in_frame(
                            frame@.len() as int,
                            w_i,
                            col_of(i, w_i),
                            row_of(i, w_i),
                        ) implies frame@[i] == channel_s(
                        span_col_color_s(spans@[mm], col_of(i, w_i)),
                        i % 4,
                    ) by {
                        assert(row_of(i, w_i) != p.y as int);
                        assert(frame@[i] == pre_frame[i]);
                    }
                }
            }
        }
        m = m + 1;
    }
    let ghost mid_frame: Seq<u8> = frame@;
    let nearest: RoadSample = samples[samples.len() - 1];
    if nearest.left_x <= nearest.right_x {
        fill_row_solid(
            frame,
            width,
            nearest.screen_y,
            nearest.left_x,
            nearest.right_x + 1,
            Color { r: 80, g: 80, b: 90, a: 255 },
        );
    }
    proof {
        let lastj = samples@.len() - 1;
        assert(nearest == samples@[lastj]);
        let ghost dl = samples@[lastj].depth as int;
        assert(samples@[lastj] == road_sample_s(*cam, w_i, h_i, dl));
        assert forall|i: int|
            0 <= i < frame@.len() && row_of(i, w_i) != samples@[lastj].screen_y as int implies frame@[i]
            == mid_frame[i] by {}
        assert forall|i: int| 0 <= i < len implies frame@[i] == old(frame)@[i] || (pixel_in_frame(
            len as int,
            w_i,
            col_of(i, w_i),
            row_of(i, w_i),
        ) && row_of(i, w_i) < height && within_road_span_s(
            *cam,
            w_i,
            h_i,
            row_of(i, w_i),
            col_of(i, w_i),
        )) by {
            if frame@[i] != old(frame)@[i] && frame@[i] != mid_frame[i] {
                assert(row_of(i, w_i) == nearest.screen_y as int && nearest.left_x <= col_of(i, w_i)
                    < nearest.right_x + 1 && pixel_in_frame(
                    len as int,
                    w_i,
                    col_of(i, w_i),
                    row_of(i, w_i),
                ));
                let pl = span_between_s(
                    road_sample_s(*cam, w_i, h_i, dl),
                    road_sample_s(*cam, w_i, h_i, dl),
                    row_of(i, w_i),
                );
                assert(pl.left == nearest.left_x && pl.right == nearest.right_x);
                assert(surviving_depth_s(*cam, dl) && depth_row_s(
                    *cam,
                    w_i,
                    h_i,
                    dl,
                ) <= row_of(i, w_i) <= depth_row_s(*cam, w_i, h_i, dl) && pl.left <= col_of(i, w_i)
                    <= pl.right);
                assert(within_road_span_s(*cam, w_i, h_i, row_of(i, w_i), col_of(i, w_i)));
            }
        }
        assert(nearest.left_x <= nearest.right_x ==> forall|i: int|
            0 <= i < frame@.len() && row_of(i, w_i) == samples@[lastj].screen_y as int
                && samples@[lastj].left_x <= col_of(i, w_i) <= samples@[lastj].right_x
                && pixel_in_frame(frame@.len() as int, w_i, col_of(i, w_i), row_of(i, w_i))
                ==> frame@[i] == channel_s(road_color_s(), i % 4));
        lemma_band_rows_painted(*cam, w_i, h_i, samples@, spans@, mid_frame, frame@);
        lemma_nearest_row_plain(*cam, w_i, h_i, samples@, frame@);
    }
}

/// Every row inside the rasterized band carries a fully painted road
/// span in the final frame: the span fill left each band row painted,
/// and the closing fill of the nearest row touches no other row.
proof fn lemma_band_rows_painted(
    cam: Camera,
    w: int,
    h: int,
    samples: Seq<RoadSample>,
    spans: Seq<RowSpan>,
    mid: Seq<u8>,
    fin: Seq<u8>,
)
    requires
        2 <= samples.len(),
        forall|j: int| 0 <= j < samples.len() ==> sample_wf_s(cam, w, h, #[trigger] samples[j]),
        forall|a: int, b: int|
            0 <= a <= b < samples.len() ==> (#[trigger] samples[a]).screen_y <= (
            #[trigger] samples[b]).screen_y,
        forall|d: int|
            surviving_depth_s(cam, d) ==> exists|j: int|
                0 <= j < samples.len() && (#[trigger] samples[j]).depth == d,
        spans.len() >= 1,
        spans[0].y == samples[0].screen_y,
        spans[spans.len() - 1].y == samples[samples.len() - 1].screen_y,
        forall|m: int|
            0 <= m && m + 1 < spans.len() ==> ((#[trigger] spans[m + 1]).y == spans[m].y || spans[m
                + 1].y == spans[m].y + 1),
        forall|m: int| 0 <= m < spans.len() ==> span_from_samples_s(samples, #[trigger] spans[m]),
        forall|mm: int|
            0 <= mm < spans.len() && (forall|m2: int|
                mm < m2 < spans.len() ==> (#[trigger] spans[m2]).y != spans[mm].y)
                ==> span_pixels_painted_s(mid, w, #[trigger] spans[mm], spans[mm].y as int),
        fin.len() == mid.len(),
        forall|i: int|
            0 <= i < fin.len() && row_of(i, w) != samples[samples.len() - 1].screen_y as int
                ==> fin[i] == mid[i],
    ensures
        forall|y: int|
            rows_bracket_s(cam, w, h, y) ==> #[trigger] row_painted_road_s(cam, w, h, fin, y),
{
    let lastj = samples.len() - 1;
    assert forall|y: int| rows_bracket_s(cam, w, h, y) implies #[trigger] row_painted_road_s(
        cam,
        w,
        h,
        fin,
        y,
    ) by {
        let (da, db) = choose|da: int, db: int|
            #![trigger surviving_depth_s(cam, da), surviving_depth_s(cam, db)]
            surviving_depth_s(cam, da) && surviving_depth_s(cam, db) && depth_row_s(cam, w, h, da)
                <= y < depth_row_s(cam, w, h, db);
        let ja = choose|j: int| 0 <= j < samples.len() && samples[j].depth == da;
        let jb = choose|j: int| 0 <= j < samples.len() && samples[j].depth == db;
        assert(samples[ja] == road_sample_s(cam, w, h, da));
        assert(samples[jb] == road_sample_s(cam, w, h, db));
        assert(samples[0].screen_y <= samples[ja].screen_y);
        assert(samples[jb].screen_y <= samples[lastj].screen_y);
        assert(spans[0].y <= y <= spans[spans.len() - 1].y);
        lemma_spans_cover_rows(spans, y);
        lemma_last_span_of_row(spans, y);
        let m0 = choose|mm: int|
            0 <= mm < spans.len() && (#[trigger] spans[mm]).y == y && (forall|m2: int|
                mm < m2 < spans.len() ==> (#[trigger] spans[m2]).y != y);
        assert(span_pixels_painted_s(mid, w, spans[m0], y));
        assert(y < samples[lastj].screen_y);
        let p0 = spans[m0];
        assert forall|i: int|
            0 <= i < fin.len() && row_of(i, w) == y && p0.left <= col_of(i, w) <= p0.right
                && pixel_in_frame(fin.len() as int, w, col_of(i, w), row_of(i, w)) implies fin[i]
            == channel_s(span_col_color_s(p0, col_of(i, w)), i % 4) by {
            assert(row_of(i, w) != samples[lastj].screen_y as int);
            assert(fin[i] == mid[i]);
        }
        assert(span_pixels_painted_s(fin, w, p0, y));
        assert(span_from_samples_s(samples, p0));
        let k = choose|k: int|
            0 <= k < samples.len() - 1 && (#[trigger] samples[k]).screen_y <= p0.y <= samples[k
                + 1].screen_y && p0 == span_between_s(samples[k], samples[k + 1], p0.y as int);
        let e1 = samples[k].depth as int;
        let e2 = samples[k + 1].depth as int;
        assert(samples[k] == road_sample_s(cam, w, h, e1));
        assert(samples[k + 1] == road_sample_s(cam, w, h, e2));
        assert(surviving_depth_s(cam, e1) && surviving_depth_s(cam, e2) && depth_row_s(cam, w, h, e1)
            <= y <= depth_row_s(cam, w, h, e2) && span_pixels_painted_s(
            fin,
            w,
            span_between_s(road_sample_s(cam, w, h, e1), road_sample_s(cam, w, h, e2), y),
            y,
        ));
    }
}

/// After the closing fill, the nearest surviving cross-section's row
/// holds the plain road color across that cross-section's own span.
proof fn lemma_nearest_row_plain(cam: Camera, w: int, h: int, samples: Seq<RoadSample>, fin: Seq<u8>)
    requires
        2 <= samples.len(),
        forall|j: int| 0 <= j < samples.len() ==> sample_wf_s(cam, w, h, #[trigger] samples[j]),
        forall|a: int, b: int|
            0 <= a <= b < samples.len() ==> (#[trigger] samples[a]).screen_y <= (
            #[trigger] samples[b]).screen_y,
        equal_rows_ascend_s(samples),
        forall|d: int|
            surviving_depth_s(cam, d) ==> exists|j: int|
                0 <= j < samples.len() && (#[trigger] samples[j]).depth == d,
        samples[samples.len() - 1].left_x <= samples[samples.len() - 1].right_x ==> forall|i: int|
            0 <= i < fin.len() && row_of(i, w) == samples[samples.len() - 1].screen_y as int
                && samples[samples.len() - 1].left_x <= col_of(i, w) <= samples[samples.len()
                - 1].right_x && pixel_in_frame(fin.len() as int, w, col_of(i, w), row_of(i, w))
                ==> fin[i] == channel_s(road_color_s(), i % 4),
    ensures
        forall|dn: int|
            #![trigger nearest_surviving_depth_s(cam, w, h, dn)]
            nearest_surviving_depth_s(cam, w, h, dn) && (exists|d2: int|
                surviving_depth_s(cam, d2) && d2 != dn) && road_sample_s(cam, w, h, dn).left_x
                <= road_sample_s(cam, w, h, dn).right_x ==> row_strip_plain_road_s(
                fin,
                w,
                depth_row_s(cam, w, h, dn),
                road_sample_s(cam, w, h, dn).left_x as int,
                road_sample_s(cam, w, h, dn).right_x as int,
            ),
{
    let lastj = samples.len() - 1;
    assert forall|dn: int|
        nearest_surviving_depth_s(cam, w, h, dn) && (exists|d2: int|
            surviving_depth_s(cam, d2) && d2 != dn) && road_sample_s(cam, w, h, dn).left_x
            <= road_sample_s(cam, w, h, dn).right_x implies row_strip_plain_road_s(
        fin,
        w,
        depth_row_s(cam, w, h, dn),
        road_sample_s(cam, w, h, dn).left_x as int,
        road_sample_s(cam, w, h, dn).right_x as int,
    ) by {
        let jn = choose|j: int| 0 <= j < samples.len() && samples[j].depth == dn;
        let dl = samples[lastj].depth as int;
        assert(surviving_depth_s(cam, dl));
        assert(samples[jn] == road_sample_s(cam, w, h, dn));
        assert(samples[lastj] == road_sample_s(cam, w, h, dl));
        assert(depth_row_s(cam, w, h, dl) < depth_row_s(cam, w, h, dn) || (depth_row_s(cam, w, h, dl)
            == depth_row_s(cam, w, h, dn) && dl <= dn));
        assert(samples[jn].screen_y <= samples[lastj].screen_y);
        if jn < lastj {
            assert(samples[jn].screen_y == samples[lastj].screen_y);
            assert(samples[jn].depth < samples[lastj].depth);
            assert(false);
        }
        assert(jn == lastj);
        assert(samples[lastj] == road_sample_s(cam, w, h, dn));
        assert forall|i: int|
            0 <= i < fin.len() && row_of(i, w) == depth_row_s(cam, w, h, dn) && road_sample_s(
                cam,
                w,
                h,
                dn,
            ).left_x <= col_of(i, w) <= road_sample_s(cam, w, h, dn).right_x && pixel_in_frame(
                fin.len() as int,
                w,
                col_of(i, w),
                row_of(i, w),
            ) implies fin[i] == channel_s(road_color_s(), i % 4) by {
            assert(row_of(i, w) == samples[lastj].screen_y as int);
        }
    }
}

/// Rows produced in steps of at most one have no gap: every row between
/// the first span's and the last span's is some span's row.
pub proof fn lemma_spans_cover_rows(spans: Seq<RowSpan>, y: int)
    requires
        spans.len() >= 1,
        forall|m: int|
            0 <= m && m + 1 < spans.len() ==> ((#[trigger] spans[m + 1]).y == spans[m].y || spans[m
                + 1].y == spans[m].y + 1),
        spans[0].y <= y <= spans[spans.len() - 1].y,
    ensures
        exists|m: int| 0 <= m < spans.len() && (#[trigger] spans[m]).y == y,
    decreases spans.len(),
{
    let last = spans.len() - 1;
    if spans[last].y == y {
        assert(spans[last].y == y);
    } else {
        let prefix = spans.subrange(0, last);
        assert(forall|m: int| 0 <= m < prefix.len() ==> #[trigger] prefix[m] == spans[m]);
        if last >= 1 {
            assert(spans[last - 1 + 1].y == spans[last - 1].y || spans[last - 1 + 1].y == spans[last
                - 1].y + 1);
            assert(y <= spans[last - 1].y);
        }
        lemma_spans_cover_rows(prefix, y);
        let m0 = choose|m: int| 0 <= m < prefix.len() && (#[trigger] prefix[m]).y == y;
        assert(spans[m0].y == y);
    }
}

/// Among the spans of a given row there is a last one: a span of that
/// row with no later span on the same row.
proof fn lemma_last_span_of_row(spans: Seq<RowSpan>, y: int)
    requires
        exists|m: int| 0 <= m < spans.len() && (#[trigger] spans[m]).y == y,
    ensures
        exists|m: int|
            0 <= m < spans.len() && (#[trigger] spans[m]).y == y && (forall|m2: int|
                m < m2 < spans.len() ==> (#[trigger] spans[m2]).y != y),
    decreases spans.len(),
{
    let last = spans.len() - 1;
    if spans[last].y == y {
        assert(0 <= last < spans.len() && spans[last].y == y && (forall|m2: int|
            last < m2 < spans.len() ==> (#[trigger] spans[m2]).y != y));
    } else {
        let prefix = spans.subrange(0, last);
        assert(forall|m: int| 0 <= m < prefix.len() ==> #[trigger] prefix[m] == spans[m]);
        let m1 = choose|m: int| 0 <= m < spans.len() && (#[trigger] spans[m]).y == y;
        assert(m1 < last);
        assert(prefix[m1].y == y);
        lemma_last_span_of_row(prefix, y);
        let m0 = choose|m: int|
            0 <= m < prefix.len() && (#[trigger] prefix[m]).y == y && (forall|m2: int|
                m < m2 < prefix.len() ==> (#[trigger] prefix[m2]).y != y);
        assert(0 <= m0 < spans.len() && spans[m0].y == y && (forall|m2: int|
            m0 < m2 < spans.len() ==> (#[trigger] spans[m2]).y != y)) by {
            assert forall|m2: int| m0 < m2 < spans.len() implies (#[trigger] spans[m2]).y != y by {
                if m2 < last {
                    assert(prefix[m2].y != y);
                }
            }
        }
    }
}

} // verus!
