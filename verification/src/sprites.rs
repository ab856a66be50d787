//! The sprite compositor: projects each entity's anchor, scales a
//! bordered rectangle by distance, and blits the sprites farthest first,
//! a painter's algorithm standing in for a depth buffer.

use vstd::prelude::*;
use crate::camera::Camera;
use crate::camera::COORD_LIMIT;
use crate::camera::MAX_SCREEN_DIM;
use crate::camera::visible_s;
use crate::camera::screen_col_s;
use crate::camera::screen_row_s;
use crate::camera::dist_sq_s;
use crate::num::sqrt_floor_s;
use crate::num::clamp_s;
use crate::num::clamp_i64;
use crate::num::lemma_mul_abs_bound;
use crate::framebuffer::Color;
use crate::framebuffer::channel_s;
use crate::framebuffer::col_of;
use crate::framebuffer::row_of;
use crate::framebuffer::pixel_in_frame;
use crate::framebuffer::set_pixel;

verus! {

/// The read-only view of one drawable entity: its world position and its
/// body color.
#[derive(Clone, Copy, PartialEq, Eq, Structural, Debug)]
pub struct SpriteEntity {
    pub x: i64,
    pub z: i64,
    pub y: i64,
    pub color: Color,
}

/// Whether an entity's position lies in the range the projection
/// arithmetic is safe for.
pub open spec fn entity_fits_s(e: SpriteEntity) -> bool {
    &&& -COORD_LIMIT <= e.x <= COORD_LIMIT
    &&& -COORD_LIMIT <= e.z <= COORD_LIMIT
    &&& -COORD_LIMIT <= e.y <= COORD_LIMIT
}

/// The planar distance from the camera to an entity.
pub open spec fn entity_dist_s(cam: Camera, e: SpriteEntity) -> int {
    sqrt_floor_s(dist_sq_s(cam.x as int, cam.z as int, e.x as int, e.z as int))
}

/// The distance-derived sprite scale, in tenths, clamped to a safe range.
pub open spec fn sprite_scale10_s(dist: int) -> int {
    clamp_s(1000int / (dist + 20), 3, 20)
}

/// The sprite's pixel width at a distance: the base width scaled, never
/// below six pixels.
pub open spec fn sprite_w_s(dist: int) -> int {
    let w = 4 * sprite_scale10_s(dist);
    if w < 6 {
        6
    } else {
        w
    }
}

/// The sprite's pixel height at a distance: the base height scaled,
/// never below four pixels.
pub open spec fn sprite_h_s(dist: int) -> int {
    let h = 24 * sprite_scale10_s(dist) / 10;
    if h < 4 {
        4
    } else {
        h
    }
}

/// The dark outline color of a sprite's border.
pub open spec fn outline_color_s() -> Color {
    Color { r: 30, g: 30, b: 30, a: 255 }
}

/// The white of the two headlight marks.
pub open spec fn headlight_color_s() -> Color {
    Color { r: 255, g: 255, b: 255, a: 255 }
}

/// The color of one sprite pixel, by its offset inside the `w` by `h`
/// box: headlight marks near the top edge when the sprite is tall
/// enough, the outline on the border, the entity's body color inside.
pub open spec fn sprite_pixel_color_s(w: int, h: int, body: Color, dx: int, dy: int) -> Color {
    if h > 4 && dy == 2 && (dx == w / 4 || dx == 3 * w / 4) {
        headlight_color_s()
    } else if dy == 0 || dy == h - 1 || dx == 0 || dx == w - 1 {
        outline_color_s()
    } else {
        Color { r: body.r, g: body.g, b: body.b, a: 255 }
    }
}

/// Blits one bordered sprite rectangle with its top-left corner at
/// `(x_start, y_start)`, which may lie off screen; every pixel write is
/// bounds-checked against both the screen height and the buffer.
pub fn draw_kart_sprite(
    frame: &mut Vec<u8>,
    width: usize,
    height: usize,
    x_start: i64,
    y_start: i64,
    w: usize,
    h: usize,
    body: Color,
)
    requires
        width <= MAX_SCREEN_DIM,
        height <= MAX_SCREEN_DIM,
        1 <= w <= 1000,
        1 <= h <= 1000,
        -0x10_0000 <= x_start <= 0x10_0000,
        -0x10_0000 <= y_start <= 0x10_0000,
    ensures
        final(frame).len() == old(frame).len(),
        forall|i: int|
            0 <= i < old(frame).len() ==> final(frame)@[i] == (if pixel_in_frame(
                old(frame).len() as int,
                width as int,
                col_of(i, width as int),
                row_of(i, width as int),
            ) && row_of(i, width as int) < height && x_start <= col_of(i, width as int) < x_start
                + w && y_start <= row_of(i, width as int) < y_start + h {
                channel_s(
                    sprite_pixel_color_s(
                        w as int,
                        h as int,
                        body,
                        col_of(i, width as int) - x_start,
                        row_of(i, width as int) - y_start,
                    ),
                    i % 4,
                )
            } else {
                old(frame)@[i]
            }),
{
    let len: usize = frame.len();
    let mut dy: usize = 0;
    while dy < h
        invariant
            0 <= dy <= h,
            1 <= w <= 1000,
            1 <= h <= 1000,
            width <= MAX_SCREEN_DIM,
            height <= MAX_SCREEN_DIM,
            -0x10_0000 <= x_start <= 0x10_0000,
            -0x10_0000 <= y_start <= 0x10_0000,
            frame.len() == len,
            len == old(frame).len(),
            forall|i: int|
                0 <= i < len ==> frame@[i] == (if pixel_in_frame(
                    len as int,
                    width as int,
                    col_of(i, width as int),
                    row_of(i, width as int),
                ) && row_of(i, width as int) < height && x_start <= col_of(i, width as int)
                    < x_start + w && y_start <= row_of(i, width as int) < y_start + dy {
                    channel_s(
                        sprite_pixel_color_s(
                            w as int,
                            h as int,
                            body,
                            col_of(i, width as int) - x_start,
                            row_of(i, width as int) - y_start,
                        ),
                        i % 4,
                    )
                } else {
                    old(frame)@[i]
                }),
        decreases h - dy,
    {
        let py: i64 = y_start + dy as i64;
        let mut dx: usize = 0;
        while dx < w
            invariant
                0 <= dx <= w,
                0 <= dy < h,
                1 <= w <= 1000,
                1 <= h <= 1000,
                width <= MAX_SCREEN_DIM,
                height <= MAX_SCREEN_DIM,
                -0x10_0000 <= x_start <= 0x10_0000,
                -0x10_0000 <= y_start <= 0x10_0000,
                py == y_start + dy,
                frame.len() == len,
                len == old(frame).len(),
                forall|i: int|
                    0 <= i < len ==> frame@[i] == (if pixel_in_frame(
                        len as int,
                        width as int,
                        col_of(i, width as int),
                        row_of(i, width as int),
                    ) && row_of(i, width as int) < height && x_start <= col_of(i, width as int)
                        < x_start + w && y_start <= row_of(i, width as int) && (row_of(
                        i,
                        width as int,
                    ) < y_start + dy || (row_of(i, width as int) == y_start + dy && col_of(
                        i,
                        width as int,
                    ) < x_start + dx)) {
                        channel_s(
                            sprite_pixel_color_s(
                                w as int,
                                h as int,
                                body,
                                col_of(i, width as int) - x_start,
                                row_of(i, width as int) - y_start,
                            ),
                            i % 4,
                        )
                    } else {
                        old(frame)@[i]
                    }),
            decreases w - dx,
        {
            let px: i64 = x_start + dx as i64;
            if px >= 0 && py >= 0 && px < width as i64 && py < height as i64 {
                let color: Color = if h > 4 && dy == 2 && (dx == w / 4 || dx == 3 * w / 4) {
                    Color { r: 255, g: 255, b: 255, a: 255 }
                } else if dy == 0 || dy == h - 1 || dx == 0 || dx == w - 1 {
                    Color { r: 30, g: 30, b: 30, a: 255 }
                } else {
                    Color { r: body.r, g: body.g, b: body.b, a: 255 }
                };
                proof {
                    assert(color == sprite_pixel_color_s(w as int, h as int, body, dx as int, dy as int));
                }
                set_pixel(frame, width, px as usize, py as usize, color);
            }
            dx = dx + 1;
        }
        dy = dy + 1;
    }
}

/// Projects one entity and, when it survives the cull, blits its sprite
/// centered on the projected point at the distance-derived size; a
/// culled entity leaves the frame untouched.
pub fn draw_entity(frame: &mut Vec<u8>, width: usize, height: usize, cam: &Camera, e: SpriteEntity)
    requires
        cam.wf(),
        entity_fits_s(e),
        1 <= width <= MAX_SCREEN_DIM,
        1 <= height <= MAX_SCREEN_DIM,
    ensures
        final(frame).len() == old(frame).len(),
        !visible_s(*cam, e.x as int, e.z as int) ==> final(frame)@ == old(frame)@,
        visible_s(*cam, e.x as int, e.z as int) ==> {
            let dist = entity_dist_s(*cam, e);
            let w = sprite_w_s(dist);
            let h = sprite_h_s(dist);
            let x_start = screen_col_s(*cam, e.x as int, e.z as int, width as int) - w / 2;
            let y_start = screen_row_s(*cam, e.x as int, e.z as int, e.y as int, height as int) - h
                / 2;
            forall|i: int|
                0 <= i < old(frame).len() ==> final(frame)@[i] == (if pixel_in_frame(
                    old(frame).len() as int,
                    width as int,
                    col_of(i, width as int),
                    row_of(i, width as int),
                ) && row_of(i, width as int) < height && x_start <= col_of(i, width as int)
                    < x_start + w && y_start <= row_of(i, width as int) < y_start + h {
                    channel_s(
                        sprite_pixel_color_s(
                            w,
                            h,
                            e.color,
                            col_of(i, width as int) - x_start,
                            row_of(i, width as int) - y_start,
                        ),
                        i % 4,
                    )
                } else {
                    old(frame)@[i]
                })
        },
{
    let projected = cam.world_to_screen(e.x, e.z, e.y, width, height);
    if let Some((sx, sy)) = projected {
        let dist: i64 = cam.distance_to(e.x, e.z);
        proof {
            assert(dist_sq_s(cam.x as int, cam.z as int, e.x as int, e.z as int)
                <= 8_000_000_000_000) by (nonlinear_arith)
                requires
                    -2_000_000 <= e.x as int - cam.x as int <= 2_000_000,
                    -2_000_000 <= e.z as int - cam.z as int <= 2_000_000,
            ;
            assert(dist <= 3_000_000) by (nonlinear_arith)
                requires
                    0 <= dist as int,
                    dist as int * dist as int <= 8_000_000_000_000,
            ;
        }
        let scale10: i64 = clamp_i64(1000 / (dist + 20), 3, 20);
        let w_px: i64 = 4 * scale10;
        let w_px: i64 = if w_px < 6 {
            6
        } else {
            w_px
        };
        let h_px: i64 = 24 * scale10 / 10;
        let h_px: i64 = if h_px < 4 {
            4
        } else {
            h_px
        };
        let x_start: i64 = sx as i64 - w_px / 2;
        let y_start: i64 = sy as i64 - h_px / 2;
        draw_kart_sprite(
            frame,
            width,
            height,
            x_start,
            y_start,
            w_px as usize,
            h_px as usize,
            e.color,
        );
    }
}

/// Sorts the entities by their planar distance from the camera,
/// farthest first, keeping exactly the same collection: the painter's
/// draw order.
pub fn sort_entities_far_to_near(v: &mut Vec<SpriteEntity>, cam: &Camera)
    requires
        cam.wf(),
        forall|j: int| 0 <= j < old(v)@.len() ==> entity_fits_s(#[trigger] old(v)@[j]),
    ensures
        final(v)@.len() == old(v)@.len(),
        forall|j: int| 0 <= j < final(v)@.len() ==> entity_fits_s(#[trigger] final(v)@[j]),
        forall|a: int, b: int|
            0 <= a <= b < final(v)@.len() ==> dist_sq_s(
                cam.x as int,
                cam.z as int,
                (#[trigger] final(v)@[a]).x as int,
                final(v)@[a].z as int,
            ) >= dist_sq_s(
                cam.x as int,
                cam.z as int,
                (#[trigger] final(v)@[b]).x as int,
                final(v)@[b].z as int,
            ),
        final(v)@.to_multiset() == old(v)@.to_multiset(),
{
    let n: usize = v.len();
    if n == 0 {
        return ;
    }
    let mut i: usize = 1;
    while i < n
        invariant
            cam.wf(),
            1 <= i <= n,
            v@.len() == n,
            n == old(v)@.len(),
            v@.to_multiset() == old(v)@.to_multiset(),
            forall|j: int| 0 <= j < v@.len() ==> entity_fits_s(#[trigger] v@[j]),
            forall|a: int, b: int|
                0 <= a <= b < i ==> dist_sq_s(
                    cam.x as int,
                    cam.z as int,
                    (#[trigger] v@[a]).x as int,
                    v@[a].z as int,
                ) >= dist_sq_s(
                    cam.x as int,
                    cam.z as int,
                    (#[trigger] v@[b]).x as int,
                    v@[b].z as int,
                ),
        decreases n - i,
    {
        let mut j: usize = i;
        while j > 0 && entity_dist_sq(cam, &v[j - 1]) < entity_dist_sq(cam, &v[j])
            invariant
                cam.wf(),
                0 <= j <= i < n,
                v@.len() == n,
                n == old(v)@.len(),
                v@.to_multiset() == old(v)@.to_multiset(),
                forall|jj: int| 0 <= jj < v@.len() ==> entity_fits_s(#[trigger] v@[jj]),
                forall|a: int, b: int|
                    0 <= a <= b <= i && b != j ==> dist_sq_s(
                        cam.x as int,
                        cam.z as int,
                        (#[trigger] v@[a]).x as int,
                        v@[a].z as int,
                    ) >= dist_sq_s(
                        cam.x as int,
                        cam.z as int,
                        (#[trigger] v@[b]).x as int,
                        v@[b].z as int,
                    ),
            decreases j,
        {
            let ghost pre: Seq<SpriteEntity> = v@;
            let nearer = v[j - 1];
            let farther = v[j];
            v.set(j - 1, farther);
            v.set(j, nearer);
            proof {
                broadcast use vstd::seq_lib::to_multiset_update;
                broadcast use vstd::seq_lib::group_to_multiset_ensures;

                assert(pre.contains(nearer)) by {
                    assert(pre[j - 1] == nearer);
                }
                assert(pre.contains(farther)) by {
                    assert(pre[j as int] == farther);
                }
                assert(v@.to_multiset() =~= pre.to_multiset());
            }
            j = j - 1;
        }
        i = i + 1;
    }
}

/// The planar squared distance from the camera to an entity.
pub fn entity_dist_sq(cam: &Camera, e: &SpriteEntity) -> (r: i64)
    requires
        cam.wf(),
        entity_fits_s(*e),
    ensures
        r == dist_sq_s(cam.x as int, cam.z as int, e.x as int, e.z as int),
        r >= 0,
{
    let dx: i64 = e.x - cam.x;
    let dz: i64 = e.z - cam.z;
    proof {
        lemma_mul_abs_bound(dx as int, dx as int, 2 * COORD_LIMIT as int, 2 * COORD_LIMIT as int);
        lemma_mul_abs_bound(dz as int, dz as int, 2 * COORD_LIMIT as int, 2 * COORD_LIMIT as int);
        assert(dx as int * dx as int >= 0) by (nonlinear_arith);
        assert(dz as int * dz as int >= 0) by (nonlinear_arith);
    }
    dx * dx + dz * dz
}

/// In a far-to-near draw order, an entity strictly farther from the
/// camera than another is drawn earlier, so the nearer one can overwrite
/// it at any shared pixel.
pub proof fn lemma_farther_drawn_first(cam: Camera, order: Seq<SpriteEntity>, a: int, b: int)
    requires
        forall|i: int, j: int|
            0 <= i <= j < order.len() ==> dist_sq_s(
                cam.x as int,
                cam.z as int,
                (#[trigger] order[i]).x as int,
                order[i].z as int,
            ) >= dist_sq_s(
                cam.x as int,
                cam.z as int,
                (#[trigger] order[j]).x as int,
                order[j].z as int,
            ),
        0 <= a < order.len(),
        0 <= b < order.len(),
        dist_sq_s(cam.x as int, cam.z as int, order[a].x as int, order[a].z as int) > dist_sq_s(
            cam.x as int,
            cam.z as int,
            order[b].x as int,
            order[b].z as int,
        ),
    ensures
        a < b,
{
    if a >= b {
        assert(dist_sq_s(cam.x as int, cam.z as int, order[b].x as int, order[b].z as int)
            >= dist_sq_s(cam.x as int, cam.z as int, order[a].x as int, order[a].z as int));
    }
}

/// Whether the frame shows entity `e`'s complete sprite: every in-frame
/// pixel of its distance-scaled box, on a row below `h`, holds the
/// sprite's color for that position.
pub open spec fn sprite_box_painted_s(cam: Camera, w: int, h: int, s: Seq<u8>, e: SpriteEntity) -> bool {
    let dist = entity_dist_s(cam, e);
    let bw = sprite_w_s(dist);
    let bh = sprite_h_s(dist);
    let x_start = screen_col_s(cam, e.x as int, e.z as int, w) - bw / 2;
    let y_start = screen_row_s(cam, e.x as int, e.z as int, e.y as int, h) - bh / 2;
    forall|i: int|
        0 <= i < s.len() && pixel_in_frame(s.len() as int, w, col_of(i, w), row_of(i, w)) && row_of(
            i,
            w,
        ) < h && x_start <= col_of(i, w) < x_start + bw && y_start <= row_of(i, w) < y_start + bh
            ==> s[i] == channel_s(
            sprite_pixel_color_s(bw, bh, e.color, col_of(i, w) - x_start, row_of(i, w) - y_start),
            i % 4,
        )
}

/// Draws all entities for one frame: farthest first, each projected,
/// scaled and blitted; writes stay inside the first `height` rows.
///
/// The painter's order shows in the result: when any entity is visible,
/// a visible entity of minimal camera distance is drawn last, so its
/// complete sprite box stands in the final frame, overwriting every
/// farther sprite at shared pixels.
pub fn draw_entities(
    frame: &mut Vec<u8>,
    width: usize,
    height: usize,
    cam: &Camera,
    entities: &Vec<SpriteEntity>,
)
    requires
        cam.wf(),
        forall|j: int| 0 <= j < entities@.len() ==> entity_fits_s(#[trigger] entities@[j]),
        1 <= width <= MAX_SCREEN_DIM,
        1 <= height <= MAX_SCREEN_DIM,
    ensures
        final(frame).len() == old(frame).len(),
        forall|i: int|
            0 <= i < old(frame).len() ==> final(frame)@[i] == old(frame)@[i] || (pixel_in_frame(
                old(frame).len() as int,
                width as int,
                col_of(i, width as int),
                row_of(i, width as int),
            ) && row_of(i, width as int) < height),
        (exists|j: int|
            0 <= j < entities@.len() && visible_s(
                *cam,
                (#[trigger] entities@[j]).x as int,
                entities@[j].z as int,
            )) ==> exists|e: SpriteEntity|
            {
                &&& #[trigger] entities@.contains(e)
                &&& visible_s(*cam, e.x as int, e.z as int)
                &&& forall|j: int|
                    0 <= j < entities@.len() && visible_s(
                        *cam,
                        (#[trigger] entities@[j]).x as int,
                        entities@[j].z as int,
                    ) ==> dist_sq_s(cam.x as int, cam.z as int, e.x as int, e.z as int) <= dist_sq_s(
                        cam.x as int,
                        cam.z as int,
                        entities@[j].x as int,
                        entities@[j].z as int,
                    )
                &&& sprite_box_painted_s(*cam, width as int, height as int, final(frame)@, e)
            },
{
    let len: usize = frame.len();
    let ghost w_i: int = width as int;
    let ghost h_i: int = height as int;
    let mut ordered: Vec<SpriteEntity> = Vec::new();
    let mut k: usize = 0;
    while k < entities.len()
        invariant
            0 <= k <= entities@.len(),
            ordered@ == entities@.take(k as int),
            forall|j: int| 0 <= j < entities@.len() ==> entity_fits_s(#[trigger] entities@[j]),
        decreases entities@.len() - k,
    {
        ordered.push(entities[k]);
        k = k + 1;
    }
    proof {
        assert(ordered@ == entities@);
        assert(forall|j: int| 0 <= j < ordered@.len() ==> entity_fits_s(#[trigger] ordered@[j]));
    }
    sort_entities_far_to_near(&mut ordered, cam);
    let mut m: usize = 0;
    while m < ordered.len()
        invariant
            cam.wf(),
            m <= ordered@.len(),
            w_i == width as int,
            h_i == height as int,
            1 <= width <= MAX_SCREEN_DIM,
            1 <= height <= MAX_SCREEN_DIM,
            forall|j: int| 0 <= j < ordered@.len() ==> entity_fits_s(#[trigger] ordered@[j]),
            ordered@.to_multiset() == entities@.to_multiset(),
            forall|a: int, b: int|
                0 <= a <= b < ordered@.len() ==> dist_sq_s(
                    cam.x as int,
                    cam.z as int,
                    (#[trigger] ordered@[a]).x as int,
                    ordered@[a].z as int,
                ) >= dist_sq_s(
                    cam.x as int,
                    cam.z as int,
                    (#[trigger] ordered@[b]).x as int,
                    ordered@[b].z as int,
                ),
            frame.len() == len,
            len == old(frame).len(),
            forall|i: int|
                0 <= i < len ==> frame@[i] == old(frame)@[i] || (pixel_in_frame(
                    len as int,
                    w_i,
                    col_of(i, w_i),
                    row_of(i, w_i),
                ) && row_of(i, w_i) < height),
            (exists|j: int|
                0 <= j < m && visible_s(
                    *cam,
                    (#[trigger] ordered@[j]).x as int,
                    ordered@[j].z as int,
                )) ==> exists|j0: int|
                {
                    &&& 0 <= j0 < m
                    &&& visible_s(*cam, (#[trigger] ordered@[j0]).x as int, ordered@[j0].z as int)
                    &&& forall|j2: int|
                        j0 < j2 < m ==> !visible_s(
                            *cam,
                            (#[trigger] ordered@[j2]).x as int,
                            ordered@[j2].z as int,
                        )
                    &&& sprite_box_painted_s(*cam, w_i, h_i, frame@, ordered@[j0])
                },
        decreases ordered@.len() - m,
    {
        let ghost pre_frame: Seq<u8> = frame@;
        let ghost em: SpriteEntity = ordered@[m as int];
        draw_entity(frame, width, height, cam, ordered[m]);
        proof {
            if visible_s(*cam, em.x as int, em.z as int) {
                assert(sprite_box_painted_s(*cam, w_i, h_i, frame@, em));
                assert(0 <= m < m + 1 && visible_s(*cam, (ordered@[m as int]).x as int, ordered@[m as int].z as int)
                    && (forall|j2: int|
                    m < j2 < m + 1 ==> !visible_s(
                        *cam,
                        (#[trigger] ordered@[j2]).x as int,
                        ordered@[j2].z as int,
                    )) && sprite_box_painted_s(*cam, w_i, h_i, frame@, ordered@[m as int]));
            } else {
                assert(frame@ == pre_frame);
                if exists|j: int|
                    0 <= j < m && visible_s(
                        *cam,
                        (#[trigger] ordered@[j]).x as int,
                        ordered@[j].z as int,
                    ) {
                    let j0 = choose|j0: int|
                        {
                            &&& 0 <= j0 < m
                            &&& visible_s(*cam, (#[trigger] ordered@[j0]).x as int, ordered@[j0].z as int)
                            &&& forall|j2: int|
                                j0 < j2 < m ==> !visible_s(
                                    *cam,
                                    (#[trigger] ordered@[j2]).x as int,
                                    ordered@[j2].z as int,
                                )
                            &&& sprite_box_painted_s(*cam, w_i, h_i, pre_frame, ordered@[j0])
                        };
                    assert(0 <= j0 < m + 1 && visible_s(*cam, (ordered@[j0]).x as int, ordered@[j0].z as int)
                        && (forall|j2: int|
                        j0 < j2 < m + 1 ==> !visible_s(
                            *cam,
                            (#[trigger] ordered@[j2]).x as int,
                            ordered@[j2].z as int,
                        )) && sprite_box_painted_s(*cam, w_i, h_i, frame@, ordered@[j0]));
                }
            }
        }
        m = m + 1;
    }
    proof {
        broadcast use vstd::seq_lib::group_to_multiset_ensures;

        if exists|j: int|
            0 <= j < entities@.len() && visible_s(
                *cam,
                (#[trigger] entities@[j]).x as int,
                entities@[j].z as int,
            ) {
            let jin = choose|j: int|
                0 <= j < entities@.len() && visible_s(
                    *cam,
                    (#[trigger] entities@[j]).x as int,
                    entities@[j].z as int,
                );
            let sv = entities@[jin];
            assert(entities@.contains(sv)) by {
                assert(entities@[jin] == sv);
            }
            assert(entities@.to_multiset().count(sv) > 0);
            assert(ordered@.to_multiset().count(sv) > 0);
            assert(ordered@.contains(sv));
            let js = choose|j: int| 0 <= j < ordered@.len() && ordered@[j] == sv;
            assert(visible_s(*cam, (ordered@[js]).x as int, ordered@[js].z as int));
            let j0 = choose|j0: int|
                {
                    &&& 0 <= j0 < ordered@.len()
                    &&& visible_s(*cam, (#[trigger] ordered@[j0]).x as int, ordered@[j0].z as int)
                    &&& forall|j2: int|
                        j0 < j2 < ordered@.len() ==> !visible_s(
                            *cam,
                            (#[trigger] ordered@[j2]).x as int,
                            ordered@[j2].z as int,
                        )
                    &&& sprite_box_painted_s(*cam, w_i, h_i, frame@, ordered@[j0])
                };
            let e = ordered@[j0];
            assert(ordered@.contains(e)) by {
                assert(ordered@[j0] == e);
            }
            assert(ordered@.to_multiset().count(e) > 0);
            assert(entities@.to_multiset().count(e) > 0);
            assert(entities@.contains(e));
            assert forall|j: int|
                0 <= j < entities@.len() && visible_s(
                    *cam,
                    (#[trigger] entities@[j]).x as int,
                    entities@[j].z as int,
                ) implies dist_sq_s(cam.x as int, cam.z as int, e.x as int, e.z as int)
                <= dist_sq_s(
                cam.x as int,
                cam.z as int,
                entities@[j].x as int,
                entities@[j].z as int,
            ) by {
                let f = entities@[j];
                assert(entities@.contains(f)) by {
                    assert(entities@[j] == f);
                }
                assert(entities@.to_multiset().count(f) > 0);
                assert(ordered@.to_multiset().count(f) > 0);
                assert(ordered@.contains(f));
                let j1 = choose|jj: int| 0 <= jj < ordered@.len() && ordered@[jj] == f;
                if j1 > j0 {
                    assert(!visible_s(*cam, (ordered@[j1]).x as int, ordered@[j1].z as int));
                    assert(false);
                }
            }
            assert(visible_s(*cam, e.x as int, e.z as int) && sprite_box_painted_s(
                *cam,
                w_i,
                h_i,
                frame@,
                e,
            ));
        }
    }
}

} // verus!
