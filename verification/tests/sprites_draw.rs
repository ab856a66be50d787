use rustkart::camera::Camera;
use rustkart::framebuffer::{set_pixel, Color};
use rustkart::sprites::{
    draw_entities, draw_entity, entity_dist_sq, sort_entities_far_to_near, SpriteEntity,
};

fn pixel(frame: &[u8], width: usize, x: usize, y: usize) -> (u8, u8, u8, u8) {
    let idx = (y * width + x) * 4;
    (frame[idx], frame[idx + 1], frame[idx + 2], frame[idx + 3])
}

const RED: Color = Color { r: 255, g: 100, b: 0, a: 255 };
const BLUE: Color = Color { r: 0, g: 150, b: 255, a: 255 };

#[test]
fn set_pixel_writes_inside_and_drops_outside() {
    let mut frame = vec![0u8; 16];
    let c = Color { r: 1, g: 2, b: 3, a: 4 };
    set_pixel(&mut frame, 2, 1, 1, c);
    assert_eq!(&frame[12..16], &[1, 2, 3, 4]);
    assert_eq!(&frame[0..12], &[0u8; 12]);
    let before = frame.clone();
    set_pixel(&mut frame, 2, 0, 2, c);
    set_pixel(&mut frame, 2, 2, 0, c);
    assert_eq!(frame, before);
}

#[test]
fn sorting_puts_the_farthest_entity_first() {
    let cam = Camera::new(0, 0);
    let near = SpriteEntity { x: 0, z: 100, y: 0, color: BLUE };
    let far = SpriteEntity { x: 0, z: 200, y: 0, color: RED };
    let mut order = vec![near, far];
    sort_entities_far_to_near(&mut order, &cam);
    assert_eq!(order[0], far);
    assert_eq!(order[1], near);
    assert!(entity_dist_sq(&cam, &order[0]) >= entity_dist_sq(&cam, &order[1]));
}

#[test]
fn culled_entity_leaves_the_frame_untouched() {
    let cam = Camera::new(0, 0);
    let width = 64;
    let height = 64;
    let mut frame = vec![7u8; width * height * 4];
    let behind = SpriteEntity { x: 0, z: -100, y: 0, color: RED };
    draw_entity(&mut frame, width, height, &cam, behind);
    assert!(frame.iter().all(|&b| b == 7));
}

#[test]
fn sprite_is_a_bordered_rectangle_with_headlights() {
    // Entity 100 ahead at the camera's height projects to (640, 432);
    // distance 100 gives scale 8 tenths... scale10 = 1000/120 = 8, so a
    // 32 by 19 box with its top-left corner at (624, 423).
    let cam = Camera::new(0, 0);
    let width = 1280;
    let height = 720;
    let mut frame = vec![0u8; width * height * 4];
    let e = SpriteEntity { x: 0, z: 100, y: 60, color: BLUE };
    draw_entity(&mut frame, width, height, &cam, e);
    // Border pixels are the dark outline.
    assert_eq!(pixel(&frame, width, 624, 423), (30, 30, 30, 255));
    assert_eq!(pixel(&frame, width, 655, 441), (30, 30, 30, 255));
    // Interior pixels carry the body color.
    assert_eq!(pixel(&frame, width, 640, 432), (0, 150, 255, 255));
    // Headlights sit at one and three quarters of the width, two rows
    // below the top edge.
    assert_eq!(pixel(&frame, width, 624 + 8, 425), (255, 255, 255, 255));
    assert_eq!(pixel(&frame, width, 624 + 24, 425), (255, 255, 255, 255));
    // One pixel outside the box stays untouched.
    assert_eq!(pixel(&frame, width, 623, 423), (0, 0, 0, 0));
    assert_eq!(pixel(&frame, width, 624, 422), (0, 0, 0, 0));
}

#[test]
fn nearer_entity_overdraws_the_farther_one() {
    // Both entities project onto the same screen point; the painter's
    // order must leave the nearer entity's body color at the overlap.
    let cam = Camera::new(0, 0);
    let width = 1280;
    let height = 720;
    let far = SpriteEntity { x: 0, z: 120, y: 60, color: RED };
    let near = SpriteEntity { x: 0, z: 100, y: 60, color: BLUE };

    let mut frame = vec![0u8; width * height * 4];
    draw_entities(&mut frame, width, height, &cam, &vec![near, far]);
    assert_eq!(pixel(&frame, width, 640, 432), (0, 150, 255, 255));

    // The same scene with the entities given in the other order ends
    // the same way: the order of the input list does not matter.
    let mut frame2 = vec![0u8; width * height * 4];
    draw_entities(&mut frame2, width, height, &cam, &vec![far, near]);
    assert_eq!(pixel(&frame2, width, 640, 432), (0, 150, 255, 255));
}

#[test]
fn tiny_distant_sprite_keeps_the_minimum_size() {
    // Far away the scale clamps low and the box floors at 6 by 4.
    let cam = Camera::new(0, 0);
    let width = 1280;
    let height = 720;
    let mut frame = vec![0u8; width * height * 4];
    let e = SpriteEntity { x: 0, z: 900, y: 60, color: RED };
    draw_entity(&mut frame, width, height, &cam, e);
    // scale10 = clamp(1000 / 920, 3, 20) = 3: box 12 by 7 at (634, 429).
    assert_eq!(pixel(&frame, width, 634, 429), (30, 30, 30, 255));
    assert_eq!(pixel(&frame, width, 636, 432), (255, 100, 0, 255));
    assert_eq!(pixel(&frame, width, 633, 429), (0, 0, 0, 0));
}
