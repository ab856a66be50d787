use rustkart::camera::Camera;

#[test]
fn new_camera_pose() {
    let cam = Camera::new(0, 100);
    assert_eq!(cam.x, 0);
    assert_eq!(cam.z, 100);
    assert_eq!(cam.direction, 0);
    assert_eq!(cam.height, 60);
    assert_eq!(cam.speed, 0);
}

#[test]
fn point_ahead_projects_near_center_below_horizon() {
    // Camera at the origin, facing yaw zero, height 60; a ground point
    // 100 units ahead must land on the horizontal center, below the
    // horizon row (432 of 720).
    let cam = Camera::new(0, 0);
    let r = cam.world_to_screen(0, 100, 0, 1280, 720);
    assert_eq!(r, Some((640, 624)));
    let (sx, sy) = r.unwrap();
    assert_eq!(sx, 1280 / 2);
    assert!(sy > 3 * 720 / 5);
}

#[test]
fn point_behind_camera_is_culled() {
    let cam = Camera::new(0, 0);
    assert_eq!(cam.world_to_screen(0, -50, 0, 1280, 720), None);
}

#[test]
fn visible_points_always_land_on_screen() {
    // Clamp invariant: whatever survives the cull lies inside the screen.
    let cam = Camera::new(0, 0);
    for (wx, wz, wy) in [
        (-1_000_000, 50, 0),
        (1_000_000, 2, -500),
        (0, 1, 900),
        (123_456, 999_999, -60),
        (3, 5, 60),
    ] {
        if let Some((sx, sy)) = cam.world_to_screen(wx, wz, wy, 320, 200) {
            assert!(sx < 320);
            assert!(sy < 200);
        }
    }
}

#[test]
fn cull_is_exactly_the_near_plane_test() {
    // With yaw zero the camera-facing depth is the relative z, so the
    // near plane at 1 separates depth 0 from depth 1.
    let cam = Camera::new(0, 0);
    assert_eq!(cam.world_to_screen(0, 0, 0, 100, 100), None);
    assert!(cam.world_to_screen(0, 1, 0, 100, 100).is_some());
}

#[test]
fn distance_is_zero_only_at_the_camera() {
    let cam = Camera::new(3, 4);
    assert_eq!(cam.distance_to(3, 4), 0);
    assert_eq!(cam.distance_to(0, 0), 5);
    assert!(cam.distance_to(3, 5) > 0);
}

#[test]
fn distance_is_symmetric_under_swap() {
    let cam_a = Camera::new(10, 20);
    let cam_b = Camera::new(-7, 3);
    assert_eq!(cam_a.distance_to(-7, 3), cam_b.distance_to(10, 20));
}

#[test]
fn follow_blends_toward_a_trailing_pose() {
    // Target at rest at the origin facing yaw zero: the desired camera
    // spot is 35 units behind it, and one smoothing step moves 15
    // hundredths of the way there (floor division).
    let mut cam = Camera::new(0, 0);
    cam.follow_player(0, 0, 0, 0);
    assert_eq!(cam.x, 0);
    assert_eq!(cam.z, -6);
    assert_eq!(cam.height, 59);
    assert_eq!(cam.direction, 0);
    assert_eq!(cam.speed, 0);
}

#[test]
fn follow_copies_yaw_and_speed_unsmoothed() {
    let mut cam = Camera::new(0, 0);
    cam.follow_player(100, 200, 512, 10);
    assert_eq!(cam.direction, 512);
    assert_eq!(cam.speed, 10);
}

#[test]
fn follow_keeps_height_in_its_clamp_range() {
    let mut cam = Camera::new(0, 0);
    for _ in 0..200 {
        cam.follow_player(0, 0, 0, 1000);
    }
    assert!(cam.height >= 18 && cam.height <= 80);
    let mut cam = Camera::new(0, 0);
    for _ in 0..200 {
        cam.follow_player(0, 0, 0, 0);
    }
    assert!(cam.height >= 18 && cam.height <= 80);
}

#[test]
fn quarter_turn_camera_looks_along_the_x_axis() {
    // One follow step with a quarter-turn yaw puts the camera at
    // (-6, 0) height 59 facing +x, so forward depth is the relative x.
    let mut cam = Camera::new(0, 0);
    cam.follow_player(0, 0, 512, 0);
    assert_eq!((cam.x, cam.z, cam.height, cam.direction), (-6, 0, 59, 512));
    // A ground point straight ahead: centered column, below the horizon.
    assert_eq!(cam.world_to_screen(100, 0, 0, 1280, 720), Some((640, 610)));
    // A point ahead and to the camera's left lands left of center.
    assert_eq!(cam.world_to_screen(100, 50, 0, 1280, 720), Some((451, 610)));
    // A point behind the new facing direction is culled.
    assert_eq!(cam.world_to_screen(-100, 0, 0, 1280, 720), None);
}

#[test]
fn faster_camera_sees_a_stronger_perspective() {
    // The same point projects farther from the screen center once the
    // camera carries speed, because the depth factor grows with it.
    let slow = Camera::new(0, 0);
    let mut fast = Camera::new(0, 0);
    fast.follow_player(0, 35, 0, 100);
    assert_eq!(fast.direction, 0);
    let (sx_slow, _) = slow.world_to_screen(50, 400, 0, 1280, 720).unwrap();
    let (sx_fast, _) = fast.world_to_screen(50, 400, 0, 1280, 720).unwrap();
    assert!(sx_fast > sx_slow);
    assert!(sx_slow > 640);
}
