use rustkart::background::fill_background;
use rustkart::camera::Camera;
use rustkart::rasterizer::{
    build_spans, collect_road_samples, fill_span, sort_samples_by_row, RoadSample, RowSpan,
};
use rustkart::track::Track;

fn pixel(frame: &[u8], width: usize, x: usize, y: usize) -> (u8, u8, u8, u8) {
    let idx = (y * width + x) * 4;
    (frame[idx], frame[idx + 1], frame[idx + 2], frame[idx + 3])
}

const SKY: (u8, u8, u8, u8) = (100, 180, 255, 255);
const GROUND: (u8, u8, u8, u8) = (50, 180, 50, 255);
const ROAD: (u8, u8, u8, u8) = (80, 80, 90, 255);
const STRIPE: (u8, u8, u8, u8) = (220, 220, 200, 255);
const EDGE: (u8, u8, u8, u8) = (255, 255, 255, 255);

#[test]
fn background_splits_at_the_horizon_row() {
    let width = 4;
    let height = 5;
    let mut frame = vec![0u8; width * height * 4];
    fill_background(&mut frame, width, height);
    // horizon row = 3 * 5 / 5 = 3: rows 0..3 sky, rows 3..5 ground.
    for y in 0..height {
        for x in 0..width {
            let expected = if y < 3 { SKY } else { GROUND };
            assert_eq!(pixel(&frame, width, x, y), expected);
        }
    }
}

#[test]
fn interpolated_spans_cover_every_row_between_two_samples() {
    // Two samples twenty rows apart must yield a span for every row
    // 400..=420 with a defined left and right bound, and the center
    // moves monotonically between the two sample centers.
    let samples = vec![
        RoadSample { screen_y: 400, left_x: 300, right_x: 900, center_x: 600, depth: 0 },
        RoadSample { screen_y: 420, left_x: 200, right_x: 1000, center_x: 640, depth: 3 },
    ];
    let spans = build_spans(&samples, 1280, 720);
    assert_eq!(spans.len(), 21);
    for (i, p) in spans.iter().enumerate() {
        assert_eq!(p.y, 400 + i);
        assert!(p.left <= p.right);
        assert!(200 <= p.left && p.left <= 300);
        assert!(900 <= p.right && p.right <= 1000);
    }
    for w in spans.windows(2) {
        assert!(w[0].center < w[1].center);
    }
    assert_eq!(spans[0].left, 300);
    assert_eq!(spans[0].right, 900);
    assert_eq!(spans[0].center, 600);
    assert_eq!(spans[20].left, 200);
    assert_eq!(spans[20].right, 1000);
    assert_eq!(spans[20].center, 640);
}

#[test]
fn spans_from_equal_rows_degenerate_to_one_row() {
    let samples = vec![
        RoadSample { screen_y: 100, left_x: 10, right_x: 20, center_x: 15, depth: 6 },
        RoadSample { screen_y: 100, left_x: 12, right_x: 22, center_x: 17, depth: 9 },
    ];
    let spans = build_spans(&samples, 64, 128);
    assert_eq!(spans.len(), 1);
    assert_eq!(spans[0].y, 100);
    assert_eq!(spans[0].left, 10);
    assert_eq!(spans[0].right, 20);
}

#[test]
fn fewer_than_two_samples_yield_no_spans() {
    let spans = build_spans(&Vec::new(), 64, 64);
    assert_eq!(spans.len(), 0);
    let one = vec![RoadSample { screen_y: 10, left_x: 1, right_x: 2, center_x: 1, depth: 0 }];
    assert_eq!(build_spans(&one, 64, 64).len(), 0);
}

#[test]
fn sorting_orders_samples_by_screen_row() {
    let mut samples = vec![
        RoadSample { screen_y: 30, left_x: 0, right_x: 5, center_x: 2, depth: 9 },
        RoadSample { screen_y: 10, left_x: 1, right_x: 6, center_x: 3, depth: 0 },
        RoadSample { screen_y: 20, left_x: 2, right_x: 7, center_x: 4, depth: 3 },
        RoadSample { screen_y: 10, left_x: 3, right_x: 8, center_x: 5, depth: 6 },
    ];
    sort_samples_by_row(&mut samples);
    assert_eq!(samples.len(), 4);
    for w in samples.windows(2) {
        assert!(w[0].screen_y <= w[1].screen_y);
    }
    assert_eq!(samples[3].screen_y, 30);
    assert_eq!(samples[3].depth, 9);
}

#[test]
fn span_fill_paints_stripe_road_and_edges() {
    let width = 16;
    let height = 4;
    let mut frame = vec![0u8; width * height * 4];
    // Depth 0 carries the edge marker and an "on" stripe dash.
    let p = RowSpan { y: 1, left: 2, right: 12, center: 7, depth: 0 };
    fill_span(&mut frame, width, p);
    assert_eq!(pixel(&frame, width, 2, 1), EDGE);
    assert_eq!(pixel(&frame, width, 12, 1), EDGE);
    // Center column: distance 0, well within the stripe band.
    assert_eq!(pixel(&frame, width, 7, 1), STRIPE);
    // Column 3: distance 4 from center, 20*4 = 80 >= 7*(10+2) = 84? no,
    // 80 < 84, still stripe; column 12 is the edge, column 11 has
    // distance 4 as well. Use depth 48 (dash off, no marker) to see
    // plain road.
    let mut frame2 = vec![0u8; width * height * 4];
    let p2 = RowSpan { y: 1, left: 2, right: 12, center: 7, depth: 48 };
    fill_span(&mut frame2, width, p2);
    assert_eq!(pixel(&frame2, width, 7, 1), ROAD);
    assert_eq!(pixel(&frame2, width, 2, 1), ROAD);
    // Other rows untouched.
    assert_eq!(pixel(&frame, width, 7, 0), (0, 0, 0, 0));
    assert_eq!(pixel(&frame, width, 7, 2), (0, 0, 0, 0));
}

#[test]
fn straight_road_collects_ascending_visible_samples() {
    let cam = Camera::new(0, 0);
    let samples = collect_road_samples(&cam, 320, 200);
    assert!(samples.len() > 2);
    for w in samples.windows(2) {
        assert!(w[0].depth < w[1].depth);
        assert_eq!((w[1].depth - w[0].depth) % 3, 0);
    }
    for s in &samples {
        assert!(s.screen_y < 200);
        assert!(s.left_x < 320 && s.right_x < 320 && s.center_x < 320);
    }
}

#[test]
fn drawn_road_reaches_the_bottom_with_no_gap_rows() {
    // End to end: background plus road from a camera on the
    // centerline. Between the highest road row and the bottom of the
    // screen every row must show road (or stripe or edge) somewhere:
    // no ground may bleed through inside the rasterized span.
    let width = 320;
    let height = 200;
    let track = Track::new(width, height);
    let cam = Camera::new(0, 0);
    let mut frame = vec![0u8; width * height * 4];
    track.draw(&mut frame, &cam);

    let is_road = |c: (u8, u8, u8, u8)| c == ROAD || c == STRIPE || c == EDGE;
    let mut first_road_row = None;
    for y in 0..height {
        if (0..width).any(|x| is_road(pixel(&frame, width, x, y))) {
            first_road_row = Some(y);
            break;
        }
    }
    let first = first_road_row.expect("the road must be visible");
    assert!(first < height - 1);
    for y in first..height {
        assert!(
            (0..width).any(|x| is_road(pixel(&frame, width, x, y))),
            "row {} shows no road",
            y
        );
    }
    // Above the road only sky and ground remain, split at the horizon.
    assert_eq!(pixel(&frame, width, 0, 0), SKY);

    // The closing strip: the bottom row is filled with the plain road
    // color across the nearest surviving cross-section's span, which
    // for this pose is columns 93..=319 (the right edge clamps to the
    // screen border).
    assert_eq!(pixel(&frame, width, 93, height - 1), ROAD);
    assert_eq!(pixel(&frame, width, 200, height - 1), ROAD);
    assert_eq!(pixel(&frame, width, width - 1, height - 1), ROAD);
}

#[test]
fn track_resize_adopts_the_new_screen() {
    let mut track = Track::new(64, 64);
    track.resize(320, 200);
    assert_eq!(track.width, 320);
    assert_eq!(track.height, 200);
    assert_eq!(track.track_width, 280);
}
