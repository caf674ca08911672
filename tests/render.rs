use image::{Pixel, Rgba};
use point_cloud_renderer::image_ops::into_raw;
use point_cloud_renderer::render::{render_fragments, Fragment};
use point_cloud_renderer::screen::Screen;

fn pixel(raw: &[u8], width: usize, x: usize, y: usize) -> [u8; 4] {
    let i = (y * width + x) * 4;
    [raw[i], raw[i + 1], raw[i + 2], raw[i + 3]]
}

fn fragment(depth: u64, x: usize, y: usize, color: [u8; 4]) -> Fragment {
    Fragment { depth, x, y, color }
}

fn depth_key(depth: f64) -> u64 {
    depth.to_bits()
}

const RED: [u8; 4] = [255, 0, 0, 255];
const BLUE: [u8; 4] = [0, 0, 255, 255];

#[test]
fn empty_point_list_gives_background() {
    let screen = Screen::new((8, 6));
    let raw = into_raw(render_fragments(&screen, &vec![]));
    assert_eq!(raw.len(), 8 * 6 * 4);
    assert!(raw.iter().all(|&s| s == 0));
}

#[test]
fn near_point_first_dominates() {
    let screen = Screen::new((4, 4));
    let near = fragment(depth_key(1.0), 2, 1, RED);
    let far = fragment(depth_key(5.0), 2, 1, BLUE);
    let raw = into_raw(render_fragments(&screen, &vec![near, far]));
    assert_eq!(pixel(&raw, 4, 2, 1), RED);
}

#[test]
fn far_point_first_is_covered_by_near() {
    let screen = Screen::new((4, 4));
    let near = fragment(depth_key(1.0), 2, 1, RED);
    let far = fragment(depth_key(5.0), 2, 1, BLUE);
    let raw = into_raw(render_fragments(&screen, &vec![far, near]));
    // The near point passes the depth test and its opaque color is blended
    // over the far one.
    assert_eq!(pixel(&raw, 4, 2, 1), RED);
}

#[test]
fn other_pixels_stay_background() {
    let screen = Screen::new((4, 4));
    let raw = into_raw(render_fragments(&screen, &vec![fragment(7, 3, 3, RED)]));
    assert_eq!(pixel(&raw, 4, 3, 3), RED);
    for y in 0..4 {
        for x in 0..4 {
            if (x, y) != (3, 3) {
                assert_eq!(pixel(&raw, 4, x, y), [0, 0, 0, 0]);
            }
        }
    }
}

#[test]
fn transparent_point_leaves_background() {
    let screen = Screen::new((2, 2));
    let raw = into_raw(render_fragments(&screen, &vec![fragment(3, 1, 0, [0, 255, 0, 0])]));
    assert_eq!(pixel(&raw, 2, 1, 0), [0, 0, 0, 0]);
}

#[test]
fn translucent_point_on_empty_pixel_is_blended_over_background() {
    let screen = Screen::new((2, 2));
    let raw = into_raw(render_fragments(&screen, &vec![fragment(3, 0, 1, [0, 0, 255, 128])]));
    let mut expected = Rgba([0, 0, 0, 0]);
    expected.blend(&Rgba([0, 0, 255, 128]));
    assert_eq!(pixel(&raw, 2, 0, 1), expected.0);
}

#[test]
fn equal_depth_is_dropped() {
    let screen = Screen::new((2, 2));
    let first = fragment(10, 0, 0, [0, 0, 255, 128]);
    let second = fragment(10, 0, 0, RED);
    let raw = into_raw(render_fragments(&screen, &vec![first, second]));
    let mut expected = Rgba([0, 0, 0, 0]);
    expected.blend(&Rgba([0, 0, 255, 128]));
    assert_eq!(pixel(&raw, 2, 0, 0), expected.0);
}

#[test]
fn far_depth_key_is_never_drawn() {
    let screen = Screen::new((2, 2));
    let raw = into_raw(render_fragments(&screen, &vec![fragment(u64::MAX, 1, 1, RED)]));
    assert_eq!(pixel(&raw, 2, 1, 1), [0, 0, 0, 0]);
}

#[test]
fn translucent_near_point_is_blended_over_far_point() {
    let screen = Screen::new((3, 1));
    let far = fragment(50, 1, 0, RED);
    let near = fragment(5, 1, 0, [0, 0, 255, 128]);
    let raw = into_raw(render_fragments(&screen, &vec![far, near]));
    let mut expected = Rgba(RED);
    expected.blend(&Rgba([0, 0, 255, 128]));
    assert_ne!(expected.0, RED);
    assert_ne!(expected.0, [0, 0, 255, 128]);
    assert_eq!(pixel(&raw, 3, 1, 0), expected.0);
}

#[test]
fn translucent_near_point_first_hides_far_point() {
    let screen = Screen::new((3, 1));
    let far = fragment(50, 1, 0, RED);
    let near = fragment(5, 1, 0, [0, 0, 255, 128]);
    let raw = into_raw(render_fragments(&screen, &vec![near, far]));
    let mut expected = Rgba([0, 0, 0, 0]);
    expected.blend(&Rgba([0, 0, 255, 128]));
    assert_eq!(pixel(&raw, 3, 1, 0), expected.0);
}

#[test]
fn nearer_point_covers_transparent_one_then_farther_is_dropped() {
    let screen = Screen::new((1, 1));
    let a = fragment(30, 0, 0, [0, 255, 0, 0]);
    let b = fragment(20, 0, 0, BLUE);
    let c = fragment(25, 0, 0, RED);
    let raw = into_raw(render_fragments(&screen, &vec![a, b, c]));
    // `a` is fully transparent: it takes the depth but leaves the background;
    // `b` is nearer and opaque; `c` is behind `b` and is dropped.
    assert_eq!(pixel(&raw, 1, 0, 0), BLUE);
}
