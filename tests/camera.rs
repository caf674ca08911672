use point_cloud_renderer::camera::{average_pixel, Axis, Direction};

#[test]
fn no_samples_give_no_pixel() {
    assert_eq!(average_pixel(&vec![]), None);
}

#[test]
fn identical_samples_give_that_pixel() {
    let samples = vec![(400, 225); 10];
    assert_eq!(average_pixel(&samples), Some((400, 225)));
    assert_eq!(average_pixel(&vec![(3, 9)]), Some((3, 9)));
}

#[test]
fn mean_is_rounded_half_up() {
    // Columns: (1 + 2) / 2 = 1.5 -> 2. Rows: (4 + 4) / 2 = 4.
    assert_eq!(average_pixel(&vec![(1, 4), (2, 4)]), Some((2, 4)));
    // Columns: (0 + 1 + 1) / 3 = 0.67 -> 1. Rows: (0 + 0 + 1) / 3 = 0.33 -> 0.
    assert_eq!(average_pixel(&vec![(0, 0), (1, 0), (1, 1)]), Some((1, 0)));
    // Columns: (10 + 11 + 11 + 11) / 4 = 10.75 -> 11. Rows: (2 + 2 + 3 + 2) / 4 = 2.25 -> 2.
    assert_eq!(
        average_pixel(&vec![(10, 2), (11, 2), (11, 3), (11, 2)]),
        Some((11, 2))
    );
}

#[test]
fn largest_coordinates_do_not_overflow() {
    let samples = vec![(usize::MAX, usize::MAX), (usize::MAX, usize::MAX - 1)];
    assert_eq!(average_pixel(&samples), Some((usize::MAX, usize::MAX)));
    let samples = vec![(usize::MAX, 0), (usize::MAX - 1, 0), (usize::MAX - 1, 0)];
    assert_eq!(average_pixel(&samples), Some((usize::MAX - 1, 0)));
}

#[test]
fn directions_follow_their_axes() {
    assert_eq!(Direction::Forward.axis_and_sign(), (Axis::Look, 1));
    assert_eq!(Direction::Backward.axis_and_sign(), (Axis::Look, -1));
    assert_eq!(Direction::Right.axis_and_sign(), (Axis::Right, 1));
    assert_eq!(Direction::Left.axis_and_sign(), (Axis::Right, -1));
    assert_eq!(Direction::Up.axis_and_sign(), (Axis::Up, 1));
    assert_eq!(Direction::Down.axis_and_sign(), (Axis::Up, -1));
}
