use rover::window_shape::{add_sidebar_region, rounded_row_inset, rounded_window_region, RegionRect, WINDOW_RADIUS};

fn rect(x: i32, y: i32, width: i32, height: i32) -> RegionRect {
    RegionRect { x, y, width, height }
}

/// The inset as the desktop shell computes it, in floating point.
fn float_inset(y: i32, height: i32, radius: i32) -> i32 {
    let top = y < radius;
    let bottom = y >= height - radius;
    if !top && !bottom {
        return 0;
    }
    let center_y = if top { radius } else { height - radius - 1 };
    let dy = (y - center_y).abs() as f64;
    let radius = radius as f64;
    (radius - (radius * radius - dy * dy).max(0.0).sqrt()).ceil() as i32
}

#[test]
fn row_inset_at_the_corners() {
    assert_eq!(rounded_row_inset(0, 100, 16), 16);
    assert_eq!(rounded_row_inset(8, 100, 16), 3);
    assert_eq!(rounded_row_inset(15, 100, 16), 1);
    assert_eq!(rounded_row_inset(16, 100, 16), 0);
    assert_eq!(rounded_row_inset(50, 100, 16), 0);
    assert_eq!(rounded_row_inset(84, 100, 16), 1);
    assert_eq!(rounded_row_inset(99, 100, 16), 16);
}

#[test]
fn row_inset_without_radius() {
    assert_eq!(rounded_row_inset(0, 10, 0), 0);
    assert_eq!(rounded_row_inset(9, 10, 0), 0);
    assert_eq!(rounded_row_inset(3, 10, -4), 0);
}

#[test]
fn row_inset_matches_floating_point() {
    for radius in 0..40 {
        for height in 1..90 {
            for y in 0..height {
                assert_eq!(rounded_row_inset(y, height, radius), float_inset(y, height, radius), "y {y} height {height} radius {radius}");
            }
        }
    }
}

#[test]
fn row_inset_symmetric_top_and_bottom() {
    for y in 0..40 {
        assert_eq!(rounded_row_inset(y, 40, 16), rounded_row_inset(39 - y, 40, 16));
    }
}

#[test]
fn window_region_rows() {
    let region = rounded_window_region(10, 4, 16);
    assert_eq!(region, vec![rect(2, 0, 6, 1), rect(1, 1, 8, 1), rect(1, 2, 8, 1), rect(2, 3, 6, 1)]);
}

#[test]
fn window_region_without_radius() {
    assert_eq!(rounded_window_region(10, 4, 0), vec![rect(0, 0, 10, 4)]);
    assert_eq!(rounded_window_region(1, 4, 16), vec![rect(0, 0, 1, 4)]);
}

#[test]
fn window_region_rows_centred() {
    let region = rounded_window_region(120, 80, WINDOW_RADIUS);
    assert_eq!(region.len(), 80);
    for (i, r) in region.iter().enumerate() {
        assert_eq!(r.y, i as i32);
        assert_eq!(r.height, 1);
        assert_eq!(r.x + r.width + r.x, 120);
    }
}

#[test]
fn sidebar_region_rows() {
    let mut region = vec![rect(0, 0, 1, 1)];
    add_sidebar_region(&mut region, 268, 3);
    assert_eq!(region, vec![rect(0, 0, 1, 1), rect(16, 0, 252, 1), rect(11, 1, 257, 1), rect(9, 2, 259, 1)]);
}

#[test]
fn sidebar_region_empty_window() {
    let mut region = Vec::new();
    add_sidebar_region(&mut region, 0, 30);
    add_sidebar_region(&mut region, 268, 0);
    assert!(region.is_empty());
}

#[test]
fn sidebar_region_skips_rows_without_pixels() {
    let mut region = Vec::new();
    add_sidebar_region(&mut region, 10, 40);
    assert!(region.iter().all(|r| r.width > 0 && r.x + r.width == 10));
    assert_eq!(region.first(), Some(&rect(9, 2, 1, 1)));
}
