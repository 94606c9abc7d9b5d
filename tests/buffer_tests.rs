use terminal_renderer::{udimensions, uvec2, Region, RenderBuffer, FAR_DEPTH};

#[test]
fn region_includes_point() {
    let region = Region::new(uvec2(3, 2), udimensions(6, 5));

    assert!(!region.includes_point(uvec2(1, 1)));
    assert!(region.includes_point(uvec2(5, 3)));
    assert!(!region.includes_point(uvec2(11, 3)));
    assert!(!region.includes_point(uvec2(5, 10)));
}

#[test]
fn render_buffer_indices() {
    let buffer = RenderBuffer::new(udimensions(10, 5), 0u8).unwrap();

    let coords = uvec2(6, 2);

    assert_eq!(buffer.coords_index(coords), 26);
}

#[test]
fn index_coords_inverts_coords_index() {
    let buffer = RenderBuffer::new(udimensions(10, 5), 0u8).unwrap();
    assert_eq!(buffer.index_coords(26), uvec2(6, 2));
    assert_eq!(buffer.index_coords(0), uvec2(0, 0));
    assert_eq!(buffer.index_coords(49), uvec2(9, 4));
}

#[test]
fn zero_sized_buffers_are_refused() {
    assert!(RenderBuffer::new(udimensions(0, 5), 0u8).is_none());
    assert!(RenderBuffer::new(udimensions(5, 0), 0u8).is_none());
    assert!(RenderBuffer::new(udimensions(1, 1), 0u8).is_some());
}

#[test]
fn new_buffer_is_cleared() {
    let buffer = RenderBuffer::new(udimensions(3, 2), 7u8).unwrap();
    assert_eq!(buffer.colors().len(), 6);
    assert!(buffer.colors().iter().all(|c| *c == 7));
    assert!(buffer.depths().iter().all(|d| *d == FAR_DEPTH));
    assert_eq!(buffer.width(), 3);
    assert_eq!(buffer.height(), 2);
    assert_eq!(buffer.size(), udimensions(3, 2));
}

#[test]
fn depth_test_rejects_farther_and_keeps_ties_for_newest() {
    let mut buffer = RenderBuffer::new(udimensions(2, 2), 0u8).unwrap();
    let p = uvec2(1, 0);
    assert_eq!(buffer.set_pixel_color(p, 1, 10), Some(true));
    assert_eq!(buffer.set_pixel_color(p, 2, 20), Some(false));
    assert_eq!(buffer.pixel_color(p), Some(1));
    assert_eq!(buffer.pixel_depth(p), Some(10));
    assert_eq!(buffer.set_pixel_color(p, 3, 10), Some(true));
    assert_eq!(buffer.pixel_color(p), Some(3));
    assert_eq!(buffer.set_pixel_color(p, 4, 5), Some(true));
    assert_eq!(buffer.pixel_color(p), Some(4));
    assert_eq!(buffer.pixel_depth(p), Some(5));
    assert_eq!(buffer.pixel_color(uvec2(0, 0)), Some(0));
}

#[test]
fn out_of_bounds_pixels_are_not_found() {
    let mut buffer = RenderBuffer::new(udimensions(2, 2), 0u8).unwrap();
    assert_eq!(buffer.set_pixel_color(uvec2(2, 0), 1, 0), None);
    assert_eq!(buffer.overwrite_pixel_color(uvec2(0, 2), 1, 0), None);
    assert_eq!(buffer.pixel_color(uvec2(5, 5)), None);
    assert_eq!(buffer.pixel_depth(uvec2(0, 9)), None);
    assert!(!buffer.coords_exists(uvec2(2, 1)));
    assert!(buffer.coords_exists(uvec2(1, 1)));
}

#[test]
fn nearest_write_wins_over_a_sequence() {
    let mut buffer = RenderBuffer::new(udimensions(1, 1), 0u8).unwrap();
    let p = uvec2(0, 0);
    let writes = [(1u8, 50u32), (2, 30), (3, 40), (4, 30), (5, 90)];
    for (color, depth) in writes {
        buffer.set_pixel_color(p, color, depth);
    }
    assert_eq!(buffer.pixel_depth(p), Some(30));
    assert_eq!(buffer.pixel_color(p), Some(4));
}

#[test]
fn overwrite_ignores_depth_and_clear_resets() {
    let mut buffer = RenderBuffer::new(udimensions(2, 1), 9u8).unwrap();
    buffer.set_pixel_color(uvec2(0, 0), 1, 3);
    assert_eq!(buffer.overwrite_pixel_color(uvec2(0, 0), 2, 100), Some(()));
    assert_eq!(buffer.pixel_color(uvec2(0, 0)), Some(2));
    assert_eq!(buffer.pixel_depth(uvec2(0, 0)), Some(100));
    buffer.clear();
    assert_eq!(buffer.pixel_color(uvec2(0, 0)), Some(9));
    assert_eq!(buffer.pixel_depth(uvec2(0, 0)), Some(FAR_DEPTH));
}

#[test]
fn region_triangle_outside() {
    let region = Region::new(uvec2(0, 0), udimensions(4, 4));
    assert!(!region.triangle_outside((uvec2(1, 1), uvec2(2, 1), uvec2(1, 2))));
    assert!(region.triangle_outside((uvec2(10, 10), uvec2(12, 10), uvec2(10, 12))));
    assert!(region.triangle_outside((uvec2(5, 0), uvec2(20, 0), uvec2(5, 20))));
    // These edges reach the region's far border, which holds none of its pixels.
    assert!(region.triangle_outside((uvec2(6, 1), uvec2(1, 6), uvec2(10, 10))));
    assert!(region.triangle_outside((uvec2(2, 6), uvec2(6, 2), uvec2(10, 10))));
    assert!(!region.triangle_outside((uvec2(5, 1), uvec2(1, 5), uvec2(10, 10))));
    assert!(!region.triangle_outside((uvec2(0, 9), uvec2(9, 0), uvec2(0, 0))));
}

#[test]
fn a_triangle_around_the_region_is_not_outside() {
    let region = Region::new(uvec2(10, 10), udimensions(1, 1));
    assert!(!region.triangle_outside((uvec2(0, 0), uvec2(100, 0), uvec2(0, 100))));
    let band = Region::new(uvec2(0, 4), udimensions(8, 2));
    assert!(!band.triangle_outside((uvec2(0, 0), uvec2(40, 0), uvec2(0, 40))));
    assert!(band.triangle_outside((uvec2(0, 0), uvec2(3, 0), uvec2(0, 3))));
}

#[test]
fn a_flat_triangle_with_a_corner_in_the_region_is_not_outside() {
    let region = Region::new(uvec2(0, 0), udimensions(4, 4));
    let a = uvec2(1, 1);
    assert!(region.includes_point(a));
    assert!(!region.triangle_outside((a, a, a)));
    assert!(!region.triangle_outside((uvec2(9, 9), uvec2(2, 3), uvec2(9, 9))));
}

#[test]
fn region_line_intersects() {
    let region = Region::new(uvec2(2, 2), udimensions(2, 2));
    assert!(region.line_intersects(uvec2(0, 3), uvec2(9, 3)));
    assert!(!region.line_intersects(uvec2(0, 0), uvec2(9, 0)));
    assert!(region.line_intersects(uvec2(3, 3), uvec2(3, 3)));
}

#[test]
fn copy_region_moves_colors_and_depths() {
    let mut from = RenderBuffer::new(udimensions(4, 4), 0u8).unwrap();
    from.set_pixel_color(uvec2(1, 1), 5, 7);
    from.set_pixel_color(uvec2(2, 1), 6, 8);
    let mut to = RenderBuffer::new(udimensions(3, 3), 9u8).unwrap();
    to.copy_region_from_other(&from, Region::new(uvec2(1, 1), udimensions(3, 3)), uvec2(1, 0));
    assert_eq!(to.pixel_color(uvec2(1, 0)), Some(5));
    assert_eq!(to.pixel_depth(uvec2(1, 0)), Some(7));
    assert_eq!(to.pixel_color(uvec2(2, 0)), Some(6));
    assert_eq!(to.pixel_color(uvec2(1, 1)), Some(0));
    assert_eq!(to.pixel_depth(uvec2(1, 1)), Some(FAR_DEPTH));
    assert_eq!(to.pixel_color(uvec2(0, 0)), Some(9));
    assert_eq!(to.pixel_color(uvec2(0, 2)), Some(9));
}
