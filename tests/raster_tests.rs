use terminal_renderer::{
    barycentric_weights, udimensions, uvec2, AaLineDrawer, BarycentricTriangleDrawer, LinePlot,
    RenderBuffer, UglyTriangleDrawer, FAR_DEPTH,
};

#[test]
fn barycentric_weights_are_exact() {
    let w = barycentric_weights((0, 0), (4, 0), (0, 4), (1, 1));
    assert_eq!((w.n0, w.n1, w.n2, w.denom), (8, 4, 4, 16));
    assert_eq!(w.n0 + w.n1 + w.n2, w.denom);
    assert!(w.is_inside());
    let outside = barycentric_weights((0, 0), (4, 0), (0, 4), (5, 5));
    assert_eq!((outside.n0, outside.n1, outside.n2), (-24, 20, 20));
    assert!(!outside.is_inside());
    let on_edge = barycentric_weights((0, 0), (4, 0), (0, 4), (2, 2));
    assert!(on_edge.is_inside());
    let flat = barycentric_weights((0, 0), (1, 1), (2, 2), (1, 1));
    assert_eq!(flat.denom, 0);
    assert!(!flat.is_inside());
}

#[test]
fn bounding_box_drawer_covers_the_closed_triangle() {
    let drawer = BarycentricTriangleDrawer::new(udimensions(8, 8));
    let fragments = drawer.draw((uvec2(0, 0), uvec2(4, 0), uvec2(0, 4)));
    assert_eq!(fragments.len(), 15);
    for f in &fragments {
        assert!(f.pixel.x + f.pixel.y <= 4);
        assert!(f.weights.is_inside());
    }
    assert_eq!(fragments[0].pixel, uvec2(0, 0));
    assert_eq!(fragments[14].pixel, uvec2(0, 4));
}

#[test]
fn bounding_box_drawer_skips_flat_triangles() {
    let drawer = BarycentricTriangleDrawer::new(udimensions(8, 8));
    assert!(drawer.draw((uvec2(0, 0), uvec2(2, 2), uvec2(4, 4))).is_empty());
}

#[test]
fn scanline_drawer_fills_rows_between_edges() {
    let drawer = UglyTriangleDrawer::new(udimensions(8, 8));
    let fragments = drawer.draw(((0, 0), (4, 0), (0, 4)));
    let pixels: Vec<(u32, u32)> = fragments.iter().map(|f| (f.pixel.x, f.pixel.y)).collect();
    let expected: Vec<(u32, u32)> = vec![
        (0, 0), (1, 0), (2, 0), (3, 0), (4, 0),
        (0, 1), (1, 1), (2, 1), (3, 1),
        (0, 2), (1, 2), (2, 2),
        (0, 3), (1, 3),
        (0, 4),
    ];
    assert_eq!(pixels, expected);
    let w = fragments[4].weights;
    assert_eq!((w.n0, w.n1, w.n2, w.denom), (0, 16, 0, 16));
}

#[test]
fn scanline_drawer_skips_degenerate_triangles() {
    let drawer = UglyTriangleDrawer::new(udimensions(8, 8));
    assert!(drawer.draw(((0, 3), (2, 3), (7, 3))).is_empty());
    assert!(drawer.draw(((1, 0), (1, 2), (1, 7))).is_empty());
}

#[test]
fn both_drawers_cover_the_same_pixels() {
    for corners in [((1, 1), (9, 3), (3, 8)), ((7, 0), (0, 2), (5, 9)), ((2, 2), (2, 9), (8, 5))] {
        let scan = UglyTriangleDrawer::new(udimensions(16, 16)).draw(corners);
        let (a, b, c) = corners;
        let boxed = BarycentricTriangleDrawer::new(udimensions(16, 16)).draw((
            uvec2(a.0 as u32, a.1 as u32),
            uvec2(b.0 as u32, b.1 as u32),
            uvec2(c.0 as u32, c.1 as u32),
        ));
        assert!(!scan.is_empty());
        assert_eq!(scan, boxed);
    }
}

#[test]
fn scanline_drawing_writes_exactly_the_triangle() {
    let (w, h) = (6usize, 5usize);
    let mut buffer = RenderBuffer::new(udimensions(w, h), 0u8).unwrap();
    let fragments = UglyTriangleDrawer::new(udimensions(w, h)).draw(((1, 0), (5, 2), (0, 4)));
    for f in &fragments {
        assert_eq!(buffer.set_pixel_color(f.pixel, 1, 100), Some(true));
    }
    for y in 0..h as u32 {
        for x in 0..w as u32 {
            let inside = barycentric_weights((1, 0), (5, 2), (0, 4), (x as i64, y as i64)).is_inside();
            let expected = if inside { (1, 100) } else { (0, FAR_DEPTH) };
            assert_eq!((buffer.pixel_color(uvec2(x, y)), buffer.pixel_depth(uvec2(x, y))), (Some(expected.0), Some(expected.1)));
        }
    }
}

#[test]
fn drawing_a_triangle_writes_exactly_its_pixels() {
    let (w, h) = (6usize, 5usize);
    let mut buffer = RenderBuffer::new(udimensions(w, h), 0u8).unwrap();
    let corners = (uvec2(1, 0), uvec2(5, 2), uvec2(0, 4));
    let fragments = BarycentricTriangleDrawer::new(udimensions(w, h)).draw(corners);
    for f in &fragments {
        assert_eq!(buffer.set_pixel_color(f.pixel, 1, 100), Some(true));
    }
    for y in 0..h as u32 {
        for x in 0..w as u32 {
            let p = uvec2(x, y);
            let inside = barycentric_weights((1, 0), (5, 2), (0, 4), (x as i64, y as i64)).is_inside();
            if inside {
                assert_eq!(buffer.pixel_color(p), Some(1));
                assert_eq!(buffer.pixel_depth(p), Some(100));
            } else {
                assert_eq!(buffer.pixel_color(p), Some(0));
                assert_eq!(buffer.pixel_depth(p), Some(FAR_DEPTH));
            }
        }
    }
}

#[test]
fn anti_aliased_line_coverage() {
    let drawer = AaLineDrawer::new(udimensions(8, 8));
    let plots = drawer.draw((0, 0), (4, 2));
    let lp = |x: i64, y: i64, coverage: i128| LinePlot { pixel: (x, y), coverage, scale: 8 };
    assert_eq!(
        plots,
        vec![
            lp(0, 0, 4), lp(0, 1, 0), lp(4, 2, 4), lp(4, 3, 0),
            lp(1, 0, 4), lp(1, 1, 4),
            lp(2, 1, 8), lp(2, 2, 0),
            lp(3, 1, 4), lp(3, 2, 4),
        ]
    );
}

#[test]
fn steep_lines_are_transposed() {
    let drawer = AaLineDrawer::new(udimensions(8, 8));
    let plots = drawer.draw((1, 4), (0, 0));
    assert_eq!(plots.len(), 10);
    assert_eq!(plots[0].pixel, (0, 0));
    assert_eq!(plots[1].pixel, (1, 0));
    assert_eq!(plots[2].pixel, (1, 4));
    assert_eq!(plots[0].scale, 8);
    assert_eq!(plots[4].pixel, (0, 1));
    assert_eq!(plots[4].coverage, 6);
}

#[test]
fn single_point_lines_plot_the_endpoints() {
    let drawer = AaLineDrawer::new(udimensions(8, 8));
    let plots = drawer.draw((3, 3), (3, 3));
    assert_eq!(plots.len(), 4);
    assert_eq!(plots[0], LinePlot { pixel: (3, 3), coverage: 1, scale: 2 });
}
