use terminal_renderer::{udimensions, uvec2, RenderBuffer, FAR_DEPTH};

#[test]
fn segments_split_rows_in_bands() {
    let buffer = RenderBuffer::new(udimensions(3, 5), 0u8).unwrap();
    let segments = buffer.separate_into_segments(2);
    assert_eq!(segments.len(), 3);
    assert_eq!(segments[0].position(), uvec2(0, 0));
    assert_eq!(segments[1].position(), uvec2(0, 2));
    assert_eq!(segments[2].position(), uvec2(0, 4));
    assert_eq!(segments[0].size(), udimensions(3, 2));
    assert_eq!(segments[2].size(), udimensions(3, 1));
    assert_eq!(segments[1].parent_size(), udimensions(3, 5));
    assert_eq!(segments[2].colors().len(), 3);
}

#[test]
fn every_pixel_lies_in_exactly_one_segment() {
    let buffer = RenderBuffer::new(udimensions(4, 7), 0u8).unwrap();
    let segments = buffer.separate_into_segments(3);
    for y in 0..8u32 {
        for x in 0..5u32 {
            let holders = segments
                .iter()
                .filter(|s| s.coords_inside(uvec2(x, y)))
                .count();
            let inside = x < 4 && y < 7;
            assert_eq!(holders, if inside { 1 } else { 0 }, "pixel ({x}, {y})");
        }
    }
}

#[test]
fn segment_writes_stitch_back_into_the_buffer() {
    let mut buffer = RenderBuffer::new(udimensions(3, 5), 0u8).unwrap();
    buffer.set_pixel_color(uvec2(0, 0), 5, 1);
    let mut segments = buffer.separate_into_segments(2);
    assert_eq!(segments[1].set_pixel(uvec2(1, 3), 7, 10), Some(true));
    assert_eq!(segments[1].set_pixel(uvec2(1, 3), 8, 11), Some(false));
    assert_eq!(segments[0].set_pixel(uvec2(1, 3), 7, 10), None);
    assert_eq!(segments[2].overwrite_pixel(uvec2(2, 4), 6, 3), Some(()));
    assert_eq!(segments[1].pixel_color(uvec2(1, 3)), Some(7));
    assert_eq!(segments[1].pixel_depth(uvec2(1, 3)), Some(10));
    let joined = RenderBuffer::from_segments(segments).unwrap();
    assert_eq!(joined.size(), udimensions(3, 5));
    assert_eq!(joined.pixel_color(uvec2(1, 3)), Some(7));
    assert_eq!(joined.pixel_color(uvec2(2, 4)), Some(6));
    assert_eq!(joined.pixel_color(uvec2(0, 0)), Some(5));
    assert_eq!(joined.pixel_depth(uvec2(0, 1)), Some(FAR_DEPTH));
}

#[test]
fn incomplete_splits_do_not_stitch() {
    let buffer = RenderBuffer::new(udimensions(3, 5), 0u8).unwrap();
    let mut segments = buffer.separate_into_segments(2);
    segments.pop();
    assert!(RenderBuffer::from_segments(segments).is_none());
    assert!(RenderBuffer::<u8>::from_segments(Vec::new()).is_none());
}

#[test]
fn segment_clear_and_region() {
    let buffer = RenderBuffer::new(udimensions(2, 4), 1u8).unwrap();
    let mut segments = buffer.separate_into_segments(4);
    assert_eq!(segments.len(), 1);
    segments[0].overwrite_pixel(uvec2(1, 1), 9, 0);
    segments[0].clear();
    assert_eq!(segments[0].pixel_color(uvec2(1, 1)), Some(1));
    assert_eq!(segments[0].pixel_depth(uvec2(1, 1)), Some(FAR_DEPTH));
    let region = segments[0].region();
    assert!(region.includes_point(uvec2(1, 3)));
    assert!(!region.includes_point(uvec2(2, 0)));
    assert_eq!(segments[0].depths().len(), 8);
}

#[test]
fn batched_writes_follow_the_depth_test() {
    let buffer = RenderBuffer::new(udimensions(2, 4), 0u8).unwrap();
    let mut segments = buffer.separate_into_segments(2);
    let writes = [
        (uvec2(0, 2), 1u8, 40u32),
        (uvec2(0, 2), 2, 30),
        (uvec2(1, 3), 3, 5),
        (uvec2(0, 0), 9, 1),
        (uvec2(0, 2), 4, 35),
        (uvec2(0, 2), 5, 30),
    ];
    segments[1].set_pixels(&writes);
    assert_eq!(segments[1].pixel_color(uvec2(0, 2)), Some(5));
    assert_eq!(segments[1].pixel_depth(uvec2(0, 2)), Some(30));
    assert_eq!(segments[1].pixel_color(uvec2(1, 3)), Some(3));
    assert_eq!(segments[1].pixel_color(uvec2(1, 2)), Some(0));
    assert_eq!(segments[0].pixel_color(uvec2(0, 0)), Some(0));
}
