//! A software 3D rendering core: integer vectors, a depth-tested frame buffer
//! that splits into disjoint bands, triangle and line rasterization in pixel
//! space, meshes, scenes with generational handles, shader programs, and the
//! terminal escape sequences that present a finished frame.

pub mod ansi_term;
pub mod ansi_term_old;
mod buffer;
mod clip;
mod color;
mod index;
pub mod linear_ui;
mod mesh;
mod raster;
mod region;
mod scene;
mod shader;
mod span;
mod vec;

pub use crate::buffer::{
    after_writes, nearest_kept, band_contains, band_rows, copy_source, depth_tested, grid_index, in_grid,
    is_full_split, joined_colors, joined_depths, lemma_depth_test_keeps_nearest, lemma_distinct_writes_land,
    lemma_segments_partition, lemma_split_covers_each_pixel_once, lemma_split_then_join,
    segment_count, segment_heights, split_of, valid_size, writes_to, RenderBuffer,
    RenderBufferSegment, FAR_DEPTH,
};
pub use crate::clip::{
    clip_to_frame, clipped, crossing, frame_crossings, frame_intersection, frame_intersection_of,
    in_frame, intersection_of_point_pairs, FrameIntersection,
    lemma_clip_drops_outer_segments, lemma_clip_keeps_inner_segments, point_inside_frame,
    segment_meets_frame, RatPoint,
};
pub use crate::color::{byte_rgb, ByteRgb};
pub use crate::index::Index;
pub use crate::mesh::{Mesh, MeshError, RefEdge, RefTriangle};
pub use crate::raster::{
    barycentric_weights, inside_triangle, lemma_barycentric_partition, lemma_drawers_agree, point_of, scan_before,
    wu_plots, AaLineDrawer, Barycentric, BarycentricTriangleDrawer, Fragment, LinePlot, Point,
    UglyTriangleDrawer,
};
pub use crate::region::{udimensions, Region, UDimensions};
pub use crate::scene::{ObjectId, Scene};
pub use crate::shader::ShaderProgram;
pub use crate::vec::{ivec2, uvec2, IVec2, UVec2};
