use terminal_renderer::linear_ui::{Buffer, Frame};
use terminal_renderer::{
    byte_rgb, ivec2, uvec2, Index, IVec2, Mesh, MeshError, RefEdge, RefTriangle, Scene,
    ShaderProgram, UVec2,
};

#[test]
fn unsigned_vectors() {
    assert_eq!(uvec2(3, 4).magnitude(), 5);
    assert_eq!(uvec2(5, 5).magnitude(), 7);
    assert_eq!(UVec2::new(10, 0).normalize(), uvec2(1, 0));
    assert_eq!(uvec2(30, 40).normalize(), uvec2(0, 0));
    assert_eq!(uvec2(1, 2).dot_product(uvec2(3, 4)), 11);
    assert_eq!(uvec2(2, 3).scale_vec(uvec2(4, 5)), uvec2(8, 15));
    assert_eq!(uvec2(1, 2).swap(), uvec2(2, 1));
}

#[test]
fn signed_vectors() {
    assert_eq!(ivec2(-6, 8).magnitude(), 10);
    assert_eq!(IVec2::new(-7, 0).normalize(), ivec2(-1, 0));
    assert_eq!(ivec2(-20, 3).normalize(), ivec2(-1, 0));
    assert_eq!(ivec2(-1, 2).dot_product(ivec2(3, 4)), 5);
    assert_eq!(ivec2(-2, 3).scale_vec(ivec2(4, -5)), ivec2(-8, -15));
    assert_eq!(ivec2(-1, 2).swap(), ivec2(2, -1));
}

#[test]
fn text_buffer() {
    let mut b = Buffer::new();
    b.push("ab");
    b.pushln("c");
    b.push_char('d');
    let mut other = Buffer::from_string(String::from("\ne"));
    other.push("");
    b.push_buffer(other);
    assert_eq!(b.as_str(), "abc\r\nd\ne");
    assert_eq!(b.line_count(), 2);
    assert_eq!(Buffer::new().line_count(), 0);
}

#[test]
fn frame_keeps_its_parts() {
    let _frame = Frame::new("-", "=", "|", "!", ('a', 'b', 'c', 'd'));
}

#[test]
fn byte_colors() {
    let c = byte_rgb(1, 2, 3);
    assert_eq!(c.to_rgb_slice(), [1, 2, 3]);
    assert_eq!(c.to_rgba_slice(9), [1, 2, 3, 9]);
}

#[test]
fn typed_indices() {
    let items = [1u8, 2, 3];
    assert_eq!(Index::<u8>::new(2).get_with(&items), Some(&3));
    assert_eq!(Index::<u8>::new(3).get_with(&items), None);
    assert_eq!(Index::<u8>::new(1).get(), 1);
}

#[test]
fn scene_handles_find_their_objects() {
    let mut scene: Scene<&str, u8, i32> = Scene::new(-1);
    assert!(scene.get_camera().is_none());
    let a = scene.add_object("cube");
    let b = scene.add_object("plane");
    assert_eq!(scene.get_object(a), Some(&"cube"));
    assert_eq!(scene.get_object(b), Some(&"plane"));
    assert_eq!(scene.object_count(), 2);
    let refs = scene.object_refs();
    assert_eq!(refs, vec![a, b]);
    scene.add_camera(3);
    assert_eq!(scene.get_camera(), Some(&3));
    assert_eq!(*scene.light_direction(), -1);
    scene.set_light_direction(4);
    assert_eq!(*scene.light_direction(), 4);

    let empty: Scene<&str, u8, i32> = Scene::new(0);
    assert_eq!(empty.get_object(a), None);
}

#[test]
fn mesh_edges_are_unique_and_sorted() {
    let mesh = Mesh::new(
        vec![(); 4],
        vec![RefTriangle::new((0, 1, 2)), RefTriangle::new((2, 3, 0))],
        vec![((), (), ()); 2],
        Some(vec![((), (), ()); 2]),
        (),
    )
    .unwrap();
    assert_eq!(
        mesh.edges(),
        &vec![RefEdge(0, 1), RefEdge(0, 2), RefEdge(0, 3), RefEdge(1, 2), RefEdge(2, 3)]
    );
    assert_eq!(mesh.triangle_count(), 2);
    assert_eq!(mesh.vertex_count(), 4);
}

#[test]
fn mesh_lookups_follow_the_indices() {
    let mesh = Mesh::new(
        vec![10u8, 11, 12, 13],
        vec![RefTriangle::new((3, 1, 2))],
        vec![('a', 'b', 'c')],
        Some(vec![(1u8, 2u8, 3u8)]),
        0u8,
    )
    .unwrap();
    assert_eq!(mesh.triangle(0), ((13, 11, 12), ('a', 'b', 'c'), (1, 2, 3)));
    assert_eq!(mesh.edge(0), (11, 12));
    assert_eq!(mesh.edge(2), (12, 13));
}

#[test]
fn malformed_meshes_are_refused() {
    let bad = Mesh::new(
        vec![(); 3],
        vec![RefTriangle::new((0, 1, 2)), RefTriangle::new((0, 3, 1))],
        vec![((), (), ()); 2],
        Some(vec![((), (), ()); 2]),
        (),
    );
    assert_eq!(bad.err(), Some(MeshError::VertexIndexOutOfRange(1)));
    let no_normals = Mesh::<(), (), ()>::new(
        vec![(); 3],
        vec![RefTriangle::new((0, 1, 2))],
        vec![],
        Some(vec![((), (), ())]),
        (),
    );
    assert_eq!(no_normals.err(), Some(MeshError::NormalCountMismatch));
    let no_colors = Mesh::<(), (), ()>::new(
        vec![(); 3],
        vec![RefTriangle::new((0, 1, 2))],
        vec![((), (), ())],
        Some(vec![]),
        (),
    );
    assert_eq!(no_colors.err(), Some(MeshError::ColorCountMismatch));
}

#[test]
fn missing_colors_take_the_default() {
    let mesh = Mesh::new(
        vec![0u8; 3],
        vec![RefTriangle::new((0, 1, 2)), RefTriangle::new((2, 1, 0))],
        vec![((), (), ()); 2],
        None,
        7u8,
    )
    .unwrap();
    assert_eq!(mesh.vertex_colors(), &vec![(7, 7, 7), (7, 7, 7)]);
}

#[test]
fn shader_program_passes_the_uniform() {
    let pixel = |d: i32, u: &i32| d * u;
    let vertex = |d: i32, u: &i32| d + u;
    let program = ShaderProgram::new(3, pixel, vertex);
    assert_eq!(program.shade_pixel(5), 15);
    assert_eq!(program.shade_vertex(5), 8);
    assert_eq!(*program.uniform(), 3);
}
