use spaceship_menu::gl_buffers::attrib_offsets;

#[test]
fn glyph_vertex_attribute_offsets() {
    assert_eq!(attrib_offsets(&vec![3, 2, 2, 2, 4]), vec![0, 12, 20, 28, 36]);
}

#[test]
fn frame_quad_attribute_offsets() {
    assert_eq!(attrib_offsets(&vec![2, 2]), vec![0, 8]);
}

#[test]
fn no_attributes() {
    assert_eq!(attrib_offsets(&Vec::new()), Vec::<i32>::new());
}
