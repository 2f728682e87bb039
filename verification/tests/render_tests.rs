use redox_engine::render::resources::{resize_extent, surface_extent, ResourceTable};
use redox_engine::render::texture::{decode_texture, texture_upload_layout, white_png, TextureError};
use redox_engine::render::topology::{cube_indices, grid_vertex_order, quad_indices, sphere_indices, torus_indices};

#[test]
fn cube_index_counts() {
    let indices = cube_indices();
    assert_eq!(indices.len(), 36, "Cube must have 36 indices (6 per face × 6 faces)");
    assert!(indices.iter().all(|&i| i < 24));
    assert_eq!(&indices[0..6], &[0, 1, 2, 0, 2, 3]);
    assert_eq!(&indices[30..36], &[20, 21, 22, 20, 22, 23]);
}

#[test]
fn sphere_index_counts() {
    let sphere = sphere_indices(16);
    let rings = 16u32 / 2;
    let expected_indices = (16 * rings * 6) as usize;
    assert_eq!(sphere.len(), expected_indices);
    let expected_verts = (16 + 1) * (rings + 1);
    assert!(sphere.iter().all(|&i| i < expected_verts));
    assert_eq!(&sphere[0..6], &[0, 17, 1, 1, 17, 18]);
}

#[test]
fn quad_index_counts() {
    assert_eq!(quad_indices(), vec![0, 1, 2, 0, 2, 3]);
}

#[test]
fn torus_indices_are_in_bounds() {
    let torus = torus_indices(16, 8);
    assert!(!torus.is_empty());
    let max_idx = (16 + 1) * (8 + 1);
    for &idx in &torus {
        assert!(idx < max_idx, "Index {idx} out of bounds (max {max_idx})");
    }
    assert_eq!(torus.len(), 16 * 8 * 6);
}

#[test]
fn empty_grids_have_no_indices() {
    assert!(sphere_indices(0).is_empty());
    assert!(sphere_indices(1).is_empty());
    assert!(torus_indices(0, 5).is_empty());
    assert!(torus_indices(5, 0).is_empty());
}

#[test]
fn resources_get_sequential_indices_and_fallback_texture() {
    let mut table = ResourceTable::new();
    assert_eq!(table.add_mesh(), 0);
    assert_eq!(table.add_mesh(), 1);
    assert!(table.has_mesh(1));
    assert!(!table.has_mesh(2));
    let solid = table.add_material(None);
    let textured = table.add_material(Some(0));
    assert_eq!((solid, textured), (0, 1));
    // No texture stored yet: the fallback is used.
    assert_eq!(table.texture_for(textured), None);
    assert_eq!(table.add_texture(), 0);
    assert_eq!(table.texture_for(textured), Some(0));
    assert_eq!(table.texture_for(solid), None);
    assert_eq!(table.texture_for(7), None);
}

#[test]
fn zero_sized_resize_is_ignored() {
    assert_eq!(resize_extent((800, 600), 0, 300), (800, 600));
    assert_eq!(resize_extent((800, 600), 300, 0), (800, 600));
    assert_eq!(resize_extent((800, 600), 1024, 768), (1024, 768));
}

#[test]
fn white_png_decodes_to_one_white_pixel() {
    let png = match white_png() {
        Ok(png) => png,
        Err(_) => panic!("PNG encode failed"),
    };
    assert_eq!(&png[1..4], b"PNG");
    let image = match decode_texture(&png) {
        Ok(image) => image,
        Err(_) => panic!("decode failed"),
    };
    assert_eq!((image.width, image.height), (1, 1));
    assert_eq!(image.pixels, vec![255, 255, 255, 255]);
}

#[test]
fn decoding_garbage_reports_a_decode_error() {
    let r = decode_texture(&[1, 2, 3, 4, 5]);
    assert!(matches!(r, Err(TextureError::Decode(_))));
}

#[test]
fn upload_rows_have_four_bytes_per_pixel() {
    assert_eq!(texture_upload_layout(3, 5), (12, 5));
    assert_eq!(texture_upload_layout(0, 7), (0, 7));
}

#[test]
fn vertex_order_counts_match_the_meshes() {
    // Cube: six faces of four corners.
    let cube = grid_vertex_order(5, 3);
    assert_eq!(cube.len(), 24, "Cube must have 24 vertices (4 per face × 6 faces)");
    assert_eq!(cube[0], (0, 0));
    assert_eq!(cube[23], (5, 3));
    // Sphere with 16 segments: (16 + 1) × (8 + 1) vertices.
    let rings = 16u32 / 2;
    let sphere = grid_vertex_order(rings, 16);
    assert_eq!(sphere.len(), ((16 + 1) * (rings + 1)) as usize);
    assert_eq!(sphere.len(), 153);
    assert_eq!(sphere[17], (1, 0));
    let max = *sphere_indices(16).iter().max().unwrap() as usize;
    assert!(max < sphere.len());
    // Torus 16 × 8.
    assert_eq!(grid_vertex_order(16, 8).len(), 17 * 9);
    assert_eq!(grid_vertex_order(0, 0), vec![(0, 0)]);
}

#[test]
fn surface_sides_are_at_least_one_pixel() {
    assert_eq!(surface_extent(0, 0), (1, 1));
    assert_eq!(surface_extent(800, 0), (800, 1));
    assert_eq!(surface_extent(640, 480), (640, 480));
}
