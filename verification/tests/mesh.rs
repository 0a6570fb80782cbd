use stu_minecraft::block::BlockType;
use stu_minecraft::chunk::Chunk;
use stu_minecraft::mesh::{build_chunk_mesh, face_ao_levels, vertex_ao_level, water_surface};

#[test]
fn ao_levels() {
    assert_eq!(vertex_ao_level(false, false, false), 0);
    assert_eq!(vertex_ao_level(true, false, false), 1);
    assert_eq!(vertex_ao_level(false, false, true), 1);
    assert_eq!(vertex_ao_level(true, false, true), 2);
    assert_eq!(vertex_ao_level(true, true, false), 3);
    assert_eq!(vertex_ao_level(true, true, true), 3);
}

#[test]
fn empty_chunk_has_empty_mesh() {
    let m = build_chunk_mesh(&Chunk::new());
    assert!(m.vertices.is_empty());
    assert!(m.indices.is_empty());
}

#[test]
fn lone_block_shows_six_faces() {
    let mut c = Chunk::new();
    c.set(5, 10, 7, BlockType::Stone);
    let m = build_chunk_mesh(&c);
    assert_eq!(m.vertices.len(), 24);
    assert_eq!(m.indices.len(), 36);
    // Faces come in the order +Y, -Y, +X, -X, +Z, -Z.
    let normals: Vec<(i32, i32, i32)> = (0..6).map(|f| m.vertices[4 * f].normal).collect();
    assert_eq!(normals, vec![(0, 1, 0), (0, -1, 0), (1, 0, 0), (-1, 0, 0), (0, 0, 1), (0, 0, -1)]);
    // The top face's corners, counter-clockwise from outside.
    let top: Vec<(u32, u32, u32)> = (0..4).map(|v| m.vertices[v].position).collect();
    assert_eq!(top, vec![(5, 11, 8), (6, 11, 8), (6, 11, 7), (5, 11, 7)]);
    let uvs: Vec<(u32, u32)> = (0..4).map(|v| m.vertices[v].uv).collect();
    assert_eq!(uvs, vec![(0, 1), (1, 1), (1, 1), (0, 1)]);
    for v in &m.vertices {
        assert_eq!(v.block, BlockType::Stone);
        assert_eq!(v.ao_level, 0);
    }
    assert_eq!(&m.indices[0..6], &[0, 1, 2, 0, 2, 3]);
    assert_eq!(&m.indices[6..12], &[4, 5, 6, 4, 6, 7]);
    for i in &m.indices {
        assert!((*i as usize) < m.vertices.len());
    }
}

#[test]
fn touching_blocks_hide_shared_faces() {
    let mut c = Chunk::new();
    c.set(5, 10, 7, BlockType::Stone);
    c.set(6, 10, 7, BlockType::Dirt);
    let m = build_chunk_mesh(&c);
    assert_eq!(m.vertices.len(), 40);
    assert_eq!(m.indices.len(), 60);
}

#[test]
fn chunk_border_faces_are_drawn() {
    let mut c = Chunk::new();
    c.set(0, 0, 0, BlockType::Grass);
    let m = build_chunk_mesh(&c);
    assert_eq!(m.vertices.len(), 24);
}

#[test]
fn air_and_water_are_not_drawn() {
    let mut c = Chunk::new();
    c.set(3, 3, 3, BlockType::Water);
    let m = build_chunk_mesh(&c);
    assert!(m.vertices.is_empty());
}

#[test]
fn leaves_hide_each_other_but_not_stone() {
    let mut c = Chunk::new();
    c.set(5, 10, 7, BlockType::Leaves);
    c.set(6, 10, 7, BlockType::Leaves);
    let m = build_chunk_mesh(&c);
    assert_eq!(m.vertices.len(), 40);
    let mut c = Chunk::new();
    c.set(5, 10, 7, BlockType::Leaves);
    c.set(6, 10, 7, BlockType::Stone);
    let m = build_chunk_mesh(&c);
    // The leaves lose their +X face; the stone keeps its -X face.
    assert_eq!(m.vertices.len(), 44);
    let leaves_faces = m.vertices.iter().filter(|v| v.block == BlockType::Leaves).count() / 4;
    assert_eq!(leaves_faces, 5);
}

#[test]
fn occlusion_and_diagonal_flip() {
    let mut c = Chunk::new();
    c.set(5, 10, 5, BlockType::Stone);
    // An opaque block beside the top face on its -x side touches corners 0
    // and 3, at x = 5.
    c.set(4, 11, 5, BlockType::Stone);
    let levels = face_ao_levels(&c, 5, 10, 5, 0);
    assert_eq!(levels, (1, 0, 0, 1));
    let mut c = Chunk::new();
    c.set(5, 10, 5, BlockType::Stone);
    // An opaque block diagonally above corner 0 of the top face, which sits
    // at (5, 11, 6): on the -x, +z side.
    c.set(4, 11, 6, BlockType::Stone);
    let levels = face_ao_levels(&c, 5, 10, 5, 0);
    assert_eq!(levels, (1, 0, 0, 0));
    let m = build_chunk_mesh(&c);
    // The top face of the lower block is the first face; its corner 0 is
    // occluded, so its quad is split along corners 1 and 3.
    assert_eq!(m.vertices[0].ao_level, 1);
    assert_eq!(&m.indices[0..6], &[0, 1, 3, 1, 2, 3]);
}

#[test]
fn two_opaque_sides_make_full_occlusion() {
    let mut c = Chunk::new();
    c.set(5, 10, 5, BlockType::Stone);
    c.set(4, 11, 5, BlockType::Stone);
    c.set(5, 11, 6, BlockType::Stone);
    let levels = face_ao_levels(&c, 5, 10, 5, 0);
    // Corner 0 of the top face, at (5, 11, 6), touches both.
    assert_eq!(levels, (3, 1, 0, 1));
}

#[test]
fn occlusion_lands_on_the_corners_that_touch_the_block() {
    let mut c = Chunk::new();
    c.set(1, 0, 1, BlockType::Stone);
    c.set(1, 1, 0, BlockType::Stone);
    let m = build_chunk_mesh(&c);
    // The first quad is the top face of (1, 0, 1).
    let positions: Vec<(u32, u32, u32)> = m.vertices[0..4].iter().map(|v| v.position).collect();
    assert_eq!(positions, vec![(1, 1, 2), (2, 1, 2), (2, 1, 1), (1, 1, 1)]);
    // The block at (1, 1, 0) touches the corners at z = 1 only.
    let levels: Vec<u8> = m.vertices[0..4].iter().map(|v| v.ao_level).collect();
    assert_eq!(levels, vec![0, 0, 1, 1]);
}

#[test]
fn occlusion_follows_each_face_corner() {
    // One neighbour per face, placed on the high side of the first tangent
    // axis, occludes exactly the corners on that side.
    let mut c = Chunk::new();
    c.set(5, 10, 5, BlockType::Stone);
    // +X face: layer x = 6, first tangent y; corners 2 and 3 are at y = 11.
    c.set(6, 11, 5, BlockType::Stone);
    assert_eq!(face_ao_levels(&c, 5, 10, 5, 2), (0, 0, 1, 1));
    // -Z face: layer z = 4, first tangent x; corners 0 and 3 are at x = 6.
    let mut c = Chunk::new();
    c.set(5, 10, 5, BlockType::Stone);
    c.set(6, 10, 4, BlockType::Stone);
    assert_eq!(face_ao_levels(&c, 5, 10, 5, 5), (1, 0, 0, 1));
    // -X face: layer x = 4; corners 1 and 2 are at z = 6.
    let mut c = Chunk::new();
    c.set(5, 10, 5, BlockType::Stone);
    c.set(4, 10, 6, BlockType::Stone);
    assert_eq!(face_ao_levels(&c, 5, 10, 5, 3), (0, 1, 1, 0));
}

#[test]
fn water_surface_cells() {
    let mut c = Chunk::new();
    c.set(2, 40, 3, BlockType::Water);
    c.set(2, 41, 3, BlockType::Water);
    c.set(4, 127, 4, BlockType::Water);
    c.set(6, 50, 6, BlockType::Water);
    c.set(6, 51, 6, BlockType::Stone);
    let w = water_surface(&c);
    assert_eq!(w.cells, vec![(2, 41, 3), (4, 127, 4)]);
    assert_eq!(w.indices, vec![0, 1, 2, 0, 2, 3, 4, 5, 6, 4, 6, 7]);
    let empty = water_surface(&Chunk::new());
    assert!(empty.cells.is_empty() && empty.indices.is_empty());
}
