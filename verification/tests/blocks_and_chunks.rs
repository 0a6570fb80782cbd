use stu_minecraft::block::{BlockType, HOTBAR_TYPES};
use stu_minecraft::chunk::{
    locate, sorted_distinct_coords, Chunk, ChunkCoord, LocalPos, CHUNK_HEIGHT, CHUNK_SIZE, CHUNK_VOLUME,
};

const ALL: [BlockType; 8] = [
    BlockType::Air,
    BlockType::Grass,
    BlockType::Dirt,
    BlockType::Stone,
    BlockType::Sand,
    BlockType::Wood,
    BlockType::Leaves,
    BlockType::Water,
];

#[test]
fn solid_and_opaque_blocks() {
    for b in ALL {
        let solid = !matches!(b, BlockType::Air | BlockType::Water);
        let opaque = !matches!(b, BlockType::Air | BlockType::Water | BlockType::Leaves);
        assert_eq!(b.is_solid(), solid, "{:?}", b);
        assert_eq!(b.is_opaque(), opaque, "{:?}", b);
    }
}

#[test]
fn from_u8_reads_discriminants() {
    for (i, b) in ALL.iter().enumerate() {
        assert_eq!(BlockType::from_u8(i as u8), *b);
    }
    assert_eq!(BlockType::from_u8(8), BlockType::Air);
    assert_eq!(BlockType::from_u8(255), BlockType::Air);
}

#[test]
fn default_block_is_air() {
    assert_eq!(BlockType::default(), BlockType::Air);
}

#[test]
fn hotbar_order() {
    assert_eq!(HOTBAR_TYPES[0], BlockType::Grass);
    assert_eq!(HOTBAR_TYPES[2], BlockType::Stone);
    assert_eq!(HOTBAR_TYPES[6], BlockType::Water);
    assert_eq!(HOTBAR_TYPES[7], BlockType::Stone);
}

#[test]
fn chunk_dimensions() {
    assert_eq!(CHUNK_SIZE, 16);
    assert_eq!(CHUNK_HEIGHT, 128);
    assert_eq!(CHUNK_VOLUME, CHUNK_SIZE * CHUNK_HEIGHT * CHUNK_SIZE);
}

#[test]
fn new_chunk_is_air() {
    let c = Chunk::new();
    assert_eq!(c.get(0, 0, 0), BlockType::Air);
    assert_eq!(c.get(15, 127, 15), BlockType::Air);
    let d = Chunk::default();
    assert_eq!(d.get(7, 64, 3), BlockType::Air);
}

#[test]
fn idx_layout() {
    assert_eq!(Chunk::idx(0, 0, 0), 0);
    assert_eq!(Chunk::idx(1, 0, 0), 1);
    assert_eq!(Chunk::idx(0, 0, 1), 16);
    assert_eq!(Chunk::idx(0, 1, 0), 256);
    assert_eq!(Chunk::idx(15, 127, 15), CHUNK_VOLUME - 1);
}

#[test]
fn set_then_get() {
    let mut c = Chunk::new();
    c.set(3, 70, 9, BlockType::Stone);
    assert_eq!(c.get(3, 70, 9), BlockType::Stone);
    assert_eq!(c.get(9, 70, 3), BlockType::Air);
    c.set(3, 70, 9, BlockType::Sand);
    assert_eq!(c.get(3, 70, 9), BlockType::Sand);
}

#[test]
fn get_reads_linear_position() {
    // (17, 0, 0) has the same linear position as (1, 0, 1).
    let mut c = Chunk::new();
    c.set(1, 0, 1, BlockType::Wood);
    assert_eq!(c.get(17, 0, 0), BlockType::Wood);
}

#[test]
fn in_bounds_edges() {
    assert!(Chunk::in_bounds(0, 0, 0));
    assert!(Chunk::in_bounds(15, 127, 15));
    assert!(!Chunk::in_bounds(-1, 0, 0));
    assert!(!Chunk::in_bounds(16, 0, 0));
    assert!(!Chunk::in_bounds(0, 128, 0));
    assert!(!Chunk::in_bounds(0, 0, -1));
    assert!(!Chunk::in_bounds(0, -1, 16));
}

#[test]
fn get_safe_is_air_outside() {
    let mut c = Chunk::new();
    c.set(0, 0, 0, BlockType::Stone);
    assert_eq!(c.get_safe(0, 0, 0), BlockType::Stone);
    assert_eq!(c.get_safe(-1, 0, 0), BlockType::Air);
    assert_eq!(c.get_safe(0, 128, 0), BlockType::Air);
    assert_eq!(c.get_safe(16, 0, 0), BlockType::Air);
}

#[test]
fn locate_positive_and_negative() {
    assert_eq!(
        locate(17, 5, 3),
        Some(LocalPos { coord: ChunkCoord { x: 1, z: 0 }, lx: 1, ly: 5, lz: 3 })
    );
    assert_eq!(
        locate(-1, 0, -16),
        Some(LocalPos { coord: ChunkCoord { x: -1, z: -1 }, lx: 15, ly: 0, lz: 0 })
    );
    assert_eq!(
        locate(-17, 127, 31),
        Some(LocalPos { coord: ChunkCoord { x: -2, z: 1 }, lx: 15, ly: 127, lz: 15 })
    );
    assert_eq!(locate(0, -1, 0), None);
    assert_eq!(locate(0, 128, 0), None);
}

#[test]
fn locate_round_trips_extremes() {
    for wx in [i32::MIN, i32::MIN + 1, -16, -15, 0, 15, 16, i32::MAX] {
        let p = locate(wx, 10, wx).unwrap();
        assert_eq!(p.coord.x as i64 * 16 + p.lx as i64, wx as i64);
        assert_eq!(p.coord.z as i64 * 16 + p.lz as i64, wx as i64);
        assert!(p.lx < 16 && p.lz < 16);
    }
}

#[test]
fn updated_chunks_are_listed_once_in_order() {
    let c = |x: i32, z: i32| ChunkCoord { x, z };
    let updated = vec![c(1, 0), c(-2, 5), c(1, 0), c(-2, 3), c(0, 0), c(-2, 5)];
    assert_eq!(sorted_distinct_coords(&updated), vec![c(-2, 3), c(-2, 5), c(0, 0), c(1, 0)]);
    assert!(sorted_distinct_coords(&Vec::new()).is_empty());
}
