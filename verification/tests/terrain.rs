use stu_minecraft::block::BlockType;
use stu_minecraft::chunk::Chunk;
use stu_minecraft::terrain::{block_at, fill_column, generate_chunk_from_columns, ColumnSample};

fn flat(surface_y: usize) -> Vec<ColumnSample> {
    vec![ColumnSample { surface_y, tree_roll: false }; 256]
}

#[test]
fn column_profile_high() {
    assert_eq!(block_at(0, 60), BlockType::Stone);
    assert_eq!(block_at(1, 60), BlockType::Stone);
    assert_eq!(block_at(56, 60), BlockType::Stone);
    assert_eq!(block_at(57, 60), BlockType::Dirt);
    assert_eq!(block_at(59, 60), BlockType::Dirt);
    assert_eq!(block_at(60, 60), BlockType::Grass);
    assert_eq!(block_at(61, 60), BlockType::Air);
}

#[test]
fn column_profile_low_is_sand() {
    assert_eq!(block_at(51, 51), BlockType::Sand);
    assert_eq!(block_at(48, 51), BlockType::Sand);
    assert_eq!(block_at(47, 51), BlockType::Stone);
    assert_eq!(block_at(52, 52), BlockType::Grass);
}

#[test]
fn column_profile_shallow() {
    // With the surface at 2, everything from 1 up to the surface is top soil.
    assert_eq!(block_at(0, 2), BlockType::Stone);
    assert_eq!(block_at(1, 2), BlockType::Sand);
    assert_eq!(block_at(2, 2), BlockType::Sand);
    assert_eq!(block_at(3, 2), BlockType::Air);
}

#[test]
fn fill_column_only_touches_its_column() {
    let mut c = Chunk::new();
    fill_column(&mut c, 4, 5, 60);
    assert_eq!(c.get(4, 60, 5), BlockType::Grass);
    assert_eq!(c.get(4, 0, 5), BlockType::Stone);
    assert_eq!(c.get(4, 61, 5), BlockType::Air);
    assert_eq!(c.get(5, 60, 5), BlockType::Air);
    assert_eq!(c.get(4, 60, 4), BlockType::Air);
}

#[test]
fn flat_terrain_without_trees() {
    let c = generate_chunk_from_columns(&flat(60));
    for x in 0..16 {
        for z in 0..16 {
            for y in 0..128 {
                assert_eq!(c.get(x, y, z), block_at(y, 60));
            }
        }
    }
}

#[test]
fn tree_grows_on_its_column() {
    let mut cols = flat(60);
    cols[8 * 16 + 8].tree_roll = true;
    let c = generate_chunk_from_columns(&cols);
    for y in 61..=64 {
        assert_eq!(c.get(8, y, 8), BlockType::Wood, "trunk at {}", y);
    }
    // Lower canopy layers reach two cells out (on columns built before the
    // tree's; columns built after it replace the leaves with their own air).
    assert_eq!(c.get(6, 64, 6), BlockType::Leaves);
    assert_eq!(c.get(10, 65, 7), BlockType::Leaves);
    assert_eq!(c.get(8, 65, 8), BlockType::Leaves);
    assert_eq!(c.get(10, 65, 10), BlockType::Air);
    // The top layer reaches one cell out.
    assert_eq!(c.get(7, 66, 7), BlockType::Leaves);
    assert_eq!(c.get(6, 66, 6), BlockType::Air);
    assert_eq!(c.get(8, 67, 8), BlockType::Air);
    // The ground stays untouched.
    assert_eq!(c.get(8, 60, 8), BlockType::Grass);
}

#[test]
fn later_columns_overwrite_earlier_leaves() {
    // A tree on column (0, 0) spreads leaves onto column (1, 0), which is
    // built after it and overwrites them with its own profile.
    let mut cols = flat(60);
    cols[0].tree_roll = true;
    let c = generate_chunk_from_columns(&cols);
    assert_eq!(c.get(0, 64, 0), BlockType::Wood);
    assert_eq!(c.get(1, 64, 0), BlockType::Air);
    assert_eq!(c.get(0, 64, 1), BlockType::Air);
    assert_eq!(c.get(0, 65, 0), BlockType::Leaves);
}

#[test]
fn tree_kept_off_near_the_top() {
    let mut cols = flat(122);
    cols[5].tree_roll = true;
    let c = generate_chunk_from_columns(&cols);
    assert_eq!(c.get(5, 123, 0), BlockType::Air);
    let mut cols = flat(121);
    cols[5].tree_roll = true;
    let c = generate_chunk_from_columns(&cols);
    assert_eq!(c.get(5, 122, 0), BlockType::Wood);
}

#[test]
fn floor_is_stone_everywhere() {
    let mut cols = Vec::new();
    for k in 0..256usize {
        cols.push(ColumnSample { surface_y: 1 + (k * 7) % 120, tree_roll: k % 3 == 0 });
    }
    let c = generate_chunk_from_columns(&cols);
    for x in 0..16 {
        for z in 0..16 {
            assert_eq!(c.get(x, 0, z), BlockType::Stone);
            let surface = cols[z * 16 + x].surface_y;
            for y in 0..=surface {
                assert_eq!(c.get(x, y, z), block_at(y, surface));
            }
        }
    }
}
