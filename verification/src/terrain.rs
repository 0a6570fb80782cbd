use vstd::prelude::*;

use crate::block::BlockType;
use crate::chunk::{
    Chunk, CHUNK_HEIGHT, CHUNK_SIZE, CHUNK_VOLUME, cell_index, cell_x, cell_y, cell_z, lemma_cell_coords,
    lemma_cell_reconstruct, spec_in_bounds,
};

verus! {

/// What the noise field says about one column of a chunk: the height of its
/// surface, and whether its tree roll came out high enough to grow a tree.
#[derive(Clone, Copy, PartialEq, Eq, Debug, Structural)]
pub struct ColumnSample {
    pub surface_y: usize,
    pub tree_roll: bool,
}

/// The block at height `y` of a column whose surface lies at `surface`:
/// stone at the bottom of the world, air above the surface, a grass (or, low
/// down, sand) top over three layers of dirt (or sand), stone below.
pub open spec fn column_block(y: int, surface: int) -> BlockType {
    if y == 0 {
        BlockType::Stone
    } else if y > surface {
        BlockType::Air
    } else if y == surface {
        if surface < 52 {
            BlockType::Sand
        } else {
            BlockType::Grass
        }
    } else if y >= surface - 3 {
        if surface < 52 {
            BlockType::Sand
        } else {
            BlockType::Dirt
        }
    } else {
        BlockType::Stone
    }
}

/// The block at height `y` of a column whose surface lies at `surface_y`.
pub fn block_at(y: usize, surface_y: usize) -> (b: BlockType)
    ensures
        b == column_block(y as int, surface_y as int),
{
    if y == 0 {
        return BlockType::Stone;
    }
    if y > surface_y {
        return BlockType::Air;
    }
    if y == surface_y {
        return if surface_y < 52 {
            BlockType::Sand
        } else {
            BlockType::Grass
        };
    }
    if y >= surface_y.saturating_sub(3) {
        return if surface_y < 52 {
            BlockType::Sand
        } else {
            BlockType::Dirt
        };
    }
    BlockType::Stone
}

/// The contents `s` with column (x, z) replaced by the profile of a column
/// whose surface lies at `surface`.
pub open spec fn fill_column_spec(s: Seq<BlockType>, x: int, z: int, surface: int) -> Seq<
    BlockType,
> {
    Seq::new(
        s.len(),
        |i: int|
            if cell_x(i) == x && cell_z(i) == z {
                column_block(cell_y(i), surface)
            } else {
                s[i]
            },
    )
}

/// Cells of the trunk of a tree rooted on (x0, surface, z0).
pub open spec fn in_trunk(x0: int, surface: int, z0: int, x: int, y: int, z: int) -> bool {
    x == x0 && z == z0 && surface + 1 <= y <= surface + 4
}

/// Half-width of the canopy on its layer `ly` (counted from the trunk's top).
pub open spec fn canopy_radius(ly: int) -> int {
    if ly == 2 {
        1
    } else {
        2
    }
}

/// Cells of the canopy of a tree rooted on (x0, surface, z0).
pub open spec fn in_canopy(x0: int, surface: int, z0: int, x: int, y: int, z: int) -> bool {
    let ly = y - (surface + 4);
    &&& 0 <= ly < 3
    &&& x0 - canopy_radius(ly) <= x <= x0 + canopy_radius(ly)
    &&& z0 - canopy_radius(ly) <= z <= z0 + canopy_radius(ly)
}

/// The contents `s` with a tree rooted on (x0, surface, z0): wood on the trunk,
/// leaves on the canopy wherever there was air.
pub open spec fn tree_spec(s: Seq<BlockType>, x0: int, surface: int, z0: int) -> Seq<BlockType> {
    Seq::new(
        s.len(),
        |i: int|
            if in_trunk(x0, surface, z0, cell_x(i), cell_y(i), cell_z(i)) {
                BlockType::Wood
            } else if in_canopy(x0, surface, z0, cell_x(i), cell_y(i), cell_z(i)) && s[i]
                == BlockType::Air {
                BlockType::Leaves
            } else {
                s[i]
            },
    )
}

/// A column grows a tree when its roll says so and the tree fits under the
/// top of the world.
pub open spec fn grows_tree(c: ColumnSample) -> bool {
    c.tree_roll && c.surface_y + 6 < 128
}

/// The contents `s` after column `k` (x = k % 16, z = k / 16) has been filled
/// and, if it grows one, given its tree.
pub open spec fn column_step(s: Seq<BlockType>, c: ColumnSample, k: int) -> Seq<BlockType> {
    let filled = fill_column_spec(s, k % 16, k / 16, c.surface_y as int);
    if grows_tree(c) {
        tree_spec(filled, k % 16, c.surface_y as int, k / 16)
    } else {
        filled
    }
}

/// The contents of a chunk of air after its first `k` columns have been built.
pub open spec fn terrain_after(cols: Seq<ColumnSample>, k: nat) -> Seq<BlockType>
    decreases k,
{
    if k == 0 {
        Seq::new(CHUNK_VOLUME as nat, |i: int| BlockType::Air)
    } else {
        column_step(terrain_after(cols, (k - 1) as nat), cols[k - 1], k - 1)
    }
}

/// The contents of the chunk built from all 256 column samples.
pub open spec fn terrain_of(cols: Seq<ColumnSample>) -> Seq<BlockType> {
    terrain_after(cols, 256)
}

/// Fills column (x, z) with the profile of a column whose surface lies at `surface_y`.
pub fn fill_column(chunk: &mut Chunk, x: usize, z: usize, surface_y: usize)
    requires
        x < 16,
        z < 16,
    ensures
        final(chunk)@ == fill_column_spec(old(chunk)@, x as int, z as int, surface_y as int),
{
    proof {
        use_type_invariant(&*chunk);
    }
    let ghost s0 = chunk@;
    let mut y: usize = 0;
    while y < CHUNK_HEIGHT
        invariant
            x < 16,
            z < 16,
            y <= CHUNK_HEIGHT,
            s0.len() == CHUNK_VOLUME,
            chunk@ == Seq::new(
                s0.len(),
                |i: int|
                    if cell_x(i) == x && cell_z(i) == z && cell_y(i) < y {
                        column_block(cell_y(i), surface_y as int)
                    } else {
                        s0[i]
                    },
            ),
        decreases CHUNK_HEIGHT - y,
    {
        let ghost prev = chunk@;
        proof {
            lemma_cell_coords(x as int, y as int, z as int);
        }
        let b = block_at(y, surface_y);
        chunk.set(x, y, z, b);
        proof {
            let ci = cell_index(x as int, y as int, z as int);
            assert forall|i: int| 0 <= i < s0.len() implies #[trigger] chunk@[i] == (
            if cell_x(i) == x && cell_z(i) == z && cell_y(i) < y + 1 {
                column_block(cell_y(i), surface_y as int)
            } else {
                s0[i]
            }) by {
                lemma_cell_reconstruct(i);
            }
            assert(chunk@ =~= Seq::new(
                s0.len(),
                |i: int|
                    if cell_x(i) == x && cell_z(i) == z && cell_y(i) < y + 1 {
                        column_block(cell_y(i), surface_y as int)
                    } else {
                        s0[i]
                    },
            ));
        }
        y = y + 1;
    }
    proof {
        assert forall|i: int| 0 <= i < s0.len() implies cell_y(i) < CHUNK_HEIGHT by {
            lemma_cell_reconstruct(i);
        }
        assert(chunk@ =~= fill_column_spec(s0, x as int, z as int, surface_y as int));
    }
}

/// Canopy cells of the tree whose trunk tops out at (x0, top, z0) that a sweep
/// over layers, then rows, then cells has passed before reaching (ly, lx, lz).
spec fn canopy_swept(
    x0: int,
    top: int,
    z0: int,
    ly: int,
    lx: int,
    lz: int,
    x: int,
    y: int,
    z: int,
) -> bool {
    let cly = y - top;
    let dx = x - x0;
    let dz = z - z0;
    &&& 0 <= cly < 3
    &&& -canopy_radius(cly) <= dx <= canopy_radius(cly)
    &&& -canopy_radius(cly) <= dz <= canopy_radius(cly)
    &&& (cly < ly || (cly == ly && (dx < lx || (dx == lx && dz < lz))))
}

/// The contents `s` with leaves on the swept canopy cells that held air.
spec fn canopy_partial(
    s: Seq<BlockType>,
    x0: int,
    top: int,
    z0: int,
    ly: int,
    lx: int,
    lz: int,
) -> Seq<BlockType> {
    Seq::new(
        s.len(),
        |i: int|
            if canopy_swept(x0, top, z0, ly, lx, lz, cell_x(i), cell_y(i), cell_z(i)) && s[i]
                == BlockType::Air {
                BlockType::Leaves
            } else {
                s[i]
            },
    )
}

/// Grows a tree rooted on the surface block (x, surface_y, z): a trunk of four
/// wood blocks, then three layers of leaves that only replace air.
fn place_tree(chunk: &mut Chunk, x: usize, surface_y: usize, z: usize)
    requires
        x < 16,
        z < 16,
        surface_y + 6 < 128,
    ensures
        final(chunk)@ == tree_spec(old(chunk)@, x as int, surface_y as int, z as int),
{
    proof {
        use_type_invariant(&*chunk);
    }
    let ghost s0 = chunk@;
    let mut ty: usize = 1;
    while ty <= 4
        invariant
            1 <= ty <= 5,
            x < 16,
            z < 16,
            surface_y + 6 < 128,
            s0.len() == CHUNK_VOLUME,
            chunk@ == Seq::new(
                s0.len(),
                |i: int|
                    if cell_x(i) == x && cell_z(i) == z && surface_y + 1 <= cell_y(i) < surface_y
                        + ty {
                        BlockType::Wood
                    } else {
                        s0[i]
                    },
            ),
        decreases 5 - ty,
    {
        if surface_y + ty < CHUNK_HEIGHT {
            proof {
                lemma_cell_coords(x as int, (surface_y + ty) as int, z as int);
            }
            chunk.set(x, surface_y + ty, z, BlockType::Wood);
        }
        proof {
            assert forall|i: int| 0 <= i < s0.len() implies #[trigger] chunk@[i] == (
            if cell_x(i) == x && cell_z(i) == z && surface_y + 1 <= cell_y(i) < surface_y + ty
                + 1 {
                BlockType::Wood
            } else {
                s0[i]
            }) by {
                lemma_cell_reconstruct(i);
            }
            assert(chunk@ =~= Seq::new(
                s0.len(),
                |i: int|
                    if cell_x(i) == x && cell_z(i) == z && surface_y + 1 <= cell_y(i) < surface_y
                        + ty + 1 {
                        BlockType::Wood
                    } else {
                        s0[i]
                    },
            ));
        }
        ty = ty + 1;
    }
    let ghost s1 = chunk@;
    let top: usize = surface_y + 4;
    assert(chunk@ =~= canopy_partial(s1, x as int, top as int, z as int, 0, -3, -3));
    let mut ly: usize = 0;
    while ly < 3
        invariant
            ly <= 3,
            x < 16,
            z < 16,
            top + 2 < 128,
            s1.len() == CHUNK_VOLUME,
            chunk@ == canopy_partial(s1, x as int, top as int, z as int, ly as int, -3, -3),
        decreases 3 - ly,
    {
        let radius: i32 = if ly == 2 {
            1
        } else {
            2
        };
        assert(radius == canopy_radius(ly as int));
        let mut lx: i32 = -radius;
        assert(chunk@ =~= canopy_partial(
            s1,
            x as int,
            top as int,
            z as int,
            ly as int,
            lx as int,
            -3,
        ));
        while lx <= radius
            invariant
                ly < 3,
                radius == canopy_radius(ly as int),
                -radius <= lx <= radius + 1,
                x < 16,
                z < 16,
                top + 2 < 128,
                s1.len() == CHUNK_VOLUME,
                chunk@ == canopy_partial(
                    s1,
                    x as int,
                    top as int,
                    z as int,
                    ly as int,
                    lx as int,
                    -3,
                ),
            decreases radius + 1 - lx,
        {
            let mut lz: i32 = -radius;
            assert(chunk@ =~= canopy_partial(
                s1,
                x as int,
                top as int,
                z as int,
                ly as int,
                lx as int,
                lz as int,
            ));
            while lz <= radius
                invariant
                    ly < 3,
                    radius == canopy_radius(ly as int),
                    -radius <= lx <= radius,
                    -radius <= lz <= radius + 1,
                    x < 16,
                    z < 16,
                    top + 2 < 128,
                    s1.len() == CHUNK_VOLUME,
                    chunk@ == canopy_partial(
                        s1,
                        x as int,
                        top as int,
                        z as int,
                        ly as int,
                        lx as int,
                        lz as int,
                    ),
                decreases radius + 1 - lz,
            {
                let bx = x as i32 + lx;
                let by = top as i32 + ly as i32;
                let bz = z as i32 + lz;
                let ghost prev = chunk@;
                if Chunk::in_bounds(bx, by, bz) {
                    let bu = bx as usize;
                    let byu = by as usize;
                    let bzu = bz as usize;
                    proof {
                        lemma_cell_coords(bu as int, byu as int, bzu as int);
                    }
                    if chunk.get(bu, byu, bzu) == BlockType::Air {
                        chunk.set(bu, byu, bzu, BlockType::Leaves);
                    }
                }
                proof {
                    assert forall|i: int| 0 <= i < s1.len() implies #[trigger] chunk@[i]
                        == canopy_partial(
                        s1,
                        x as int,
                        top as int,
                        z as int,
                        ly as int,
                        lx as int,
                        lz + 1,
                    )[i] by {
                        lemma_cell_reconstruct(i);
                    }
                    assert(chunk@ =~= canopy_partial(
                        s1,
                        x as int,
                        top as int,
                        z as int,
                        ly as int,
                        lx as int,
                        lz + 1,
                    ));
                }
                lz = lz + 1;
            }
            assert(chunk@ =~= canopy_partial(
                s1,
                x as int,
                top as int,
                z as int,
                ly as int,
                lx + 1,
                -3,
            ));
            lx = lx + 1;
        }
        assert(chunk@ =~= canopy_partial(
            s1,
            x as int,
            top as int,
            z as int,
            ly + 1,
            -3,
            -3,
        ));
        ly = ly + 1;
    }
    assert(chunk@ =~= tree_spec(s0, x as int, surface_y as int, z as int));
}

/// Builds a chunk from the samples of its 256 columns, taken row by row
/// (`columns[z * 16 + x]`): each column in turn is filled with its profile and,
/// where it grows one, given a tree.
pub fn generate_chunk_from_columns(columns: &Vec<ColumnSample>) -> (chunk: Chunk)
    requires
        columns@.len() == 256,
    ensures
        chunk@ == terrain_of(columns@),
{
    let mut chunk = Chunk::new();
    assert(chunk@ =~= terrain_after(columns@, 0));
    let mut z: usize = 0;
    while z < CHUNK_SIZE
        invariant
            z <= CHUNK_SIZE,
            columns@.len() == 256,
            chunk@ == terrain_after(columns@, (z * 16) as nat),
        decreases CHUNK_SIZE - z,
    {
        let mut x: usize = 0;
        while x < CHUNK_SIZE
            invariant
                z < CHUNK_SIZE,
                x <= CHUNK_SIZE,
                columns@.len() == 256,
                chunk@ == terrain_after(columns@, (z * 16 + x) as nat),
            decreases CHUNK_SIZE - x,
        {
            let k = z * CHUNK_SIZE + x;
            let sample = columns[k];
            let ghost prev = chunk@;
            fill_column(&mut chunk, x, z, sample.surface_y);
            if sample.tree_roll && sample.surface_y < CHUNK_HEIGHT - 6 {
                place_tree(&mut chunk, x, sample.surface_y, z);
            }
            proof {
                assert(k % 16 == x as int);
                assert(k / 16 == z as int);
                assert(terrain_after(columns@, (k + 1) as nat) == column_step(
                    prev,
                    columns@[k as int],
                    k as int,
                ));
            }
            x = x + 1;
        }
        z = z + 1;
    }
    chunk
}

/// Index of the column that holds the cell at linear position `i`.
pub open spec fn column_of(i: int) -> int {
    cell_z(i) * 16 + cell_x(i)
}

/// Every cell of a column built so far that lies at or below that column's
/// surface holds the column's profile.
spec fn ground_built(s: Seq<BlockType>, cols: Seq<ColumnSample>, k: int) -> bool {
    forall|i: int|
        #![trigger s[i]]
        0 <= i < CHUNK_VOLUME && column_of(i) < k && cell_y(i) <= cols[column_of(i)].surface_y
            ==> s[i] == column_block(cell_y(i), cols[column_of(i)].surface_y as int)
}

proof fn lemma_ground_built(cols: Seq<ColumnSample>, k: nat)
    requires
        cols.len() == 256,
        k <= 256,
    ensures
        terrain_after(cols, k).len() == CHUNK_VOLUME,
        ground_built(terrain_after(cols, k), cols, k as int),
    decreases k,
{
    if k > 0 {
        lemma_ground_built(cols, (k - 1) as nat);
        let s = terrain_after(cols, (k - 1) as nat);
        let c = k - 1;
        let sample = cols[c];
        let surf = sample.surface_y as int;
        let x = c % 16;
        let z = c / 16;
        let filled = fill_column_spec(s, x, z, surf);
        let t = terrain_after(cols, k);
        assert(t == column_step(s, sample, c));
        assert forall|i: int|
            #![trigger t[i]]
            0 <= i < CHUNK_VOLUME && column_of(i) < k && cell_y(i) <= cols[column_of(i)].surface_y
                implies t[i] == column_block(cell_y(i), cols[column_of(i)].surface_y as int) by {
            lemma_cell_reconstruct(i);
            let ci = column_of(i);
            if ci == c {
                vstd::arithmetic::div_mod::lemma_fundamental_div_mod_converse(
                    c,
                    16,
                    cell_z(i),
                    cell_x(i),
                );
                assert(filled[i] == column_block(cell_y(i), surf));
            } else {
                assert(!(cell_x(i) == x && cell_z(i) == z));
                assert(filled[i] == s[i]);
                assert(s[i] == column_block(cell_y(i), cols[ci].surface_y as int));
            }
        }
    }
}

/// Trees never cut into the ground: in a chunk built from column samples, every
/// cell at or below its column's surface holds that column's profile.
pub proof fn lemma_ground_follows_profile(cols: Seq<ColumnSample>, x: int, y: int, z: int)
    requires
        cols.len() == 256,
        spec_in_bounds(x, y, z),
        y <= cols[z * 16 + x].surface_y,
    ensures
        terrain_of(cols)[cell_index(x, y, z)] == column_block(y, cols[z * 16 + x].surface_y as int),
{
    lemma_ground_built(cols, 256);
    lemma_cell_coords(x, y, z);
    let i = cell_index(x, y, z);
    assert(terrain_of(cols)[i] == column_block(
        cell_y(i),
        cols[column_of(i)].surface_y as int,
    ));
}

/// The bottom layer of a chunk built from column samples is stone throughout.
pub proof fn lemma_floor_is_stone(cols: Seq<ColumnSample>, x: int, z: int)
    requires
        cols.len() == 256,
        0 <= x < 16,
        0 <= z < 16,
    ensures
        terrain_of(cols)[cell_index(x, 0, z)] == BlockType::Stone,
{
    lemma_ground_follows_profile(cols, x, 0, z);
}

} // verus!
