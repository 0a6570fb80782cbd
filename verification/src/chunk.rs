use vstd::prelude::*;

use crate::block::BlockType;

verus! {

/// Width and depth of a chunk, in blocks.
pub const CHUNK_SIZE: usize = 16;

/// Height of a chunk, in blocks.
pub const CHUNK_HEIGHT: usize = 128;

/// Number of cells in a chunk.
pub const CHUNK_VOLUME: usize = 32768;

/// Position of a chunk in the grid of chunks.
#[derive(Clone, Copy, PartialEq, Eq, Hash, Debug, Structural)]
pub struct ChunkCoord {
    pub x: i32,
    pub z: i32,
}

/// Linear position of a cell: x runs fastest, then z, then y.
pub open spec fn cell_index(x: int, y: int, z: int) -> int {
    x + z * 16 + y * 256
}

/// Column (x) of the cell at linear position `i`.
pub open spec fn cell_x(i: int) -> int {
    i % 16
}

/// Row (z) of the cell at linear position `i`.
pub open spec fn cell_z(i: int) -> int {
    (i / 16) % 16
}

/// Layer (y) of the cell at linear position `i`.
pub open spec fn cell_y(i: int) -> int {
    i / 256
}

/// A cell's linear position gives back its coordinates.
pub proof fn lemma_cell_coords(x: int, y: int, z: int)
    requires
        spec_in_bounds(x, y, z),
    ensures
        cell_x(cell_index(x, y, z)) == x,
        cell_y(cell_index(x, y, z)) == y,
        cell_z(cell_index(x, y, z)) == z,
        0 <= cell_index(x, y, z) < CHUNK_VOLUME,
{
    let i = cell_index(x, y, z);
    assert(i == (z + 16 * y) * 16 + x);
    vstd::arithmetic::div_mod::lemma_fundamental_div_mod_converse(i, 16, z + 16 * y, x);
    vstd::arithmetic::div_mod::lemma_fundamental_div_mod_converse(z + 16 * y, 16, y, z);
    vstd::arithmetic::div_mod::lemma_fundamental_div_mod_converse(i, 256, y, x + 16 * z);
}

/// Every linear position of a chunk is the position of its coordinates.
pub proof fn lemma_cell_reconstruct(i: int)
    requires
        0 <= i < CHUNK_VOLUME,
    ensures
        spec_in_bounds(cell_x(i), cell_y(i), cell_z(i)),
        cell_index(cell_x(i), cell_y(i), cell_z(i)) == i,
{
    let q = i / 16;
    vstd::arithmetic::div_mod::lemma_fundamental_div_mod(i, 16);
    vstd::arithmetic::div_mod::lemma_fundamental_div_mod(q, 16);
    vstd::arithmetic::div_mod::lemma_div_denominator(i, 16, 16);
    assert(i / 256 == q / 16) by {
        vstd::arithmetic::div_mod::lemma_div_denominator(i, 16, 16);
    }
    vstd::arithmetic::div_mod::lemma_mod_bound(i, 16);
    vstd::arithmetic::div_mod::lemma_mod_bound(q, 16);
    vstd::arithmetic::div_mod::lemma_div_pos_is_pos(i, 256);
    vstd::arithmetic::div_mod::lemma_div_is_ordered(i, CHUNK_VOLUME as int - 1, 256);
}

/// The cell lies inside a chunk.
pub open spec fn spec_in_bounds(x: int, y: int, z: int) -> bool {
    0 <= x < 16 && 0 <= y < 128 && 0 <= z < 16
}

/// The block of a chunk's contents at (x, y, z), air outside the chunk.
pub open spec fn seq_block_or_air(s: Seq<BlockType>, x: int, y: int, z: int) -> BlockType {
    if spec_in_bounds(x, y, z) {
        s[cell_index(x, y, z)]
    } else {
        BlockType::Air
    }
}

/// A world cell named by its chunk and its place inside that chunk.
#[derive(Clone, Copy, PartialEq, Eq, Debug, Structural)]
pub struct LocalPos {
    pub coord: ChunkCoord,
    pub lx: u8,
    pub ly: u8,
    pub lz: u8,
}

/// The world cell (wx, wy, wz) as a chunk and a place inside it, when wy lies
/// within the world's height.
pub open spec fn spec_locate(wx: int, wy: int, wz: int) -> Option<LocalPos> {
    if 0 <= wy < 128 {
        Some(
            LocalPos {
                coord: ChunkCoord { x: (wx / 16) as i32, z: (wz / 16) as i32 },
                lx: (wx % 16) as u8,
                ly: wy as u8,
                lz: (wz % 16) as u8,
            },
        )
    } else {
        None
    }
}

/// Splits a world cell into its chunk and its place inside that chunk.
pub fn locate(wx: i32, wy: i32, wz: i32) -> (r: Option<LocalPos>)
    ensures
        r == spec_locate(wx as int, wy as int, wz as int),
        r matches Some(p) ==> {
            &&& p.coord.x * 16 + p.lx == wx
            &&& p.ly == wy
            &&& p.coord.z * 16 + p.lz == wz
            &&& p.lx < 16 && p.ly < 128 && p.lz < 16
        },
{
    if wy < 0 || wy >= CHUNK_HEIGHT as i32 {
        return None;
    }
    let cx = match wx.checked_div_euclid(16) {
        Some(v) => v,
        None => 0,
    };
    let cz = match wz.checked_div_euclid(16) {
        Some(v) => v,
        None => 0,
    };
    let lx = match wx.checked_rem_euclid(16) {
        Some(v) => v,
        None => 0,
    };
    let lz = match wz.checked_rem_euclid(16) {
        Some(v) => v,
        None => 0,
    };
    proof {
        vstd::arithmetic::div_mod::lemma_fundamental_div_mod(wx as int, 16);
        vstd::arithmetic::div_mod::lemma_fundamental_div_mod(wz as int, 16);
        vstd::arithmetic::div_mod::lemma_mod_bound(wx as int, 16);
        vstd::arithmetic::div_mod::lemma_mod_bound(wz as int, 16);
    }
    Some(LocalPos { coord: ChunkCoord { x: cx, z: cz }, lx: lx as u8, ly: wy as u8, lz: lz as u8 })
}

/// A world cell inside the world's height splits into a chunk and a place
/// inside it, 16 cells to a chunk along x and z, rounding down; a cell above
/// or below the world's height has no place.
pub proof fn lemma_locate_splits_world_cell(wx: int, wy: int, wz: int)
    requires
        i32::MIN <= wx <= i32::MAX,
        i32::MIN <= wz <= i32::MAX,
    ensures
        spec_locate(wx, wy, wz) is Some <==> 0 <= wy < 128,
        spec_locate(wx, wy, wz) matches Some(p) ==> {
            &&& p.coord.x * 16 + p.lx == wx
            &&& p.coord.z * 16 + p.lz == wz
            &&& p.ly == wy
            &&& p.lx < 16 && p.lz < 16
        },
{
    vstd::arithmetic::div_mod::lemma_fundamental_div_mod(wx, 16);
    vstd::arithmetic::div_mod::lemma_fundamental_div_mod(wz, 16);
    vstd::arithmetic::div_mod::lemma_mod_bound(wx, 16);
    vstd::arithmetic::div_mod::lemma_mod_bound(wz, 16);
    vstd::arithmetic::div_mod::lemma_div_is_ordered(wx, i32::MAX as int, 16);
    vstd::arithmetic::div_mod::lemma_div_is_ordered(i32::MIN as int, wx, 16);
    vstd::arithmetic::div_mod::lemma_div_is_ordered(wz, i32::MAX as int, 16);
    vstd::arithmetic::div_mod::lemma_div_is_ordered(i32::MIN as int, wz, 16);
}

/// A column of `CHUNK_HEIGHT` blocks on a `CHUNK_SIZE` by `CHUNK_SIZE` footprint.
pub struct Chunk {
    blocks: Vec<BlockType>,
}

impl View for Chunk {
    type V = Seq<BlockType>;

    closed spec fn view(&self) -> Seq<BlockType> {
        self.blocks@
    }
}

impl Chunk {
    #[verifier::type_invariant]
    pub(crate) open spec fn has_volume(&self) -> bool {
        self@.len() == CHUNK_VOLUME
    }

    /// The block at an in-bounds cell.
    pub open spec fn block(&self, x: int, y: int, z: int) -> BlockType {
        self@[cell_index(x, y, z)]
    }

    /// The block at any cell, air outside the chunk.
    pub open spec fn block_or_air(&self, x: int, y: int, z: int) -> BlockType {
        if spec_in_bounds(x, y, z) {
            self.block(x, y, z)
        } else {
            BlockType::Air
        }
    }

    /// A chunk of air.
    pub fn new() -> (c: Chunk)
        ensures
            c@ == Seq::new(CHUNK_VOLUME as nat, |i: int| BlockType::Air),
    {
        let mut blocks: Vec<BlockType> = Vec::new();
        let mut i: usize = 0;
        while i < CHUNK_VOLUME
            invariant
                i <= CHUNK_VOLUME,
                blocks@ == Seq::new(i as nat, |k: int| BlockType::Air),
            decreases CHUNK_VOLUME - i,
        {
            blocks.push(BlockType::Air);
            i = i + 1;
        }
        Chunk { blocks }
    }

    /// Linear position of cell (x, y, z).
    pub fn idx(x: usize, y: usize, z: usize) -> (i: usize)
        requires
            cell_index(x as int, y as int, z as int) <= usize::MAX,
        ensures
            i == cell_index(x as int, y as int, z as int),
        no_unwind
    {
        x + z * CHUNK_SIZE + y * CHUNK_SIZE * CHUNK_SIZE
    }

    /// Whether (x, y, z) names a linear position of the chunk.
    pub fn cell_fits(x: usize, y: usize, z: usize) -> (r: bool)
        ensures
            r == (cell_index(x as int, y as int, z as int) < CHUNK_VOLUME),
    {
        x < CHUNK_VOLUME && y < CHUNK_VOLUME && z < CHUNK_VOLUME && x + z * CHUNK_SIZE + y
            * CHUNK_SIZE * CHUNK_SIZE < CHUNK_VOLUME
    }

    /// The block stored at linear position `idx(x, y, z)`.
    pub fn get(&self, x: usize, y: usize, z: usize) -> (b: BlockType)
        requires
            cell_index(x as int, y as int, z as int) < CHUNK_VOLUME,
        ensures
            b == self@[cell_index(x as int, y as int, z as int)],
    {
        proof {
            use_type_invariant(self);
        }
        self.blocks[Self::idx(x, y, z)]
    }

    /// Overwrites the block stored at linear position `idx(x, y, z)`.
    pub fn set(&mut self, x: usize, y: usize, z: usize, block: BlockType)
        requires
            cell_index(x as int, y as int, z as int) < CHUNK_VOLUME,
        ensures
            final(self)@ == old(self)@.update(cell_index(x as int, y as int, z as int), block),
        no_unwind
    {
        proof {
            use_type_invariant(&*self);
        }
        let i = Self::idx(x, y, z);
        self.blocks[i] = block;
    }

    pub fn in_bounds(x: i32, y: i32, z: i32) -> (r: bool)
        ensures
            r == spec_in_bounds(x as int, y as int, z as int),
    {
        x >= 0 && x < CHUNK_SIZE as i32 && y >= 0 && y < CHUNK_HEIGHT as i32 && z >= 0 && z
            < CHUNK_SIZE as i32
    }

    /// The block at (x, y, z), or air outside the chunk.
    pub fn get_safe(&self, x: i32, y: i32, z: i32) -> (b: BlockType)
        ensures
            b == self.block_or_air(x as int, y as int, z as int),
    {
        if Self::in_bounds(x, y, z) {
            self.get(x as usize, y as usize, z as usize)
        } else {
            BlockType::Air
        }
    }
}

impl Default for Chunk {
    fn default() -> (c: Chunk)
        ensures
            c@ == Seq::new(CHUNK_VOLUME as nat, |i: int| BlockType::Air),
    {
        Chunk::new()
    }
}

/// `a` comes before `b` in the order of chunk coordinates: by x, then by z.
pub open spec fn coord_before(a: ChunkCoord, b: ChunkCoord) -> bool {
    a.x < b.x || (a.x == b.x && a.z < b.z)
}

/// The chunk coordinates of `coords`, each once, in the order of
/// `coord_before`.
pub fn sorted_distinct_coords(coords: &Vec<ChunkCoord>) -> (r: Vec<ChunkCoord>)
    ensures
        forall|i: int, j: int| 0 <= i < j < r@.len() ==> coord_before(#[trigger] r@[i], #[trigger] r@[j]),
        forall|c: ChunkCoord| r@.contains(c) <==> coords@.contains(c),
{
    let mut r: Vec<ChunkCoord> = Vec::new();
    let mut k: usize = 0;
    while k < coords.len()
        invariant
            k <= coords@.len(),
            forall|i: int, j: int| 0 <= i < j < r@.len() ==> coord_before(#[trigger] r@[i], #[trigger] r@[j]),
            forall|c: ChunkCoord| r@.contains(c) <==> coords@.take(k as int).contains(c),
        decreases coords@.len() - k,
    {
        let c = coords[k];
        let mut pos: usize = 0;
        while pos < r.len() && (r[pos].x < c.x || (r[pos].x == c.x && r[pos].z < c.z))
            invariant
                pos <= r@.len(),
                forall|i: int| 0 <= i < pos ==> coord_before(#[trigger] r@[i], c),
            decreases r@.len() - pos,
        {
            pos = pos + 1;
        }
        let ghost before = r@;
        let dup = pos < r.len() && r[pos] == c;
        if !dup {
            r.insert(pos, c);
            assert forall|i: int, j: int| 0 <= i < j < r@.len() implies coord_before(
                #[trigger] r@[i],
                #[trigger] r@[j],
            ) by {
                if j < pos {
                } else if j == pos {
                    assert(r@[i] == before[i]);
                } else if i < pos {
                    assert(coord_before(before[i], c));
                    assert(r@[j] == before[j - 1]);
                    if pos < before.len() {
                        assert(!coord_before(before[pos as int], c));
                        assert(before[pos as int] != c);
                        if j - 1 > pos {
                            assert(coord_before(before[pos as int], before[j - 1]));
                        }
                    }
                } else if i == pos {
                    assert(r@[j] == before[j - 1]);
                    assert(!coord_before(before[pos as int], c));
                    assert(before[pos as int] != c);
                    if j - 1 > pos {
                        assert(coord_before(before[pos as int], before[j - 1]));
                    }
                } else {
                    assert(r@[i] == before[i - 1]);
                    assert(r@[j] == before[j - 1]);
                }
            }
        }
        proof {
            let seen = coords@.take(k as int);
            assert(coords@.take(k + 1) =~= seen.push(c));
            assert forall|d: ChunkCoord| r@.contains(d) <==> coords@.take(k + 1).contains(d) by {
                if r@.contains(d) {
                    let m = choose|m: int| 0 <= m < r@.len() && r@[m] == d;
                    if d != c {
                        if !dup {
                            if m < pos {
                                assert(before[m] == d);
                            } else {
                                assert(before[m - 1] == d);
                            }
                        }
                        assert(before.contains(d));
                        assert(seen.contains(d));
                        let w = choose|w: int| 0 <= w < seen.len() && seen[w] == d;
                        assert(coords@.take(k + 1)[w] == d);
                    } else {
                        assert(coords@.take(k + 1)[k as int] == d);
                    }
                }
                if coords@.take(k + 1).contains(d) {
                    let w = choose|w: int| 0 <= w < k + 1 && #[trigger] coords@.take(k + 1)[w] == d;
                    if w < k {
                        assert(seen[w] == d);
                        assert(before.contains(d));
                        let m = choose|m: int| 0 <= m < before.len() && before[m] == d;
                        if !dup {
                            if m < pos {
                                assert(r@[m] == d);
                            } else {
                                assert(r@[m + 1] == d);
                            }
                        }
                    } else {
                        if dup {
                            assert(r@[pos as int] == d);
                        } else {
                            assert(r@[pos as int] == d);
                        }
                    }
                }
            }
        }
        k = k + 1;
    }
    assert(coords@.take(coords@.len() as int) =~= coords@);
    r
}

} // verus!
