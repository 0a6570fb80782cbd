use vstd::prelude::*;

use crate::block::{BlockType, spec_solid};
use crate::chunk::{Chunk, ChunkCoord, LocalPos, locate, spec_locate};

verus! {

/// The block at `p` in the first loaded chunk whose coordinate is `p`'s chunk,
/// air when no loaded chunk has it.
pub open spec fn chunk_block_at(chunks: Seq<(ChunkCoord, &Chunk)>, p: LocalPos) -> BlockType
    decreases chunks.len(),
{
    if chunks.len() == 0 {
        BlockType::Air
    } else if chunks[0].0 == p.coord {
        chunks[0].1.block(p.lx as int, p.ly as int, p.lz as int)
    } else {
        chunk_block_at(chunks.drop_first(), p)
    }
}

/// The block at world cell (x, y, z) among the loaded chunks: air outside the
/// world's height or where no chunk is loaded.
pub open spec fn world_block(chunks: Seq<(ChunkCoord, &Chunk)>, x: int, y: int, z: int) -> BlockType {
    match spec_locate(x, y, z) {
        Some(p) => chunk_block_at(chunks, p),
        None => BlockType::Air,
    }
}

/// Some loaded chunk with `p`'s coordinate holds a solid block at `p`.
pub open spec fn any_solid_at(chunks: Seq<(ChunkCoord, &Chunk)>, p: LocalPos) -> bool {
    exists|k: int|
        0 <= k < chunks.len() && (#[trigger] chunks[k]).0 == p.coord && spec_solid(
            chunks[k].1.block(p.lx as int, p.ly as int, p.lz as int),
        )
}

/// The block at world cell (x, y, z) in chunk `p`'s place, read from the first
/// loaded chunk with that coordinate.
fn lookup(chunks: &[(ChunkCoord, &Chunk)], p: LocalPos) -> (b: BlockType)
    requires
        p.lx < 16,
        p.ly < 128,
        p.lz < 16,
    ensures
        b == chunk_block_at(chunks@, p),
{
    let mut k: usize = 0;
    assert(chunks@.skip(0) =~= chunks@);
    while k < chunks.len()
        invariant
            k <= chunks@.len(),
            p.lx < 16 && p.ly < 128 && p.lz < 16,
            chunk_block_at(chunks@, p) == chunk_block_at(chunks@.skip(k as int), p),
        decreases chunks@.len() - k,
    {
        let (coord, chunk) = chunks[k];
        assert(chunks@.skip(k as int)[0] == chunks@[k as int]);
        if coord == p.coord {
            return chunk.get(p.lx as usize, p.ly as usize, p.lz as usize);
        }
        assert(chunks@.skip(k as int).drop_first() =~= chunks@.skip(k + 1));
        k = k + 1;
    }
    BlockType::Air
}

/// The block at world cell (x, y, z) among the loaded chunks.
pub fn block_at_world(x: i32, y: i32, z: i32, chunks: &[(ChunkCoord, &Chunk)]) -> (b: BlockType)
    ensures
        b == world_block(chunks@, x as int, y as int, z as int),
{
    match locate(x, y, z) {
        Some(p) => lookup(chunks, p),
        None => BlockType::Air,
    }
}

/// Whether world cell (x, y, z) stops the player: everything below the world
/// is solid, everything above it is not, and inside it the block of the first
/// loaded chunk decides (a missing chunk counts as empty).
pub fn is_solid_at(x: i32, y: i32, z: i32, chunks: &[(ChunkCoord, &Chunk)]) -> (r: bool)
    ensures
        r == (y < 0 || spec_solid(world_block(chunks@, x as int, y as int, z as int))),
{
    if y < 0 {
        return true;
    }
    block_at_world(x, y, z, chunks).is_solid()
}

/// Whether a ray stepping through world cell (x, y, z) hits something: the
/// cell lies within the world's height and some loaded chunk with its
/// coordinate holds a solid block there.
pub fn ray_hits(x: i32, y: i32, z: i32, chunks: &[(ChunkCoord, &Chunk)]) -> (r: bool)
    ensures
        r == (match spec_locate(x as int, y as int, z as int) {
            Some(p) => any_solid_at(chunks@, p),
            None => false,
        }),
{
    let p = match locate(x, y, z) {
        Some(p) => p,
        None => return false,
    };
    let mut k: usize = 0;
    while k < chunks.len()
        invariant
            k <= chunks@.len(),
            p.lx < 16 && p.ly < 128 && p.lz < 16,
            spec_locate(x as int, y as int, z as int) == Some(p),
            forall|j: int|
                0 <= j < k ==> !((#[trigger] chunks@[j]).0 == p.coord && spec_solid(
                    chunks@[j].1.block(p.lx as int, p.ly as int, p.lz as int),
                )),
        decreases chunks@.len() - k,
    {
        let (coord, chunk) = chunks[k];
        if coord == p.coord && chunk.get(p.lx as usize, p.ly as usize, p.lz as usize).is_solid() {
            assert(chunks@[k as int].0 == p.coord);
            assert(spec_solid(chunks@[k as int].1.block(p.lx as int, p.ly as int, p.lz as int)));
            assert(any_solid_at(chunks@, p));
            return true;
        }
        k = k + 1;
    }
    false
}

/// The first loaded chunk with a given coordinate decides the block of each
/// world cell it covers: cell (lx, y, lz) of the chunk at (cx, cz) is world
/// cell (16 * cx + lx, y, 16 * cz + lz), and the player collides with it
/// exactly when it holds neither air nor water.
pub proof fn lemma_world_cell_is_chunk_cell(
    chunks: Seq<(ChunkCoord, &Chunk)>,
    k: int,
    lx: int,
    y: int,
    lz: int,
)
    requires
        0 <= k < chunks.len(),
        forall|j: int| 0 <= j < k ==> (#[trigger] chunks[j]).0 != chunks[k].0,
        0 <= lx < 16,
        0 <= y < 128,
        0 <= lz < 16,
    ensures
        world_block(chunks, 16 * chunks[k].0.x + lx, y, 16 * chunks[k].0.z + lz) == chunks[k].1.block(
            lx,
            y,
            lz,
        ),
        spec_solid(world_block(chunks, 16 * chunks[k].0.x + lx, y, 16 * chunks[k].0.z + lz)) <==> (
        chunks[k].1.block(lx, y, lz) != BlockType::Air && chunks[k].1.block(lx, y, lz)
            != BlockType::Water),
{
    let c = chunks[k].0;
    let wx = 16 * c.x + lx;
    let wz = 16 * c.z + lz;
    vstd::arithmetic::div_mod::lemma_fundamental_div_mod_converse(wx, 16, c.x as int, lx);
    vstd::arithmetic::div_mod::lemma_fundamental_div_mod_converse(wz, 16, c.z as int, lz);
    let p = spec_locate(wx, y, wz).unwrap();
    assert(p == LocalPos { coord: c, lx: lx as u8, ly: y as u8, lz: lz as u8 });
    lemma_first_chunk_decides(chunks, k, p);
}

/// Where the chunk at position `k` is the first with `p`'s coordinate, it
/// gives the block at `p`.
proof fn lemma_first_chunk_decides(chunks: Seq<(ChunkCoord, &Chunk)>, k: int, p: LocalPos)
    requires
        0 <= k < chunks.len(),
        chunks[k].0 == p.coord,
        forall|j: int| 0 <= j < k ==> (#[trigger] chunks[j]).0 != chunks[k].0,
    ensures
        chunk_block_at(chunks, p) == chunks[k].1.block(p.lx as int, p.ly as int, p.lz as int),
    decreases k,
{
    if k > 0 {
        assert(chunks[0].0 != p.coord);
        let rest = chunks.drop_first();
        assert forall|j: int| 0 <= j < k - 1 implies (#[trigger] rest[j]).0 != rest[k - 1].0 by {
            assert(rest[j] == chunks[j + 1]);
        }
        lemma_first_chunk_decides(rest, k - 1, p);
    }
}

/// A ray hits a world cell exactly when the cell lies within the world's
/// height and some loaded chunk at the cell's chunk coordinate (16 cells to a
/// chunk, rounding down) holds, at the cell's place inside it, a block that
/// is neither air nor water: leaves stop a ray as any other solid block.
pub proof fn lemma_ray_hits_solid_cells(chunks: Seq<(ChunkCoord, &Chunk)>, x: i32, y: i32, z: i32)
    ensures
        (match spec_locate(x as int, y as int, z as int) {
            Some(p) => any_solid_at(chunks, p),
            None => false,
        }) <==> (0 <= y < 128 && exists|k: int|
            0 <= k < chunks.len() && (#[trigger] chunks[k]).0.x * 16 + x as int % 16 == x
                && chunks[k].0.z * 16 + z as int % 16 == z && chunks[k].1.block(
                x as int % 16,
                y as int,
                z as int % 16,
            ) != BlockType::Air && chunks[k].1.block(x as int % 16, y as int, z as int % 16)
                != BlockType::Water),
{
    vstd::arithmetic::div_mod::lemma_fundamental_div_mod(x as int, 16);
    vstd::arithmetic::div_mod::lemma_fundamental_div_mod(z as int, 16);
    vstd::arithmetic::div_mod::lemma_mod_bound(x as int, 16);
    vstd::arithmetic::div_mod::lemma_mod_bound(z as int, 16);
    if 0 <= y < 128 {
        let p = spec_locate(x as int, y as int, z as int).unwrap();
        assert forall|k: int| 0 <= k < chunks.len() implies ((#[trigger] chunks[k]).0 == p.coord
            <==> (chunks[k].0.x * 16 + x as int % 16 == x && chunks[k].0.z * 16 + z as int % 16
            == z)) by {
            if chunks[k].0.x * 16 + x as int % 16 == x {
                vstd::arithmetic::div_mod::lemma_fundamental_div_mod_converse(
                    x as int,
                    16,
                    chunks[k].0.x as int,
                    x as int % 16,
                );
            }
            if chunks[k].0.z * 16 + z as int % 16 == z {
                vstd::arithmetic::div_mod::lemma_fundamental_div_mod_converse(
                    z as int,
                    16,
                    chunks[k].0.z as int,
                    z as int % 16,
                );
            }
        }
    }
}

} // verus!
