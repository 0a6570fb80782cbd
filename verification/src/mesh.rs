use vstd::prelude::*;

use crate::block::{BlockType, spec_opaque};
use crate::chunk::{
    Chunk, CHUNK_HEIGHT, CHUNK_SIZE, CHUNK_VOLUME, cell_index, cell_x, cell_y, cell_z,
    lemma_cell_coords, lemma_cell_reconstruct, seq_block_or_air, spec_in_bounds,
};

verus! {

/// Outward normal of face `f`: +Y, -Y, +X, -X, +Z, -Z.
pub open spec fn face_normal(f: int) -> (int, int, int) {
    if f == 0 {
        (0, 1, 0)
    } else if f == 1 {
        (0, -1, 0)
    } else if f == 2 {
        (1, 0, 0)
    } else if f == 3 {
        (-1, 0, 0)
    } else if f == 4 {
        (0, 0, 1)
    } else {
        (0, 0, -1)
    }
}

/// Corner `v` of face `f` of the unit cube, counter-clockwise seen from outside.
pub open spec fn face_corner(f: int, v: int) -> (int, int, int) {
    if f == 0 {
        if v == 0 { (0, 1, 1) } else if v == 1 { (1, 1, 1) } else if v == 2 { (1, 1, 0) } else { (0, 1, 0) }
    } else if f == 1 {
        if v == 0 { (0, 0, 0) } else if v == 1 { (1, 0, 0) } else if v == 2 { (1, 0, 1) } else { (0, 0, 1) }
    } else if f == 2 {
        if v == 0 { (1, 0, 1) } else if v == 1 { (1, 0, 0) } else if v == 2 { (1, 1, 0) } else { (1, 1, 1) }
    } else if f == 3 {
        if v == 0 { (0, 0, 0) } else if v == 1 { (0, 0, 1) } else if v == 2 { (0, 1, 1) } else { (0, 1, 0) }
    } else if f == 4 {
        if v == 0 { (0, 0, 1) } else if v == 1 { (1, 0, 1) } else if v == 2 { (1, 1, 1) } else { (0, 1, 1) }
    } else {
        if v == 0 { (1, 0, 0) } else if v == 1 { (0, 0, 0) } else if v == 2 { (0, 1, 0) } else { (1, 1, 0) }
    }
}

/// First tangent axis of face `f`.
pub open spec fn ao_axis1(f: int) -> (int, int, int) {
    if f == 2 || f == 3 {
        (0, 1, 0)
    } else {
        (1, 0, 0)
    }
}

/// Second tangent axis of face `f`.
pub open spec fn ao_axis2(f: int) -> (int, int, int) {
    if f == 4 || f == 5 {
        (0, 1, 0)
    } else {
        (0, 0, 1)
    }
}

/// The coordinate of `c` along the unit axis `t`.
pub open spec fn along(c: (int, int, int), t: (int, int, int)) -> int {
    if t.0 != 0 {
        c.0
    } else if t.1 != 0 {
        c.1
    } else {
        c.2
    }
}

/// The side of the face, along the unit axis `t`, on which corner `v` of face
/// `f` lies: -1 for the low side, +1 for the high side.
pub open spec fn corner_side(f: int, v: int, t: (int, int, int)) -> int {
    if along(face_corner(f, v), t) == 1 {
        1
    } else {
        -1
    }
}

/// The axis `t` pointed along `sign`.
pub open spec fn scaled(t: (int, int, int), sign: int) -> (int, int, int) {
    if sign < 0 {
        (-t.0, -t.1, -t.2)
    } else {
        t
    }
}

/// Occlusion level of a corner: 3 when both edge neighbours are opaque,
/// otherwise the number of opaque neighbours among the two edges and the corner.
pub open spec fn ao_level_spec(side1: bool, side2: bool, corner: bool) -> int {
    if side1 && side2 {
        3
    } else {
        (if side1 { 1int } else { 0 }) + (if side2 { 1int } else { 0 }) + (if corner { 1int } else { 0 })
    }
}

/// Occlusion level of corner `v` of face `f` of the cell (x, y, z), sampled on
/// the layer of cells that the face looks onto: the two cells that touch the
/// corner along the face's tangent axes, and the one diagonal to it.
#[verifier::opaque]
pub open spec fn vertex_ao_spec(s: Seq<BlockType>, x: int, y: int, z: int, f: int, v: int) -> int {
    let n = face_normal(f);
    let a = scaled(ao_axis1(f), corner_side(f, v, ao_axis1(f)));
    let b = scaled(ao_axis2(f), corner_side(f, v, ao_axis2(f)));
    let side1 = spec_opaque(seq_block_or_air(s, x + n.0 + a.0, y + n.1 + a.1, z + n.2 + a.2));
    let side2 = spec_opaque(seq_block_or_air(s, x + n.0 + b.0, y + n.1 + b.1, z + n.2 + b.2));
    let corner = spec_opaque(
        seq_block_or_air(s, x + n.0 + a.0 + b.0, y + n.1 + a.1 + b.1, z + n.2 + a.2 + b.2),
    );
    ao_level_spec(side1, side2, corner)
}

/// Occlusion level of a corner from its two edge neighbours and its diagonal one.
pub fn vertex_ao_level(side1: bool, side2: bool, corner: bool) -> (level: u8)
    ensures
        level == ao_level_spec(side1, side2, corner),
        level <= 3,
{
    if side1 && side2 {
        3
    } else {
        (if side1 { 1u8 } else { 0u8 }) + (if side2 { 1u8 } else { 0u8 }) + (if corner {
            1u8
        } else {
            0u8
        })
    }
}

fn face_normal_exec(f: usize) -> (n: (i32, i32, i32))
    requires
        f < 6,
    ensures
        (n.0 as int, n.1 as int, n.2 as int) == face_normal(f as int),
{
    if f == 0 {
        (0, 1, 0)
    } else if f == 1 {
        (0, -1, 0)
    } else if f == 2 {
        (1, 0, 0)
    } else if f == 3 {
        (-1, 0, 0)
    } else if f == 4 {
        (0, 0, 1)
    } else {
        (0, 0, -1)
    }
}

fn face_corner_exec(f: usize, v: usize) -> (c: (u32, u32, u32))
    requires
        f < 6,
        v < 4,
    ensures
        (c.0 as int, c.1 as int, c.2 as int) == face_corner(f as int, v as int),
        c.0 <= 1 && c.1 <= 1 && c.2 <= 1,
{
    if f == 0 {
        if v == 0 { (0, 1, 1) } else if v == 1 { (1, 1, 1) } else if v == 2 { (1, 1, 0) } else { (0, 1, 0) }
    } else if f == 1 {
        if v == 0 { (0, 0, 0) } else if v == 1 { (1, 0, 0) } else if v == 2 { (1, 0, 1) } else { (0, 0, 1) }
    } else if f == 2 {
        if v == 0 { (1, 0, 1) } else if v == 1 { (1, 0, 0) } else if v == 2 { (1, 1, 0) } else { (1, 1, 1) }
    } else if f == 3 {
        if v == 0 { (0, 0, 0) } else if v == 1 { (0, 0, 1) } else if v == 2 { (0, 1, 1) } else { (0, 1, 0) }
    } else if f == 4 {
        if v == 0 { (0, 0, 1) } else if v == 1 { (1, 0, 1) } else if v == 2 { (1, 1, 1) } else { (0, 1, 1) }
    } else {
        if v == 0 { (1, 0, 0) } else if v == 1 { (0, 0, 0) } else if v == 2 { (0, 1, 0) } else { (1, 1, 0) }
    }
}

/// Occlusion level of corner `v` of face `f` of the in-bounds cell (x, y, z).
fn corner_ao_level(chunk: &Chunk, x: i32, y: i32, z: i32, f: usize, v: usize) -> (level: u8)
    requires
        spec_in_bounds(x as int, y as int, z as int),
        f < 6,
        v < 4,
    ensures
        level == vertex_ao_spec(chunk@, x as int, y as int, z as int, f as int, v as int),
        level <= 3,
{
    reveal(vertex_ao_spec);
    let n = face_normal_exec(f);
    let t1: (i32, i32, i32) = if f == 2 || f == 3 {
        (0, 1, 0)
    } else {
        (1, 0, 0)
    };
    let t2: (i32, i32, i32) = if f == 4 || f == 5 {
        (0, 1, 0)
    } else {
        (0, 0, 1)
    };
    let c = face_corner_exec(f, v);
    let c1: u32 = if f == 2 || f == 3 {
        c.1
    } else {
        c.0
    };
    let c2: u32 = if f == 4 || f == 5 {
        c.1
    } else {
        c.2
    };
    let a: (i32, i32, i32) = if c1 == 1 {
        t1
    } else {
        (-t1.0, -t1.1, -t1.2)
    };
    let b: (i32, i32, i32) = if c2 == 1 {
        t2
    } else {
        (-t2.0, -t2.1, -t2.2)
    };
    let side1 = chunk.get_safe(x + n.0 + a.0, y + n.1 + a.1, z + n.2 + a.2).is_opaque();
    let side2 = chunk.get_safe(x + n.0 + b.0, y + n.1 + b.1, z + n.2 + b.2).is_opaque();
    let corner = chunk.get_safe(
        x + n.0 + a.0 + b.0,
        y + n.1 + a.1 + b.1,
        z + n.2 + a.2 + b.2,
    ).is_opaque();
    proof {
        assert(chunk.block_or_air(
            x + n.0 + a.0,
            y + n.1 + a.1,
            z + n.2 + a.2,
        ) == seq_block_or_air(chunk@, x + n.0 + a.0, y + n.1 + a.1, z + n.2 + a.2));
    }
    vertex_ao_level(side1, side2, corner)
}

/// Occlusion levels of the four corners of face `f` of the in-bounds cell (x, y, z).
pub fn face_ao_levels(chunk: &Chunk, x: i32, y: i32, z: i32, f: usize) -> (levels: (u8, u8, u8, u8))
    requires
        spec_in_bounds(x as int, y as int, z as int),
        f < 6,
    ensures
        levels.0 == vertex_ao_spec(chunk@, x as int, y as int, z as int, f as int, 0),
        levels.1 == vertex_ao_spec(chunk@, x as int, y as int, z as int, f as int, 1),
        levels.2 == vertex_ao_spec(chunk@, x as int, y as int, z as int, f as int, 2),
        levels.3 == vertex_ao_spec(chunk@, x as int, y as int, z as int, f as int, 3),
        levels.0 <= 3 && levels.1 <= 3 && levels.2 <= 3 && levels.3 <= 3,
{
    (
        corner_ao_level(chunk, x, y, z, f, 0),
        corner_ao_level(chunk, x, y, z, f, 1),
        corner_ao_level(chunk, x, y, z, f, 2),
        corner_ao_level(chunk, x, y, z, f, 3),
    )
}

/// Face `f` of the cell at linear position `i` is drawn: the cell holds a block
/// that is neither air nor water, and the cell the face looks onto (if inside
/// the chunk) neither hides it by being opaque nor holds the same see-through
/// block.
pub open spec fn face_shown(s: Seq<BlockType>, i: int, f: int) -> bool {
    let b = s[i];
    let n = face_normal(f);
    let nx = cell_x(i) + n.0;
    let ny = cell_y(i) + n.1;
    let nz = cell_z(i) + n.2;
    &&& b != BlockType::Air
    &&& b != BlockType::Water
    &&& spec_in_bounds(nx, ny, nz) ==> {
        let nb = s[cell_index(nx, ny, nz)];
        !spec_opaque(nb) && !(nb == b && !spec_opaque(b))
    }
}

/// The faces drawn among the first `t` face slots, slot `i * 6 + f` standing
/// for face `f` of the cell at linear position `i`, in slot order.
pub open spec fn shown_faces(s: Seq<BlockType>, t: nat) -> Seq<(int, int)>
    decreases t,
{
    if t == 0 {
        Seq::empty()
    } else {
        let prev = shown_faces(s, (t - 1) as nat);
        let i = (t - 1) / 6;
        let f = (t - 1) % 6;
        if face_shown(s, i, f) {
            prev.push((i, f))
        } else {
            prev
        }
    }
}

/// One corner of a drawn face, in whole numbers: its place in the chunk, the
/// face's normal, its texture coordinate, and what shades it (the block, the
/// face it belongs to, and its occlusion level).
#[derive(Clone, Copy, PartialEq, Eq, Debug)]
pub struct MeshVertex {
    pub position: (u32, u32, u32),
    pub normal: (i32, i32, i32),
    pub uv: (u32, u32),
    pub block: BlockType,
    pub face: u8,
    pub ao_level: u8,
}

/// The faces of a chunk as a vertex list and a triangle list.
pub struct ChunkMesh {
    pub vertices: Vec<MeshVertex>,
    pub indices: Vec<u32>,
}

/// Corner `v` of face `f` of the cell at linear position `i`.
pub open spec fn mesh_vertex(s: Seq<BlockType>, i: int, f: int, v: int) -> MeshVertex {
    let c = face_corner(f, v);
    let n = face_normal(f);
    MeshVertex {
        position: ((cell_x(i) + c.0) as u32, (cell_y(i) + c.1) as u32, (cell_z(i) + c.2) as u32),
        normal: (n.0 as i32, n.1 as i32, n.2 as i32),
        uv: (c.0 as u32, c.1 as u32),
        block: s[i],
        face: f as u8,
        ao_level: vertex_ao_spec(s, cell_x(i), cell_y(i), cell_z(i), f, v) as u8,
    }
}

/// The quad is split along the diagonal through corners 1 and 3, rather than
/// 0 and 2, when corners 0 and 2 are the more occluded pair.
pub open spec fn quad_flipped(s: Seq<BlockType>, i: int, f: int) -> bool {
    let (x, y, z) = (cell_x(i), cell_y(i), cell_z(i));
    vertex_ao_spec(s, x, y, z, f, 0) + vertex_ao_spec(s, x, y, z, f, 2) > vertex_ao_spec(
        s,
        x,
        y,
        z,
        f,
        1,
    ) + vertex_ao_spec(s, x, y, z, f, 3)
}

/// Entry `j` of the two triangles of a quad whose first corner is vertex `base`.
pub open spec fn quad_index(flipped: bool, base: int, j: int) -> int {
    if flipped {
        if j == 0 { base } else if j == 1 { base + 1 } else if j == 2 { base + 3 } else if j == 3 {
            base + 1
        } else if j == 4 { base + 2 } else { base + 3 }
    } else {
        if j == 0 { base } else if j == 1 { base + 1 } else if j == 2 { base + 2 } else if j == 3 {
            base
        } else if j == 4 { base + 2 } else { base + 3 }
    }
}

/// The two triangles of a quad whose first corner is vertex `base`.
pub open spec fn quad_triangles(flipped: bool, base: int) -> Seq<u32> {
    Seq::new(6, |j: int| quad_index(flipped, base, j) as u32)
}

/// `vertices` and `indices` draw the faces `quads`, four corners and two
/// triangles per face, in order.
pub open spec fn mesh_of(
    s: Seq<BlockType>,
    quads: Seq<(int, int)>,
    vertices: Seq<MeshVertex>,
    indices: Seq<u32>,
) -> bool {
    &&& vertices.len() == 4 * quads.len()
    &&& indices.len() == 6 * quads.len()
    &&& forall|j: int|
        0 <= j < vertices.len() ==> #[trigger] vertices[j] == mesh_vertex(
            s,
            quads[j / 4].0,
            quads[j / 4].1,
            j % 4,
        )
    &&& forall|j: int|
        0 <= j < indices.len() ==> #[trigger] indices[j] == quad_index(
            quad_flipped(s, quads[j / 6].0, quads[j / 6].1),
            4 * (j / 6),
            j % 6,
        )
}

proof fn lemma_shown_faces_len(s: Seq<BlockType>, t: nat)
    ensures
        shown_faces(s, t).len() <= t,
    decreases t,
{
    if t > 0 {
        lemma_shown_faces_len(s, (t - 1) as nat);
    }
}

/// Face `f` of the in-bounds cell (x, y, z), which holds `block`, is drawn.
fn face_visible(chunk: &Chunk, x: usize, y: usize, z: usize, block: BlockType, f: usize) -> (r: bool)
    requires
        spec_in_bounds(x as int, y as int, z as int),
        block == chunk@[cell_index(x as int, y as int, z as int)],
        f < 6,
    ensures
        r == face_shown(chunk@, cell_index(x as int, y as int, z as int), f as int),
{
    proof {
        lemma_cell_coords(x as int, y as int, z as int);
    }
    if block == BlockType::Air || block == BlockType::Water {
        return false;
    }
    let n = face_normal_exec(f);
    let nnx = x as i32 + n.0;
    let nny = y as i32 + n.1;
    let nnz = z as i32 + n.2;
    if Chunk::in_bounds(nnx, nny, nnz) {
        let nb = chunk.get(nnx as usize, nny as usize, nnz as usize);
        if nb.is_opaque() {
            return false;
        }
        if nb == block && !block.is_opaque() {
            return false;
        }
    }
    true
}

/// Slot `i * 6 + f` adds face `f` of cell `i` to the drawn faces exactly when
/// that face is drawn.
proof fn lemma_face_slot(s: Seq<BlockType>, i: int, f: int)
    requires
        0 <= i,
        0 <= f < 6,
    ensures
        shown_faces(s, (i * 6 + f + 1) as nat) == (if face_shown(s, i, f) {
            shown_faces(s, (i * 6 + f) as nat).push((i, f))
        } else {
            shown_faces(s, (i * 6 + f) as nat)
        }),
{
    vstd::arithmetic::div_mod::lemma_fundamental_div_mod_converse(i * 6 + f, 6, i, f);
}

/// A cell of air or water adds no drawn face.
proof fn lemma_skip_cell(s: Seq<BlockType>, i: int)
    requires
        0 <= i < s.len(),
        s[i] == BlockType::Air || s[i] == BlockType::Water,
    ensures
        shown_faces(s, (i * 6 + 6) as nat) == shown_faces(s, (i * 6) as nat),
{
    lemma_face_slot(s, i, 0);
    lemma_face_slot(s, i, 1);
    lemma_face_slot(s, i, 2);
    lemma_face_slot(s, i, 3);
    lemma_face_slot(s, i, 4);
    lemma_face_slot(s, i, 5);
}

/// Adding the four corners and two triangles of one more face keeps a mesh
/// drawing its list of faces.
proof fn lemma_mesh_push(
    s: Seq<BlockType>,
    quads: Seq<(int, int)>,
    vertices: Seq<MeshVertex>,
    indices: Seq<u32>,
    i: int,
    f: int,
    new_vertices: Seq<MeshVertex>,
    new_indices: Seq<u32>,
)
    requires
        mesh_of(s, quads, vertices, indices),
        new_vertices == vertices + seq![
            mesh_vertex(s, i, f, 0),
            mesh_vertex(s, i, f, 1),
            mesh_vertex(s, i, f, 2),
            mesh_vertex(s, i, f, 3),
        ],
        new_indices == indices + quad_triangles(quad_flipped(s, i, f), vertices.len() as int),
        vertices.len() + 4 <= u32::MAX,
    ensures
        mesh_of(s, quads.push((i, f)), new_vertices, new_indices),
{
    let q = quads.len() as int;
    let nq = quads.push((i, f));
    assert forall|j: int| 0 <= j < new_vertices.len() implies #[trigger] new_vertices[j] == mesh_vertex(
        s,
        nq[j / 4].0,
        nq[j / 4].1,
        j % 4,
    ) by {
        if j < 4 * q {
            vstd::arithmetic::div_mod::lemma_div_is_ordered(j, 4 * q - 1, 4);
            vstd::arithmetic::div_mod::lemma_fundamental_div_mod_converse(4 * q - 1, 4, q - 1, 3);
        } else {
            vstd::arithmetic::div_mod::lemma_fundamental_div_mod_converse(j, 4, q, j - 4 * q);
        }
    }
    assert forall|j: int| 0 <= j < new_indices.len() implies #[trigger] new_indices[j] == quad_index(
        quad_flipped(s, nq[j / 6].0, nq[j / 6].1),
        4 * (j / 6),
        j % 6,
    ) by {
        if j < 6 * q {
            vstd::arithmetic::div_mod::lemma_div_is_ordered(j, 6 * q - 1, 6);
            vstd::arithmetic::div_mod::lemma_fundamental_div_mod_converse(6 * q - 1, 6, q - 1, 5);
            assert(new_indices[j] == indices[j]);
        } else {
            vstd::arithmetic::div_mod::lemma_fundamental_div_mod_converse(j, 6, q, j - 6 * q);
            let r = j - 6 * q;
            assert(new_indices[j] == quad_triangles(quad_flipped(s, i, f), 4 * q)[r]);
        }
    }
}

/// Appends the four corners and two triangles of face `f` of the in-bounds cell (x, y, z).
fn emit_face(
    chunk: &Chunk,
    x: usize,
    y: usize,
    z: usize,
    f: usize,
    vertices: &mut Vec<MeshVertex>,
    indices: &mut Vec<u32>,
)
    requires
        spec_in_bounds(x as int, y as int, z as int),
        f < 6,
        old(vertices).len() + 4 <= u32::MAX,
    ensures
        final(vertices)@ == old(vertices)@ + seq![
            mesh_vertex(chunk@, cell_index(x as int, y as int, z as int), f as int, 0),
            mesh_vertex(chunk@, cell_index(x as int, y as int, z as int), f as int, 1),
            mesh_vertex(chunk@, cell_index(x as int, y as int, z as int), f as int, 2),
            mesh_vertex(chunk@, cell_index(x as int, y as int, z as int), f as int, 3),
        ],
        final(indices)@ == old(indices)@ + quad_triangles(
            quad_flipped(chunk@, cell_index(x as int, y as int, z as int), f as int),
            old(vertices)@.len() as int,
        ),
{
    proof {
        lemma_cell_coords(x as int, y as int, z as int);
    }
    let ghost i = cell_index(x as int, y as int, z as int);
    let block = chunk.get(x, y, z);
    let n = face_normal_exec(f);
    let ao = face_ao_levels(chunk, x as i32, y as i32, z as i32, f);
    let base = vertices.len() as u32;
    let mut v: usize = 0;
    let ghost v0 = vertices@;
    while v < 4
        invariant
            v <= 4,
            f < 6,
            spec_in_bounds(x as int, y as int, z as int),
            cell_x(i) == x && cell_y(i) == y && cell_z(i) == z,
            block == chunk@[i],
            (n.0 as int, n.1 as int, n.2 as int) == face_normal(f as int),
            ao.0 == vertex_ao_spec(chunk@, x as int, y as int, z as int, f as int, 0),
            ao.1 == vertex_ao_spec(chunk@, x as int, y as int, z as int, f as int, 1),
            ao.2 == vertex_ao_spec(chunk@, x as int, y as int, z as int, f as int, 2),
            ao.3 == vertex_ao_spec(chunk@, x as int, y as int, z as int, f as int, 3),
            vertices@ == v0 + Seq::new(v as nat, |k: int| mesh_vertex(chunk@, i, f as int, k)),
        decreases 4 - v,
    {
        let c = face_corner_exec(f, v);
        let level = if v == 0 {
            ao.0
        } else if v == 1 {
            ao.1
        } else if v == 2 {
            ao.2
        } else {
            ao.3
        };
        let vert = MeshVertex {
            position: (x as u32 + c.0, y as u32 + c.1, z as u32 + c.2),
            normal: n,
            uv: (c.0, c.1),
            block: block,
            face: f as u8,
            ao_level: level,
        };
        assert(vert == mesh_vertex(chunk@, i, f as int, v as int));
        vertices.push(vert);
        proof {
            assert(vertices@ =~= v0 + Seq::new(
                (v + 1) as nat,
                |k: int| mesh_vertex(chunk@, i, f as int, k),
            ));
        }
        v = v + 1;
    }
    assert(vertices@ =~= v0 + seq![
        mesh_vertex(chunk@, i, f as int, 0),
        mesh_vertex(chunk@, i, f as int, 1),
        mesh_vertex(chunk@, i, f as int, 2),
        mesh_vertex(chunk@, i, f as int, 3),
    ]);
    let b = base;
    let ghost ind0 = indices@;
    if ao.0 + ao.2 > ao.1 + ao.3 {
        indices.push(b);
        indices.push(b + 1);
        indices.push(b + 3);
        indices.push(b + 1);
        indices.push(b + 2);
        indices.push(b + 3);
    } else {
        indices.push(b);
        indices.push(b + 1);
        indices.push(b + 2);
        indices.push(b);
        indices.push(b + 2);
        indices.push(b + 3);
    }
    assert(indices@ =~= ind0 + quad_triangles(
        quad_flipped(chunk@, i, f as int),
        v0.len() as int,
    ));
}

/// Adds face `f` of the in-bounds cell (x, y, z) to the mesh when it is drawn.
fn mesh_face_step(
    chunk: &Chunk,
    x: usize,
    y: usize,
    z: usize,
    block: BlockType,
    f: usize,
    vertices: &mut Vec<MeshVertex>,
    indices: &mut Vec<u32>,
)
    requires
        spec_in_bounds(x as int, y as int, z as int),
        block == chunk@[cell_index(x as int, y as int, z as int)],
        f < 6,
        mesh_of(
            chunk@,
            shown_faces(chunk@, (cell_index(x as int, y as int, z as int) * 6 + f) as nat),
            old(vertices)@,
            old(indices)@,
        ),
    ensures
        mesh_of(
            chunk@,
            shown_faces(chunk@, (cell_index(x as int, y as int, z as int) * 6 + f + 1) as nat),
            final(vertices)@,
            final(indices)@,
        ),
{
    let ghost s = chunk@;
    let ghost i = cell_index(x as int, y as int, z as int);
    proof {
        lemma_cell_coords(x as int, y as int, z as int);
        lemma_face_slot(s, i, f as int);
        lemma_shown_faces_len(s, (i * 6 + f) as nat);
    }
    if face_visible(chunk, x, y, z, block, f) {
        let ghost old_v = vertices@;
        let ghost old_i = indices@;
        emit_face(chunk, x, y, z, f, vertices, indices);
        proof {
            lemma_mesh_push(
                s,
                shown_faces(s, (i * 6 + f) as nat),
                old_v,
                old_i,
                i,
                f as int,
                vertices@,
                indices@,
            );
        }
    }
}

/// The mesh of a chunk's drawn faces, cells taken layer by layer, row by row,
/// faces in the order +Y, -Y, +X, -X, +Z, -Z.
pub fn build_chunk_mesh(chunk: &Chunk) -> (mesh: ChunkMesh)
    ensures
        mesh_of(
            chunk@,
            shown_faces(chunk@, (CHUNK_VOLUME * 6) as nat),
            mesh.vertices@,
            mesh.indices@,
        ),
{
    proof {
        use_type_invariant(chunk);
    }
    let ghost s = chunk@;
    let mut vertices: Vec<MeshVertex> = Vec::new();
    let mut indices: Vec<u32> = Vec::new();
    let mut y: usize = 0;
    while y < CHUNK_HEIGHT
        invariant
            y <= CHUNK_HEIGHT,
            s == chunk@,
            s.len() == CHUNK_VOLUME,
            mesh_of(s, shown_faces(s, (y * 256 * 6) as nat), vertices@, indices@),
        decreases CHUNK_HEIGHT - y,
    {
        let mut z: usize = 0;
        while z < CHUNK_SIZE
            invariant
                y < CHUNK_HEIGHT,
                z <= CHUNK_SIZE,
                s == chunk@,
                s.len() == CHUNK_VOLUME,
                mesh_of(s, shown_faces(s, ((z * 16 + y * 256) * 6) as nat), vertices@, indices@),
            decreases CHUNK_SIZE - z,
        {
            let mut x: usize = 0;
            while x < CHUNK_SIZE
                invariant
                    y < CHUNK_HEIGHT,
                    z < CHUNK_SIZE,
                    x <= CHUNK_SIZE,
                    s == chunk@,
                    s.len() == CHUNK_VOLUME,
                    mesh_of(
                        s,
                        shown_faces(s, (cell_index(x as int, y as int, z as int) * 6) as nat),
                        vertices@,
                        indices@,
                    ),
                decreases CHUNK_SIZE - x,
            {
                proof {
                    lemma_cell_coords(x as int, y as int, z as int);
                }
                let ghost i = cell_index(x as int, y as int, z as int);
                let block = chunk.get(x, y, z);
                if block == BlockType::Air || block == BlockType::Water {
                    proof {
                        lemma_skip_cell(s, i);
                    }
                    x = x + 1;
                    continue;
                }
                let mut f: usize = 0;
                while f < 6
                    invariant
                        f <= 6,
                        spec_in_bounds(x as int, y as int, z as int),
                        i == cell_index(x as int, y as int, z as int),
                        0 <= i < CHUNK_VOLUME,
                        block == s[i],
                        s == chunk@,
                        s.len() == CHUNK_VOLUME,
                        mesh_of(s, shown_faces(s, (i * 6 + f) as nat), vertices@, indices@),
                    decreases 6 - f,
                {
                    mesh_face_step(chunk, x, y, z, block, f, &mut vertices, &mut indices);
                    f = f + 1;
                }
                x = x + 1;
            }
            z = z + 1;
        }
        y = y + 1;
    }
    ChunkMesh { vertices, indices }
}

/// Every triangle of a chunk's mesh refers to a vertex of that mesh.
pub proof fn lemma_mesh_indices_in_range(
    s: Seq<BlockType>,
    quads: Seq<(int, int)>,
    vertices: Seq<MeshVertex>,
    indices: Seq<u32>,
)
    requires
        mesh_of(s, quads, vertices, indices),
    ensures
        forall|j: int| 0 <= j < indices.len() ==> #[trigger] indices[j] < vertices.len(),
{
    assert forall|j: int| 0 <= j < indices.len() implies #[trigger] indices[j] < vertices.len() by {
        let q = j / 6;
        vstd::arithmetic::div_mod::lemma_fundamental_div_mod(j, 6);
        vstd::arithmetic::div_mod::lemma_mod_bound(j, 6);
        assert(q < quads.len());
        assert(indices[j] == quad_index(quad_flipped(s, quads[q].0, quads[q].1), 4 * q, j % 6));
    }
}

/// The cell (a, b, c) has the point (px, py, pz) among its corners or on its
/// boundary.
pub open spec fn cell_touches(a: int, b: int, c: int, px: int, py: int, pz: int) -> bool {
    a <= px <= a + 1 && b <= py <= b + 1 && c <= pz <= c + 1
}

/// The occlusion of a face's corner depends only on the cells that touch
/// that corner's point: two chunks that agree on those cells give the corner
/// the same level.
pub proof fn lemma_corner_occlusion_is_local(
    s1: Seq<BlockType>,
    s2: Seq<BlockType>,
    x: int,
    y: int,
    z: int,
    f: int,
    v: int,
)
    requires
        s1.len() == CHUNK_VOLUME,
        s2.len() == CHUNK_VOLUME,
        spec_in_bounds(x, y, z),
        0 <= f < 6,
        0 <= v < 4,
        forall|a: int, b: int, c: int|
            spec_in_bounds(a, b, c) && cell_touches(
                a,
                b,
                c,
                x + face_corner(f, v).0,
                y + face_corner(f, v).1,
                z + face_corner(f, v).2,
            ) ==> #[trigger] s1[cell_index(a, b, c)] == s2[cell_index(a, b, c)],
    ensures
        vertex_ao_spec(s1, x, y, z, f, v) == vertex_ao_spec(s2, x, y, z, f, v),
{
    reveal(vertex_ao_spec);
    let n = face_normal(f);
    let a = scaled(ao_axis1(f), corner_side(f, v, ao_axis1(f)));
    let b = scaled(ao_axis2(f), corner_side(f, v, ao_axis2(f)));
    let c = face_corner(f, v);
    let (px, py, pz) = (x + c.0, y + c.1, z + c.2);
    assert(cell_touches(x + n.0 + a.0, y + n.1 + a.1, z + n.2 + a.2, px, py, pz));
    assert(cell_touches(x + n.0 + b.0, y + n.1 + b.1, z + n.2 + b.2, px, py, pz));
    assert(cell_touches(
        x + n.0 + a.0 + b.0,
        y + n.1 + a.1 + b.1,
        z + n.2 + a.2 + b.2,
        px,
        py,
        pz,
    ));
}

/// Face slot `i * 6 + f` lies among the first `t` exactly when face `f` of
/// cell `i` is in the list of drawn faces of those slots and is drawn.
proof fn lemma_shown_faces_contains(s: Seq<BlockType>, t: nat, i: int, f: int)
    requires
        0 <= i,
        0 <= f < 6,
    ensures
        shown_faces(s, t).contains((i, f)) <==> (i * 6 + f < t && face_shown(s, i, f)),
    decreases t,
{
    if t > 0 {
        let prev = shown_faces(s, (t - 1) as nat);
        lemma_shown_faces_contains(s, (t - 1) as nat, i, f);
        let i0 = (t - 1) / 6;
        let f0 = (t - 1) % 6;
        vstd::arithmetic::div_mod::lemma_fundamental_div_mod((t - 1) as int, 6);
        if i * 6 + f == t - 1 {
            vstd::arithmetic::div_mod::lemma_fundamental_div_mod_converse((t - 1) as int, 6, i, f);
        }
        if face_shown(s, i0, f0) {
            let cur = prev.push((i0, f0));
            assert(cur[prev.len() as int] == (i0, f0));
            if cur.contains((i, f)) {
                let k = choose|k: int| 0 <= k < cur.len() && cur[k] == (i, f);
                if k < prev.len() {
                    assert(prev[k] == (i, f));
                }
            }
            if prev.contains((i, f)) {
                let k = choose|k: int| 0 <= k < prev.len() && prev[k] == (i, f);
                assert(cur[k] == (i, f));
            }
        }
    }
}

/// Face `f` of a cell (x, y, z) holding a block is drawn exactly when the
/// cell it looks onto lies outside the chunk, or holds air, water or leaves,
/// but not leaves against leaves; a drawn face has its four corners, from the
/// face table, in the mesh that `build_chunk_mesh` gives. So the face of any
/// block but water toward water is drawn.
pub proof fn lemma_face_drawn_exactly_when_uncovered(
    s: Seq<BlockType>,
    x: int,
    y: int,
    z: int,
    f: int,
    vertices: Seq<MeshVertex>,
    indices: Seq<u32>,
)
    requires
        s.len() == CHUNK_VOLUME,
        spec_in_bounds(x, y, z),
        0 <= f < 6,
        mesh_of(s, shown_faces(s, (CHUNK_VOLUME * 6) as nat), vertices, indices),
    ensures
        ({
            let b = s[cell_index(x, y, z)];
            let n = face_normal(f);
            let (nx, ny, nz) = (x + n.0, y + n.1, z + n.2);
            let nb = s[cell_index(nx, ny, nz)];
            let drawn = b != BlockType::Air && b != BlockType::Water && (spec_in_bounds(nx, ny, nz)
                ==> (nb == BlockType::Air || nb == BlockType::Water || nb == BlockType::Leaves) && !(nb
                == BlockType::Leaves && b == BlockType::Leaves));
            &&& shown_faces(s, (CHUNK_VOLUME * 6) as nat).contains((cell_index(x, y, z), f)) <==> drawn
            &&& drawn ==> exists|q: int|
                0 <= q && 4 * q + 4 <= vertices.len() && (#[trigger] vertices[4 * q]).face == f as u8
                    && forall|v: int|
                    0 <= v < 4 ==> {
                        let c = face_corner(f, v);
                        &&& (#[trigger] vertices[4 * q + v]).position == (
                            (x + c.0) as u32,
                            (y + c.1) as u32,
                            (z + c.2) as u32,
                        )
                        &&& vertices[4 * q + v].block == b
                        &&& vertices[4 * q + v].face == f as u8
                    }
        }),
{
    let i = cell_index(x, y, z);
    lemma_cell_coords(x, y, z);
    lemma_shown_faces_contains(s, (CHUNK_VOLUME * 6) as nat, i, f);
    let quads = shown_faces(s, (CHUNK_VOLUME * 6) as nat);
    let n = face_normal(f);
    if spec_in_bounds(x + n.0, y + n.1, z + n.2) {
        lemma_cell_coords(x + n.0, y + n.1, z + n.2);
    }
    if quads.contains((i, f)) {
        let q = choose|q: int| 0 <= q < quads.len() && quads[q] == (i, f);
        assert forall|v: int| 0 <= v < 4 implies {
            let c = face_corner(f, v);
            &&& (#[trigger] vertices[4 * q + v]).position == (
                (x + c.0) as u32,
                (y + c.1) as u32,
                (z + c.2) as u32,
            )
            &&& vertices[4 * q + v].block == s[i]
            &&& vertices[4 * q + v].face == f as u8
        } by {
            vstd::arithmetic::div_mod::lemma_fundamental_div_mod_converse(4 * q + v, 4, q, v);
            assert(vertices[4 * q + v] == mesh_vertex(s, i, f, v));
        }
        assert(vertices[4 * q + 0] == vertices[4 * q]);
    }
}

/// The cell at linear position `i` holds water open to the sky or to the air
/// right above it.
pub open spec fn water_top(s: Seq<BlockType>, i: int) -> bool {
    &&& s[i] == BlockType::Water
    &&& (cell_y(i) + 1 >= 128 || s[cell_index(cell_x(i), cell_y(i) + 1, cell_z(i))]
        == BlockType::Air)
}

/// Linear positions below `n` of water cells that show a surface, in order.
pub open spec fn water_tops(s: Seq<BlockType>, n: nat) -> Seq<int>
    decreases n,
{
    if n == 0 {
        Seq::empty()
    } else {
        let prev = water_tops(s, (n - 1) as nat);
        if water_top(s, n - 1) {
            prev.push(n - 1)
        } else {
            prev
        }
    }
}

/// The water surface of a chunk: the cells whose top shows, and two triangles
/// per cell over the four corners of its top quad.
pub struct WaterSurface {
    pub cells: Vec<(u32, u32, u32)>,
    pub indices: Vec<u32>,
}

/// `cells` and `indices` draw the tops of the water cells `tops`, in order.
pub open spec fn water_surface_of(tops: Seq<int>, cells: Seq<(u32, u32, u32)>, indices: Seq<u32>) -> bool {
    &&& cells.len() == tops.len()
    &&& indices.len() == 6 * tops.len()
    &&& forall|k: int|
        0 <= k < cells.len() ==> #[trigger] cells[k] == (
            cell_x(tops[k]) as u32,
            cell_y(tops[k]) as u32,
            cell_z(tops[k]) as u32,
        )
    &&& forall|j: int|
        0 <= j < indices.len() ==> #[trigger] indices[j] == quad_index(false, 4 * (j / 6), j % 6)
}

proof fn lemma_water_tops_len(s: Seq<BlockType>, n: nat)
    ensures
        water_tops(s, n).len() <= n,
    decreases n,
{
    if n > 0 {
        lemma_water_tops_len(s, (n - 1) as nat);
    }
}

/// The water cells of a chunk whose top shows, scanned layer by layer, row by row.
pub fn water_surface(chunk: &Chunk) -> (w: WaterSurface)
    ensures
        water_surface_of(water_tops(chunk@, CHUNK_VOLUME as nat), w.cells@, w.indices@),
{
    proof {
        use_type_invariant(chunk);
    }
    let ghost s = chunk@;
    let mut cells: Vec<(u32, u32, u32)> = Vec::new();
    let mut indices: Vec<u32> = Vec::new();
    let mut y: usize = 0;
    while y < CHUNK_HEIGHT
        invariant
            y <= CHUNK_HEIGHT,
            s == chunk@,
            s.len() == CHUNK_VOLUME,
            water_surface_of(water_tops(s, (y * 256) as nat), cells@, indices@),
        decreases CHUNK_HEIGHT - y,
    {
        let mut z: usize = 0;
        while z < CHUNK_SIZE
            invariant
                y < CHUNK_HEIGHT,
                z <= CHUNK_SIZE,
                s == chunk@,
                s.len() == CHUNK_VOLUME,
                water_surface_of(water_tops(s, (z * 16 + y * 256) as nat), cells@, indices@),
            decreases CHUNK_SIZE - z,
        {
            let mut x: usize = 0;
            while x < CHUNK_SIZE
                invariant
                    y < CHUNK_HEIGHT,
                    z < CHUNK_SIZE,
                    x <= CHUNK_SIZE,
                    s == chunk@,
                    s.len() == CHUNK_VOLUME,
                    water_surface_of(
                        water_tops(s, cell_index(x as int, y as int, z as int) as nat),
                        cells@,
                        indices@,
                    ),
                decreases CHUNK_SIZE - x,
            {
                proof {
                    lemma_cell_coords(x as int, y as int, z as int);
                    lemma_water_tops_len(s, cell_index(x as int, y as int, z as int) as nat);
                }
                let ghost i = cell_index(x as int, y as int, z as int);
                if chunk.get(x, y, z) == BlockType::Water {
                    let above_air = if y + 1 >= CHUNK_HEIGHT {
                        true
                    } else {
                        proof {
                            lemma_cell_coords(x as int, (y + 1) as int, z as int);
                        }
                        chunk.get(x, y + 1, z) == BlockType::Air
                    };
                    if above_air {
                        let ghost old_c = cells@;
                        let ghost old_i = indices@;
                        let base = (cells.len() * 4) as u32;
                        cells.push((x as u32, y as u32, z as u32));
                        indices.push(base);
                        indices.push(base + 1);
                        indices.push(base + 2);
                        indices.push(base);
                        indices.push(base + 2);
                        indices.push(base + 3);
                        proof {
                            let q = old_c.len() as int;
                            let tops = water_tops(s, (i + 1) as nat);
                            assert(tops == water_tops(s, i as nat).push(i));
                            assert forall|j: int| 0 <= j < indices@.len() implies #[trigger] indices@[j]
                                == quad_index(false, 4 * (j / 6), j % 6) by {
                                if j < 6 * q {
                                    assert(indices@[j] == old_i[j]);
                                } else {
                                    vstd::arithmetic::div_mod::lemma_fundamental_div_mod_converse(
                                        j,
                                        6,
                                        q,
                                        j - 6 * q,
                                    );
                                }
                            }
                            assert(water_surface_of(tops, cells@, indices@));
                        }
                    }
                }
                x = x + 1;
            }
            z = z + 1;
        }
        y = y + 1;
    }
    WaterSurface { cells, indices }
}

/// A position lies among the first `n` water tops exactly when it is below
/// `n` and its water shows a surface.
proof fn lemma_water_tops_contains(s: Seq<BlockType>, n: nat, i: int)
    ensures
        water_tops(s, n).contains(i) <==> (0 <= i < n && water_top(s, i)),
    decreases n,
{
    if n > 0 {
        let prev = water_tops(s, (n - 1) as nat);
        lemma_water_tops_contains(s, (n - 1) as nat, i);
        if water_top(s, n - 1) {
            let cur = prev.push(n - 1);
            assert(cur[prev.len() as int] == n - 1);
            if cur.contains(i) {
                let k = choose|k: int| 0 <= k < cur.len() && cur[k] == i;
                if k < prev.len() {
                    assert(prev[k] == i);
                }
            }
            if prev.contains(i) {
                let k = choose|k: int| 0 <= k < prev.len() && prev[k] == i;
                assert(cur[k] == i);
            }
        }
    }
}

/// The water surface that `water_surface` gives holds the cell (x, y, z)
/// exactly when that cell holds water and the cell above it is air or lies
/// above the chunk.
pub proof fn lemma_water_surface_cells(
    s: Seq<BlockType>,
    cells: Seq<(u32, u32, u32)>,
    indices: Seq<u32>,
    x: int,
    y: int,
    z: int,
)
    requires
        s.len() == CHUNK_VOLUME,
        spec_in_bounds(x, y, z),
        water_surface_of(water_tops(s, CHUNK_VOLUME as nat), cells, indices),
    ensures
        cells.contains((x as u32, y as u32, z as u32)) <==> (s[cell_index(x, y, z)] == BlockType::Water
            && (y == 127 || s[cell_index(x, y + 1, z)] == BlockType::Air)),
{
    let tops = water_tops(s, CHUNK_VOLUME as nat);
    let i = cell_index(x, y, z);
    lemma_cell_coords(x, y, z);
    if y < 127 {
        lemma_cell_coords(x, y + 1, z);
    }
    lemma_water_tops_contains(s, CHUNK_VOLUME as nat, i);
    if cells.contains((x as u32, y as u32, z as u32)) {
        let k = choose|k: int| 0 <= k < cells.len() && cells[k] == (x as u32, y as u32, z as u32);
        let t = tops[k];
        lemma_water_tops_contains(s, CHUNK_VOLUME as nat, t);
        assert(tops.contains(t));
        lemma_cell_reconstruct(t);
        assert(cells[k] == (cell_x(t) as u32, cell_y(t) as u32, cell_z(t) as u32));
        assert(t == i);
    }
    if tops.contains(i) {
        let k = choose|k: int| 0 <= k < tops.len() && tops[k] == i;
        assert(cells[k] == (cell_x(i) as u32, cell_y(i) as u32, cell_z(i) as u32));
    }
}

} // verus!
