use vstd::prelude::*;

use crate::block::BlockType;
use crate::chunk::{ChunkCoord, LocalPos, locate, spec_locate};
use crate::protocol::{BlockUpdateEntry, ServerPacket, ServerMsg};

verus! {

/// A world cell as a chunk and a place inside it.
pub type BlockKey = (ChunkCoord, u8, u8, u8);

/// The cell that an update is about.
pub open spec fn entry_key(e: BlockUpdateEntry) -> BlockKey {
    (e.coord, e.lx, e.ly, e.lz)
}

/// No cell appears twice in a list of updates.
pub open spec fn keys_unique(s: Seq<BlockUpdateEntry>) -> bool {
    forall|i: int, j: int|
        0 <= i < s.len() && 0 <= j < s.len() && i != j ==> entry_key(#[trigger] s[i])
            != entry_key(#[trigger] s[j])
}

/// A list of updates read as a map from cells to blocks (later entries win).
pub open spec fn entries_map(s: Seq<BlockUpdateEntry>) -> Map<BlockKey, BlockType>
    decreases s.len(),
{
    if s.len() == 0 {
        Map::empty()
    } else {
        entries_map(s.drop_last()).insert(entry_key(s.last()), s.last().block)
    }
}

/// The map of a list of updates holds exactly the cells of its entries, each
/// with the block its entry gives when no cell appears twice.
pub proof fn lemma_entries_map(s: Seq<BlockUpdateEntry>)
    requires
        keys_unique(s),
    ensures
        forall|k: BlockKey|
            entries_map(s).contains_key(k) <==> exists|i: int|
                0 <= i < s.len() && entry_key(#[trigger] s[i]) == k,
        forall|i: int| 0 <= i < s.len() ==> entries_map(s)[entry_key(#[trigger] s[i])] == s[i].block,
        entries_map(s).dom().finite(),
        entries_map(s).dom().len() == s.len(),
    decreases s.len(),
{
    if s.len() > 0 {
        let p = s.drop_last();
        assert(keys_unique(p));
        lemma_entries_map(p);
        let k = entry_key(s.last());
        assert forall|kk: BlockKey|
            entries_map(s).contains_key(kk) <==> exists|i: int|
                0 <= i < s.len() && entry_key(#[trigger] s[i]) == kk by {
            if entries_map(s).contains_key(kk) && kk != k {
                let i = choose|i: int| 0 <= i < p.len() && entry_key(#[trigger] p[i]) == kk;
                assert(s[i] == p[i]);
            }
            if exists|i: int| 0 <= i < s.len() && entry_key(#[trigger] s[i]) == kk {
                let i = choose|i: int| 0 <= i < s.len() && entry_key(#[trigger] s[i]) == kk;
                if i < p.len() {
                    assert(p[i] == s[i]);
                }
            }
        }
        assert forall|i: int| 0 <= i < s.len() implies entries_map(s)[entry_key(#[trigger] s[i])]
            == s[i].block by {
            if i < p.len() {
                assert(p[i] == s[i]);
                assert(entry_key(s[i]) != k);
            }
        }
        assert(!entries_map(p).contains_key(k)) by {
            if entries_map(p).contains_key(k) {
                let i = choose|i: int| 0 <= i < p.len() && entry_key(#[trigger] p[i]) == k;
                assert(p[i] == s[i]);
                assert(entry_key(s[i]) == entry_key(s[s.len() - 1]));
            }
        }
    }
}

/// Rewriting the block of an entry in place is a map insert of its cell.
proof fn lemma_entries_map_update(s: Seq<BlockUpdateEntry>, i: int, e: BlockUpdateEntry)
    requires
        keys_unique(s),
        0 <= i < s.len(),
        entry_key(s[i]) == entry_key(e),
    ensures
        keys_unique(s.update(i, e)),
        entries_map(s.update(i, e)) == entries_map(s).insert(entry_key(e), e.block),
    decreases s.len(),
{
    let t = s.update(i, e);
    assert(keys_unique(t)) by {
        assert forall|a: int, b: int|
            0 <= a < t.len() && 0 <= b < t.len() && a != b implies entry_key(#[trigger] t[a])
            != entry_key(#[trigger] t[b]) by {
            assert(entry_key(t[a]) == entry_key(s[a]));
            assert(entry_key(t[b]) == entry_key(s[b]));
        }
    }
    let p = s.drop_last();
    if i == s.len() - 1 {
        assert(t.drop_last() =~= p);
        assert(entries_map(t) =~= entries_map(p).insert(entry_key(e), e.block));
        assert(entries_map(s).insert(entry_key(e), e.block) =~= entries_map(p).insert(
            entry_key(e),
            e.block,
        ));
    } else {
        assert(keys_unique(p));
        lemma_entries_map_update(p, i, e);
        assert(t.drop_last() =~= p.update(i, e));
        assert(entry_key(s.last()) != entry_key(e)) by {
            assert(entry_key(s[s.len() - 1]) != entry_key(s[i]));
        }
        assert(entries_map(t) =~= entries_map(s).insert(entry_key(e), e.block));
    }
}

/// Some entry of the list is about cell `k`.
pub open spec fn has_key(s: Seq<BlockUpdateEntry>, k: BlockKey) -> bool {
    exists|i: int| 0 <= i < s.len() && entry_key(#[trigger] s[i]) == k
}

/// An entry of the list about cell `k` (the only one when no cell appears twice).
pub open spec fn key_index(s: Seq<BlockUpdateEntry>, k: BlockKey) -> int {
    choose|i: int| 0 <= i < s.len() && entry_key(#[trigger] s[i]) == k
}

/// The list of updates after recording `e`: an entry about the same cell is
/// overwritten in place, otherwise `e` goes at the end.
pub open spec fn entries_insert(s: Seq<BlockUpdateEntry>, e: BlockUpdateEntry) -> Seq<BlockUpdateEntry> {
    if has_key(s, entry_key(e)) {
        s.update(key_index(s, entry_key(e)), e)
    } else {
        s.push(e)
    }
}

/// Recording an update is, read as a map, a map insert of its cell.
pub proof fn lemma_entries_insert(s: Seq<BlockUpdateEntry>, e: BlockUpdateEntry)
    requires
        keys_unique(s),
    ensures
        keys_unique(entries_insert(s, e)),
        entries_map(entries_insert(s, e)) == entries_map(s).insert(entry_key(e), e.block),
{
    if has_key(s, entry_key(e)) {
        lemma_entries_map_update(s, key_index(s, entry_key(e)), e);
    } else {
        let t = s.push(e);
        assert(t.drop_last() =~= s);
        assert(keys_unique(t)) by {
            assert forall|a: int, b: int|
                0 <= a < t.len() && 0 <= b < t.len() && a != b implies entry_key(#[trigger] t[a])
                != entry_key(#[trigger] t[b]) by {
                if a < s.len() {
                    assert(t[a] == s[a]);
                }
                if b < s.len() {
                    assert(t[b] == s[b]);
                }
            }
        }
    }
}

/// The block changes made on top of the generated terrain, at most one per cell.
pub struct BlockDeltas {
    entries: Vec<BlockUpdateEntry>,
}

impl View for BlockDeltas {
    type V = Map<BlockKey, BlockType>;

    closed spec fn view(&self) -> Map<BlockKey, BlockType> {
        entries_map(self.entries@)
    }
}

impl BlockDeltas {
    /// No cell appears twice among the changes.
    pub closed spec fn wf(&self) -> bool {
        keys_unique(self.entries@)
    }

    /// The changes in the order in which their cells were first changed.
    pub closed spec fn entries(&self) -> Seq<BlockUpdateEntry> {
        self.entries@
    }

    /// The changes read as a map are the map of the list of changes.
    pub proof fn lemma_view(&self)
        ensures
            self@ == entries_map(self.entries()),
    {
    }

    /// A well-formed list of changes holds each cell once.
    pub proof fn lemma_unique(&self)
        requires
            self.wf(),
        ensures
            keys_unique(self.entries()),
    {
    }

    /// No changes.
    pub fn new() -> (d: BlockDeltas)
        ensures
            d.wf(),
            d@ == Map::<BlockKey, BlockType>::empty(),
            d.entries() == Seq::<BlockUpdateEntry>::empty(),
    {
        BlockDeltas { entries: Vec::new() }
    }

    /// Records that cell `key` now holds `block`.
    pub fn insert(&mut self, entry: BlockUpdateEntry)
        requires
            old(self).wf(),
        ensures
            final(self).wf(),
            final(self)@ == old(self)@.insert(entry_key(entry), entry.block),
            final(self).entries() == entries_insert(old(self).entries(), entry),
    {
        let mut i: usize = 0;
        let n = self.entries.len();
        while i < n
            invariant
                i <= n,
                n == self.entries@.len(),
                self.entries@ == old(self).entries@,
                keys_unique(self.entries@),
                forall|j: int| 0 <= j < i ==> entry_key(#[trigger] self.entries@[j]) != entry_key(entry),
            decreases n - i,
        {
            let e = self.entries[i];
            if e.coord == entry.coord && e.lx == entry.lx && e.ly == entry.ly && e.lz == entry.lz {
                let ghost s = self.entries@;
                proof {
                    assert(entry_key(s[i as int]) == entry_key(entry));
                    lemma_entries_map_update(s, i as int, entry);
                    assert(has_key(s, entry_key(entry)));
                    let k = key_index(s, entry_key(entry));
                    assert(k == i) by {
                        if k != i {
                            assert(entry_key(s[k]) != entry_key(s[i as int]));
                        }
                    }
                }
                self.entries.set(i, entry);
                assert(self.entries@ == s.update(i as int, entry));
                return;
            }
            i = i + 1;
        }
        let ghost s = self.entries@;
        self.entries.push(entry);
        let ghost entries = self.entries;
        proof {
            assert(entries@.drop_last() =~= s);
            assert(entries@.last() == entry);
            assert(!has_key(s, entry_key(entry)));
            assert(entries_map(entries@) == entries_map(s).insert(entry_key(entry), entry.block));
            assert(keys_unique(entries@)) by {
                assert forall|a: int, b: int|
                    0 <= a < entries@.len() && 0 <= b < entries@.len() && a != b implies entry_key(
                    #[trigger] entries@[a],
                ) != entry_key(#[trigger] entries@[b]) by {
                    if a < s.len() && b < s.len() {
                        assert(entries@[a] == s[a]);
                        assert(entries@[b] == s[b]);
                    } else if a < s.len() {
                        assert(entries@[a] == s[a]);
                    } else {
                        assert(entries@[b] == s[b]);
                    }
                }
            }
        }
    }

    /// All changes, in the order in which their cells were first changed.
    pub fn to_vec(&self) -> (v: Vec<BlockUpdateEntry>)
        requires
            self.wf(),
        ensures
            v@ == self.entries(),
            keys_unique(v@),
            entries_map(v@) == self@,
    {
        let mut v: Vec<BlockUpdateEntry> = Vec::new();
        let mut i: usize = 0;
        while i < self.entries.len()
            invariant
                i <= self.entries@.len(),
                v@ == self.entries@.subrange(0, i as int),
            decreases self.entries@.len() - i,
        {
            v.push(self.entries[i]);
            i = i + 1;
        }
        assert(v@ =~= self.entries@);
        v
    }
}

/// The cell of a located position.
pub open spec fn local_key(p: LocalPos) -> BlockKey {
    (p.coord, p.lx, p.ly, p.lz)
}

/// The update that sets the cell at `p` to `block`.
pub open spec fn update_at(p: LocalPos, block: BlockType) -> BlockUpdateEntry {
    BlockUpdateEntry { coord: p.coord, lx: p.lx, ly: p.ly, lz: p.lz, block }
}

/// The changes `m` after setting world cell (wx, wy, wz) to `block`: cells
/// outside the world's height are refused and change nothing.
pub open spec fn set_result(m: Map<BlockKey, BlockType>, wx: int, wy: int, wz: int, block: BlockType) -> Map<
    BlockKey,
    BlockType,
> {
    match spec_locate(wx, wy, wz) {
        Some(p) => m.insert(local_key(p), block),
        None => m,
    }
}

/// The list of changes `s` after setting world cell (wx, wy, wz) to `block`.
pub open spec fn set_entries(s: Seq<BlockUpdateEntry>, wx: int, wy: int, wz: int, block: BlockType) -> Seq<
    BlockUpdateEntry,
> {
    match spec_locate(wx, wy, wz) {
        Some(p) => entries_insert(s, update_at(p, block)),
        None => s,
    }
}

/// A write is read back: after setting a cell inside the world's height, the
/// changes give that cell the block written and leave every other cell as it was.
pub proof fn lemma_set_then_read(
    m: Map<BlockKey, BlockType>,
    wx: int,
    wy: int,
    wz: int,
    block: BlockType,
    other: BlockKey,
)
    requires
        spec_locate(wx, wy, wz) is Some,
    ensures
        set_result(m, wx, wy, wz, block)[local_key(spec_locate(wx, wy, wz).unwrap())] == block,
        other != local_key(spec_locate(wx, wy, wz).unwrap()) ==> (set_result(
            m,
            wx,
            wy,
            wz,
            block,
        ).contains_key(other) == m.contains_key(other) && set_result(m, wx, wy, wz, block)[other]
            == m[other]),
{
}

/// The server's world: its seed, and the block changes players made on top
/// of the terrain that the seed generates.
pub struct World {
    pub seed: u32,
    pub deltas: BlockDeltas,
}

impl World {
    pub open spec fn wf(&self) -> bool {
        self.deltas.wf()
    }

    /// A world with no changes.
    pub fn new(seed: u32) -> (w: World)
        ensures
            w.wf(),
            w.seed == seed,
            w.deltas@ == Map::<BlockKey, BlockType>::empty(),
            w.deltas.entries() == Seq::<BlockUpdateEntry>::empty(),
    {
        World { seed, deltas: BlockDeltas::new() }
    }

    /// Sets world cell (wx, wy, wz) to `block` and returns the update to send,
    /// or `None` when the cell lies outside the world's height.
    pub fn apply_set(&mut self, wx: i32, wy: i32, wz: i32, block: BlockType) -> (r: Option<
        BlockUpdateEntry,
    >)
        requires
            old(self).wf(),
        ensures
            final(self).wf(),
            final(self).seed == old(self).seed,
            final(self).deltas@ == set_result(old(self).deltas@, wx as int, wy as int, wz as int, block),
            final(self).deltas.entries() == set_entries(
                old(self).deltas.entries(),
                wx as int,
                wy as int,
                wz as int,
                block,
            ),
            r == (match spec_locate(wx as int, wy as int, wz as int) {
                Some(p) => Some(update_at(p, block)),
                None => None,
            }),
    {
        match locate(wx, wy, wz) {
            None => None,
            Some(p) => {
                let entry = BlockUpdateEntry { coord: p.coord, lx: p.lx, ly: p.ly, lz: p.lz, block };
                self.deltas.insert(entry);
                Some(entry)
            },
        }
    }

    /// Turns world cell (wx, wy, wz) into air.
    pub fn apply_break(&mut self, wx: i32, wy: i32, wz: i32) -> (r: Option<BlockUpdateEntry>)
        requires
            old(self).wf(),
        ensures
            final(self).wf(),
            final(self).seed == old(self).seed,
            final(self).deltas@ == set_result(
                old(self).deltas@,
                wx as int,
                wy as int,
                wz as int,
                BlockType::Air,
            ),
            final(self).deltas.entries() == set_entries(
                old(self).deltas.entries(),
                wx as int,
                wy as int,
                wz as int,
                BlockType::Air,
            ),
            r == (match spec_locate(wx as int, wy as int, wz as int) {
                Some(p) => Some(update_at(p, BlockType::Air)),
                None => None,
            }),
    {
        self.apply_set(wx, wy, wz, BlockType::Air)
    }

    /// Puts `block` in world cell (wx, wy, wz).
    pub fn apply_place(&mut self, wx: i32, wy: i32, wz: i32, block: BlockType) -> (r: Option<
        BlockUpdateEntry,
    >)
        requires
            old(self).wf(),
        ensures
            final(self).wf(),
            final(self).seed == old(self).seed,
            final(self).deltas@ == set_result(old(self).deltas@, wx as int, wy as int, wz as int, block),
            final(self).deltas.entries() == set_entries(
                old(self).deltas.entries(),
                wx as int,
                wy as int,
                wz as int,
                block,
            ),
            r == (match spec_locate(wx as int, wy as int, wz as int) {
                Some(p) => Some(update_at(p, block)),
                None => None,
            }),
    {
        self.apply_set(wx, wy, wz, block)
    }

    /// Every change so far, as one batch for a client that has just become ready:
    /// each changed cell exactly once, with its latest block.
    pub fn initial_batch(&self) -> (p: ServerPacket)
        requires
            self.wf(),
        ensures
            p@ == (ServerMsg::BlockBatch { updates: self.deltas.entries() }),
            keys_unique(self.deltas.entries()),
            entries_map(self.deltas.entries()) == self.deltas@,
    {
        ServerPacket::BlockBatch { updates: self.deltas.to_vec() }
    }
}

} // verus!
