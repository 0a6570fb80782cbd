use vstd::prelude::*;

use crate::block::{BlockType, HOTBAR_TYPES};
use crate::chunk::CHUNK_HEIGHT;
use crate::protocol::ClientPacket;

verus! {

/// Number of hotbar slots.
pub const HOTBAR_LEN: usize = 8;

/// Block held by hotbar slot `k` (for `k` below 8).
pub open spec fn hotbar_type(k: int) -> BlockType {
    if k == 0 {
        BlockType::Grass
    } else if k == 1 {
        BlockType::Dirt
    } else if k == 2 {
        BlockType::Stone
    } else if k == 3 {
        BlockType::Sand
    } else if k == 4 {
        BlockType::Wood
    } else if k == 5 {
        BlockType::Leaves
    } else if k == 6 {
        BlockType::Water
    } else {
        BlockType::Stone
    }
}

/// The first hotbar slot that holds `b`, or -1 for a block the hotbar lacks (air).
pub open spec fn hotbar_slot(b: BlockType) -> int {
    match b {
        BlockType::Grass => 0,
        BlockType::Dirt => 1,
        BlockType::Stone => 2,
        BlockType::Sand => 3,
        BlockType::Wood => 4,
        BlockType::Leaves => 5,
        BlockType::Water => 6,
        BlockType::Air => -1,
    }
}

/// The slot counts after gaining one `b` (counts stop at `u32::MAX`).
pub open spec fn counts_after_add(c: Seq<u32>, b: BlockType) -> Seq<u32> {
    if hotbar_slot(b) >= 0 {
        let k = hotbar_slot(b);
        c.update(k, if c[k] == u32::MAX { u32::MAX } else { (c[k] + 1) as u32 })
    } else {
        c
    }
}

/// The slot counts after spending one `b` (counts stop at 0).
pub open spec fn counts_after_remove(c: Seq<u32>, b: BlockType) -> Seq<u32> {
    if hotbar_slot(b) >= 0 {
        let k = hotbar_slot(b);
        c.update(k, if c[k] == 0 { 0 } else { (c[k] - 1) as u32 })
    } else {
        c
    }
}

/// The selected slot after a wheel move whose sign is `delta`: up selects the
/// previous slot, down the next, both wrapping around.
pub open spec fn slot_after_scroll(slot: int, delta: i32) -> int {
    if delta > 0 {
        (slot + 8 - 1) % 8
    } else if delta < 0 {
        (slot + 1) % 8
    } else {
        slot
    }
}

/// The player's hotbar: the selected slot and how many blocks each slot holds.
pub struct Inventory {
    pub selected_slot: usize,
    pub counts: [u32; 8],
}

impl Inventory {
    /// How many blocks each slot holds.
    pub open spec fn counts(&self) -> Seq<u32> {
        self.counts@
    }

    /// Full stacks of 64 in every slot, the first slot selected.
    pub fn new() -> (inv: Inventory)
        ensures
            inv.selected_slot == 0,
            inv.counts() == Seq::new(8, |k: int| 64u32),
    {
        let inv = Inventory { selected_slot: 0, counts: [64; 8] };
        assert(inv.counts() =~= Seq::new(8, |k: int| 64u32));
        inv
    }

    /// The block of the selected slot.
    pub fn selected_block(&self) -> (b: BlockType)
        ensures
            b == hotbar_type(self.selected_slot as int % 8),
    {
        let b = HOTBAR_TYPES[self.selected_slot % HOTBAR_TYPES.len()];
        b
    }

    /// First slot that holds `block`, if any.
    fn slot_of(block: BlockType) -> (r: Option<usize>)
        ensures
            match r {
                Some(k) => k == hotbar_slot(block) && k < 8,
                None => hotbar_slot(block) < 0,
            },
    {
        let mut k: usize = 0;
        while k < HOTBAR_TYPES.len()
            invariant
                k <= 8,
                forall|j: int| 0 <= j < k ==> hotbar_type(j) != block,
            decreases 8 - k,
        {
            assert(HOTBAR_TYPES[k as int] == hotbar_type(k as int));
            if HOTBAR_TYPES[k] == block {
                proof {
                    assert(hotbar_slot(hotbar_type(k as int)) <= k);
                    assert(hotbar_type(hotbar_slot(block)) == block);
                }
                return Some(k);
            }
            k = k + 1;
        }
        proof {
            if hotbar_slot(block) >= 0 {
                assert(hotbar_type(hotbar_slot(block)) == block);
            }
        }
        None
    }

    /// How many `block` the player holds: the count of its first slot, 0 for
    /// a block the hotbar lacks.
    pub fn count(&self, block: BlockType) -> (n: u32)
        ensures
            n == (if hotbar_slot(block) >= 0 {
                self.counts()[hotbar_slot(block)]
            } else {
                0
            }),
    {
        match Self::slot_of(block) {
            Some(k) => self.counts[k],
            None => 0,
        }
    }

    /// Gains one `block`.
    pub fn add(&mut self, block: BlockType)
        ensures
            final(self).selected_slot == old(self).selected_slot,
            final(self).counts() == counts_after_add(old(self).counts(), block),
    {
        if let Some(k) = Self::slot_of(block) {
            self.counts[k] = self.counts[k].saturating_add(1);
        }
    }

    /// Spends one `block`.
    pub fn remove(&mut self, block: BlockType)
        ensures
            final(self).selected_slot == old(self).selected_slot,
            final(self).counts() == counts_after_remove(old(self).counts(), block),
    {
        if let Some(k) = Self::slot_of(block) {
            self.counts[k] = self.counts[k].saturating_sub(1);
        }
    }

    /// How many blocks slot `slot` (taken modulo 8) holds.
    pub fn slot_count(&self, slot: usize) -> (n: u32)
        ensures
            n == self.counts()[slot as int % 8],
    {
        self.counts[slot % HOTBAR_TYPES.len()]
    }

    /// Moves the selection for a wheel move whose sign is `delta`.
    pub fn scroll(&mut self, delta: i32)
        requires
            delta > 0 ==> old(self).selected_slot + 8 <= usize::MAX,
            delta < 0 ==> old(self).selected_slot + 1 <= usize::MAX,
        ensures
            final(self).selected_slot == slot_after_scroll(old(self).selected_slot as int, delta),
            final(self).counts() == old(self).counts(),
    {
        let len = HOTBAR_TYPES.len();
        if delta > 0 {
            self.selected_slot = (self.selected_slot + len - 1) % len;
        } else if delta < 0 {
            self.selected_slot = (self.selected_slot + 1) % len;
        }
    }
}

/// The packet that places the selected block at world cell (bx, by, bz), when
/// the cell lies within the world's height and the player holds one; the block
/// is then spent.
pub fn place_request(inv: &mut Inventory, bx: i32, by: i32, bz: i32) -> (r: Option<ClientPacket>)
    ensures
        final(inv).selected_slot == old(inv).selected_slot,
        ({
            let b = hotbar_type(old(inv).selected_slot as int % 8);
            let held = if hotbar_slot(b) >= 0 {
                old(inv).counts()[hotbar_slot(b)]
            } else {
                0
            };
            if 0 <= by < 128 && held != 0 {
                &&& r == Some(ClientPacket::PlaceBlock { wx: bx, wy: by, wz: bz, block: b })
                &&& final(inv).counts() == counts_after_remove(old(inv).counts(), b)
            } else {
                &&& r is None
                &&& final(inv).counts() == old(inv).counts()
            }
        }),
{
    if by < 0 || by >= CHUNK_HEIGHT as i32 {
        return None;
    }
    let block = inv.selected_block();
    if inv.count(block) == 0 {
        return None;
    }
    inv.remove(block);
    Some(ClientPacket::PlaceBlock { wx: bx, wy: by, wz: bz, block })
}

/// A finished break of `block` at world cell (wx, wy, wz): the player gains
/// the block and the server is asked to break it.
pub fn break_request(inv: &mut Inventory, wx: i32, wy: i32, wz: i32, block: BlockType) -> (r: ClientPacket)
    ensures
        final(inv).selected_slot == old(inv).selected_slot,
        final(inv).counts() == counts_after_add(old(inv).counts(), block),
        r == (ClientPacket::BreakBlock { wx, wy, wz }),
{
    inv.add(block);
    ClientPacket::BreakBlock { wx, wy, wz }
}

/// Gaining a block and then spending it gives the hotbar back, unless its
/// stack was full.
pub proof fn lemma_add_then_remove(c: Seq<u32>, b: BlockType)
    requires
        c.len() == 8,
        hotbar_slot(b) >= 0 ==> c[hotbar_slot(b)] < u32::MAX,
    ensures
        counts_after_remove(counts_after_add(c, b), b) == c,
{
    assert(counts_after_remove(counts_after_add(c, b), b) =~= c);
}

/// Spending a block and then gaining it gives the hotbar back, unless its
/// stack was empty.
pub proof fn lemma_remove_then_add(c: Seq<u32>, b: BlockType)
    requires
        c.len() == 8,
        hotbar_slot(b) >= 0 ==> c[hotbar_slot(b)] > 0,
    ensures
        counts_after_add(counts_after_remove(c, b), b) == c,
{
    assert(counts_after_add(counts_after_remove(c, b), b) =~= c);
}

/// Scrolling up and then down (or down and then up) comes back to the same slot.
pub proof fn lemma_scroll_round_trip(slot: int, delta: i32)
    requires
        0 <= slot < 8,
        delta != 0,
    ensures
        slot_after_scroll(
            slot_after_scroll(slot, delta),
            if delta > 0 {
                -1i32
            } else {
                1i32
            },
        ) == slot,
        0 <= slot_after_scroll(slot, delta) < 8,
{
}

/// Every slot reached by scrolling lies on the hotbar.
pub proof fn lemma_scroll_stays_on_hotbar(slot: int, delta: i32)
    requires
        0 <= slot,
    ensures
        delta != 0 ==> 0 <= slot_after_scroll(slot, delta) < 8,
{
}

/// A block on the hotbar is counted, gained and spent in the first slot of
/// `HOTBAR_TYPES` that holds it: gaining adds one there (stopping at
/// `u32::MAX`), spending takes one away (stopping at 0), and no other slot
/// changes.
pub proof fn lemma_block_uses_its_first_slot(c: Seq<u32>, b: BlockType, k: int)
    requires
        c.len() == 8,
        0 <= k < 8,
        HOTBAR_TYPES[k] == b,
        forall|j: int| 0 <= j < k ==> HOTBAR_TYPES[j] != b,
    ensures
        hotbar_slot(b) == k,
        counts_after_add(c, b)[k] == (if c[k] == u32::MAX {
            u32::MAX
        } else {
            (c[k] + 1) as u32
        }),
        counts_after_remove(c, b)[k] == (if c[k] == 0 {
            0
        } else {
            (c[k] - 1) as u32
        }),
        forall|j: int|
            0 <= j < 8 && j != k ==> #[trigger] counts_after_add(c, b)[j] == c[j]
                && counts_after_remove(c, b)[j] == c[j],
        counts_after_add(c, b).len() == 8,
        counts_after_remove(c, b).len() == 8,
{
    assert(HOTBAR_TYPES[0] == BlockType::Grass);
    assert(HOTBAR_TYPES[1] == BlockType::Dirt);
    assert(HOTBAR_TYPES[2] == BlockType::Stone);
    assert(HOTBAR_TYPES[3] == BlockType::Sand);
    assert(HOTBAR_TYPES[4] == BlockType::Wood);
    assert(HOTBAR_TYPES[5] == BlockType::Leaves);
    assert(HOTBAR_TYPES[6] == BlockType::Water);
    assert(HOTBAR_TYPES[7] == BlockType::Stone);
}

/// A block that no hotbar slot holds (air) is never counted, gained or spent.
pub proof fn lemma_block_off_hotbar(c: Seq<u32>, b: BlockType)
    requires
        c.len() == 8,
        forall|j: int| 0 <= j < 8 ==> HOTBAR_TYPES[j] != b,
    ensures
        hotbar_slot(b) < 0,
        counts_after_add(c, b) == c,
        counts_after_remove(c, b) == c,
{
    assert(HOTBAR_TYPES[0] == BlockType::Grass);
    assert(HOTBAR_TYPES[1] == BlockType::Dirt);
    assert(HOTBAR_TYPES[2] == BlockType::Stone);
    assert(HOTBAR_TYPES[3] == BlockType::Sand);
    assert(HOTBAR_TYPES[4] == BlockType::Wood);
    assert(HOTBAR_TYPES[5] == BlockType::Leaves);
    assert(HOTBAR_TYPES[6] == BlockType::Water);
}

} // verus!
