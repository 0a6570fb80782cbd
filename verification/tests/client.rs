use stu_minecraft::block::BlockType;
use stu_minecraft::chat::{ChatAction, ChatKey, ChatTypingContent};
use stu_minecraft::chunk::{Chunk, ChunkCoord};
use stu_minecraft::inventory::{break_request, place_request, Inventory};
use stu_minecraft::lookup::{block_at_world, is_solid_at, ray_hits};
use stu_minecraft::net::{handle_server_packet, NetEvent};
use stu_minecraft::protocol::{BlockUpdateEntry, ClientPacket, ServerPacket};

// ── Inventory ────────────────────────────────────────────────────────────────

#[test]
fn new_inventory_is_full() {
    let inv = Inventory::new();
    assert_eq!(inv.selected_slot, 0);
    assert_eq!(inv.selected_block(), BlockType::Grass);
    for s in 0..8 {
        assert_eq!(inv.slot_count(s), 64);
    }
    assert_eq!(inv.count(BlockType::Stone), 64);
    assert_eq!(inv.count(BlockType::Air), 0);
}

#[test]
fn add_and_remove_use_the_first_slot() {
    let mut inv = Inventory::new();
    inv.add(BlockType::Stone);
    assert_eq!(inv.slot_count(2), 65);
    assert_eq!(inv.slot_count(7), 64);
    inv.remove(BlockType::Stone);
    inv.remove(BlockType::Stone);
    assert_eq!(inv.count(BlockType::Stone), 63);
    inv.add(BlockType::Air);
    inv.remove(BlockType::Air);
    assert_eq!(inv.count(BlockType::Air), 0);
}

#[test]
fn counts_saturate() {
    let mut inv = Inventory::new();
    for _ in 0..70 {
        inv.remove(BlockType::Dirt);
    }
    assert_eq!(inv.count(BlockType::Dirt), 0);
    inv.counts[0] = u32::MAX;
    inv.add(BlockType::Grass);
    assert_eq!(inv.count(BlockType::Grass), u32::MAX);
}

#[test]
fn add_then_remove_gives_back() {
    let mut inv = Inventory::new();
    let before = inv.counts;
    inv.add(BlockType::Leaves);
    inv.remove(BlockType::Leaves);
    assert_eq!(inv.counts, before);
}

#[test]
fn slot_count_wraps() {
    let mut inv = Inventory::new();
    inv.remove(BlockType::Grass);
    assert_eq!(inv.slot_count(8), 63);
    assert_eq!(inv.slot_count(16), 63);
}

#[test]
fn scroll_wraps_both_ways() {
    let mut inv = Inventory::new();
    inv.scroll(1);
    assert_eq!(inv.selected_slot, 7);
    assert_eq!(inv.selected_block(), BlockType::Stone);
    inv.scroll(-1);
    assert_eq!(inv.selected_slot, 0);
    inv.scroll(-1);
    assert_eq!(inv.selected_slot, 1);
    inv.scroll(0);
    assert_eq!(inv.selected_slot, 1);
    for _ in 0..8 {
        inv.scroll(-1);
    }
    assert_eq!(inv.selected_slot, 1);
}

#[test]
fn placing_spends_a_block() {
    let mut inv = Inventory::new();
    inv.scroll(-1);
    let pkt = place_request(&mut inv, 3, 64, -2);
    assert_eq!(pkt, Some(ClientPacket::PlaceBlock { wx: 3, wy: 64, wz: -2, block: BlockType::Dirt }));
    assert_eq!(inv.count(BlockType::Dirt), 63);
}

#[test]
fn placing_outside_height_or_empty_does_nothing() {
    let mut inv = Inventory::new();
    assert_eq!(place_request(&mut inv, 0, 128, 0), None);
    assert_eq!(place_request(&mut inv, 0, -1, 0), None);
    for _ in 0..64 {
        inv.remove(BlockType::Grass);
    }
    assert_eq!(place_request(&mut inv, 0, 10, 0), None);
    assert_eq!(inv.count(BlockType::Grass), 0);
}

#[test]
fn breaking_collects_the_block() {
    let mut inv = Inventory::new();
    let pkt = break_request(&mut inv, 1, 2, 3, BlockType::Sand);
    assert_eq!(pkt, ClientPacket::BreakBlock { wx: 1, wy: 2, wz: 3 });
    assert_eq!(inv.count(BlockType::Sand), 65);
}

// ── Chat ─────────────────────────────────────────────────────────────────────

fn typed(s: &str) -> ChatTypingContent {
    let mut c = ChatTypingContent::new();
    c.apply_key(ChatKey::Character(s.chars().collect()));
    c
}

fn shown(c: &ChatTypingContent) -> String {
    c.display().into_iter().collect()
}

#[test]
fn typing_and_sending() {
    let mut c = typed("hello");
    assert_eq!(c.cursor, 5);
    assert_eq!(shown(&c), "> hello|");
    let action = c.apply_key(ChatKey::Enter);
    assert_eq!(action, ChatAction::Send("hello".chars().collect()));
    assert!(c.chars.is_empty());
    assert_eq!(c.cursor, 0);
}

#[test]
fn blank_message_is_not_sent() {
    let mut c = typed(" \t ");
    c.apply_key(ChatKey::Space);
    assert_eq!(c.apply_key(ChatKey::Enter), ChatAction::Nothing);
    assert!(c.chars.is_empty());
}

#[test]
fn escape_clears_and_closes() {
    let mut c = typed("abc");
    assert_eq!(c.apply_key(ChatKey::Escape), ChatAction::Close);
    assert!(c.chars.is_empty());
    assert_eq!(c.cursor, 0);
}

#[test]
fn editing_keys() {
    let mut c = typed("abcd");
    c.apply_key(ChatKey::ArrowLeft);
    c.apply_key(ChatKey::ArrowLeft);
    assert_eq!(c.cursor, 2);
    assert_eq!(shown(&c), "> ab|cd");
    c.apply_key(ChatKey::Backspace);
    assert_eq!(c.chars, vec!['a', 'c', 'd']);
    c.apply_key(ChatKey::Delete);
    assert_eq!(c.chars, vec!['a', 'd']);
    c.apply_key(ChatKey::Space);
    assert_eq!(c.chars, vec!['a', ' ', 'd']);
    assert_eq!(c.cursor, 2);
    c.apply_key(ChatKey::ArrowRight);
    c.apply_key(ChatKey::ArrowRight);
    assert_eq!(c.cursor, 3);
    c.apply_key(ChatKey::Delete);
    assert_eq!(c.chars, vec!['a', ' ', 'd']);
    c.apply_key(ChatKey::Other);
    assert_eq!(c.cursor, 3);
}

#[test]
fn backspace_at_start_does_nothing() {
    let mut c = typed("ab");
    c.cursor = 0;
    c.apply_key(ChatKey::Backspace);
    assert_eq!(c.chars, vec!['a', 'b']);
    c.apply_key(ChatKey::ArrowLeft);
    assert_eq!(c.cursor, 0);
}

#[test]
fn control_characters_are_dropped() {
    let c = typed("a\u{7}b\n");
    assert_eq!(c.chars, vec!['a', 'b']);
    assert_eq!(c.cursor, 2);
}

#[test]
fn cursor_past_the_end_is_pulled_back() {
    let mut c = typed("ab");
    c.cursor = 10;
    c.apply_key(ChatKey::Other);
    assert_eq!(c.cursor, 2);
}

#[test]
fn type_then_backspace_gives_back() {
    let mut c = typed("hello");
    c.cursor = 2;
    c.apply_key(ChatKey::Character(vec!['x']));
    c.apply_key(ChatKey::Backspace);
    assert_eq!(c.chars, "hello".chars().collect::<Vec<char>>());
    assert_eq!(c.cursor, 2);
}

#[test]
fn long_line_scrolls() {
    let line: String = (0..60).map(|i| (b'a' + (i % 26) as u8) as char).collect();
    let mut c = typed(&line);
    assert_eq!(c.cursor, 60);
    // Start = 60 - 45 + 5 = 20; end = 60.
    let expected: String = format!("> ...{}|", &line[20..60]);
    assert_eq!(shown(&c), expected);
    c.cursor = 10;
    let expected: String = format!("> {}|{}...", &line[0..10], &line[10..45]);
    assert_eq!(shown(&c), expected);
}

// ── Network events ───────────────────────────────────────────────────────────

#[test]
fn ping_is_answered() {
    let r = handle_server_packet(ServerPacket::Ping { id: 7 });
    assert!(r.events.is_empty());
    assert_eq!(r.reply, Some(ClientPacket::Pong { id: 7 }));
}

#[test]
fn batch_becomes_updates() {
    let e1 = BlockUpdateEntry { coord: ChunkCoord { x: 1, z: 2 }, lx: 3, ly: 4, lz: 5, block: BlockType::Wood };
    let e2 = BlockUpdateEntry { coord: ChunkCoord { x: -1, z: 0 }, lx: 0, ly: 0, lz: 0, block: BlockType::Air };
    let r = handle_server_packet(ServerPacket::BlockBatch { updates: vec![e1, e2] });
    assert_eq!(r.reply, None);
    assert_eq!(
        r.events,
        vec![
            NetEvent::BlockUpdate { coord: e1.coord, lx: 3, ly: 4, lz: 5, block: BlockType::Wood },
            NetEvent::BlockUpdate { coord: e2.coord, lx: 0, ly: 0, lz: 0, block: BlockType::Air },
        ]
    );
}

#[test]
fn single_packets_become_single_events() {
    let r = handle_server_packet(ServerPacket::Welcome { player_id: 3, seed: 42, spawn_x: 1, spawn_y: 2, spawn_z: 3 });
    assert_eq!(r.events, vec![NetEvent::Welcome { player_id: 3, seed: 42, spawn: (1, 2, 3) }]);
    let r = handle_server_packet(ServerPacket::PlayerJoined { player_id: 4, name: "z".to_string(), x: 1, y: 2, z: 3 });
    assert_eq!(r.events, vec![NetEvent::PlayerJoined { player_id: 4, name: "z".to_string(), pos: (1, 2, 3) }]);
    let r = handle_server_packet(ServerPacket::PlayerLeft { player_id: 4 });
    assert_eq!(r.events, vec![NetEvent::PlayerLeft { player_id: 4 }]);
    let r = handle_server_packet(ServerPacket::PlayerMoved { player_id: 4, x: 1, y: 2, z: 3, yaw: 5, pitch: 6 });
    assert_eq!(r.events, vec![NetEvent::PlayerMoved { player_id: 4, pos: (1, 2, 3), yaw: 5, pitch: 6 }]);
    let r = handle_server_packet(ServerPacket::TimeUpdate { time: 9 });
    assert_eq!(r.events, vec![NetEvent::TimeUpdate { time: 9 }]);
    let r = handle_server_packet(ServerPacket::Rejected { reason: "full".to_string() });
    assert!(r.events.is_empty() && r.reply.is_none());
    let r = handle_server_packet(ServerPacket::ChatMessage { sender_name: "a".to_string(), message: "b".to_string() });
    assert_eq!(r.events, vec![NetEvent::ChatMessage { sender_name: "a".to_string(), message: "b".to_string() }]);
}

// ── World lookups ────────────────────────────────────────────────────────────

#[test]
fn lookups_across_chunks() {
    let mut c0 = Chunk::new();
    c0.set(15, 10, 15, BlockType::Stone);
    let mut c1 = Chunk::new();
    c1.set(0, 10, 0, BlockType::Water);
    let chunks = vec![(ChunkCoord { x: -1, z: -1 }, &c0), (ChunkCoord { x: 0, z: 0 }, &c1)];
    assert_eq!(block_at_world(-1, 10, -1, &chunks), BlockType::Stone);
    assert_eq!(block_at_world(0, 10, 0, &chunks), BlockType::Water);
    assert_eq!(block_at_world(0, 128, 0, &chunks), BlockType::Air);
    assert_eq!(block_at_world(100, 10, 100, &chunks), BlockType::Air);
    assert!(is_solid_at(-1, 10, -1, &chunks));
    assert!(!is_solid_at(0, 10, 0, &chunks));
    assert!(is_solid_at(0, -1, 0, &chunks));
    assert!(!is_solid_at(0, 200, 0, &chunks));
    assert!(ray_hits(-1, 10, -1, &chunks));
    assert!(!ray_hits(0, 10, 0, &chunks));
    assert!(!ray_hits(-1, -1, -1, &chunks));
}

#[test]
fn first_chunk_decides_but_any_stops_a_ray() {
    let empty = Chunk::new();
    let mut full = Chunk::new();
    full.set(1, 1, 1, BlockType::Dirt);
    let coord = ChunkCoord { x: 0, z: 0 };
    let chunks = vec![(coord, &empty), (coord, &full)];
    assert_eq!(block_at_world(1, 1, 1, &chunks), BlockType::Air);
    assert!(!is_solid_at(1, 1, 1, &chunks));
    assert!(ray_hits(1, 1, 1, &chunks));
}
