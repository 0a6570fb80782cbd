use stu_minecraft::block::BlockType;
use stu_minecraft::chunk::ChunkCoord;
use stu_minecraft::protocol::{BlockUpdateEntry, ClientPacket, ServerPacket};
use stu_minecraft::server::{
    Outgoing, PeerAddr, ServerState, CLIENT_TIMEOUT_NANOS, KEEPALIVE_EVERY_NANOS, SEED,
    SPAWN_Y_BITS, TIME_SYNC_EVERY_NANOS,
};
use stu_minecraft::world::World;

fn peer(port: u16) -> PeerAddr {
    PeerAddr { v6: false, ip: 0x7f00_0001, port, flowinfo: 0, scope_id: 0 }
}

fn connect(s: &mut ServerState, a: PeerAddr, name: &str, now: u64) -> Vec<Outgoing> {
    s.handle_packet(a, ClientPacket::Connect { name: name.to_string() }, now)
}

#[test]
fn spawn_height_bits() {
    assert_eq!(f32::from_bits(SPAWN_Y_BITS), 80.0);
}

#[test]
fn first_connect_is_welcomed() {
    let mut s = ServerState::new(SEED);
    let a = peer(1);
    let out = connect(&mut s, a, "alice", 10);
    assert_eq!(out.len(), 2);
    assert_eq!(out[0].to, vec![]);
    assert_eq!(
        out[0].packet,
        ServerPacket::PlayerJoined { player_id: 1, name: "alice".to_string(), x: 0, y: SPAWN_Y_BITS, z: 0 }
    );
    assert_eq!(out[1].to, vec![a]);
    assert_eq!(
        out[1].packet,
        ServerPacket::Welcome { player_id: 1, seed: 42, spawn_x: 0, spawn_y: SPAWN_Y_BITS, spawn_z: 0 }
    );
    assert!(s.is_connected(a));
    assert_eq!(s.next_id(), 2);
}

#[test]
fn second_connect_meets_the_first() {
    let mut s = ServerState::new(SEED);
    let (a, b) = (peer(1), peer(2));
    connect(&mut s, a, "alice", 10);
    let out = connect(&mut s, b, "bob", 20);
    assert_eq!(out.len(), 3);
    assert_eq!(out[0].to, vec![a]);
    assert_eq!(
        out[0].packet,
        ServerPacket::PlayerJoined { player_id: 2, name: "bob".to_string(), x: 0, y: SPAWN_Y_BITS, z: 0 }
    );
    assert_eq!(out[1].to, vec![b]);
    assert!(matches!(out[1].packet, ServerPacket::Welcome { player_id: 2, .. }));
    assert_eq!(out[2].to, vec![b]);
    assert_eq!(
        out[2].packet,
        ServerPacket::PlayerJoined { player_id: 1, name: "alice".to_string(), x: 0, y: SPAWN_Y_BITS, z: 0 }
    );
}

#[test]
fn duplicate_connect_resends_welcome() {
    let mut s = ServerState::new(7);
    let a = peer(1);
    connect(&mut s, a, "alice", 10);
    let x = 3.5f32.to_bits();
    s.handle_packet(a, ClientPacket::Move { x, y: 1, z: 2, yaw: 0, pitch: 0 }, 11);
    let out = connect(&mut s, a, "alice", 12);
    assert_eq!(
        out,
        vec![Outgoing {
            to: vec![a],
            packet: ServerPacket::Welcome { player_id: 1, seed: 7, spawn_x: x, spawn_y: 1, spawn_z: 2 },
        }]
    );
    assert_eq!(s.next_id(), 2);
}

#[test]
fn ready_sends_every_change_once() {
    let mut s = ServerState::new(SEED);
    let a = peer(1);
    connect(&mut s, a, "alice", 10);
    s.handle_packet(a, ClientPacket::PlaceBlock { wx: 1, wy: 70, wz: -1, block: BlockType::Stone }, 11);
    s.handle_packet(a, ClientPacket::BreakBlock { wx: 20, wy: 5, wz: 3 }, 12);
    s.handle_packet(a, ClientPacket::PlaceBlock { wx: 1, wy: 70, wz: -1, block: BlockType::Wood }, 13);
    let out = s.handle_packet(a, ClientPacket::Ready, 14);
    assert_eq!(out.len(), 1);
    assert_eq!(out[0].to, vec![a]);
    assert_eq!(
        out[0].packet,
        ServerPacket::BlockBatch {
            updates: vec![
                BlockUpdateEntry { coord: ChunkCoord { x: 0, z: -1 }, lx: 1, ly: 70, lz: 15, block: BlockType::Wood },
                BlockUpdateEntry { coord: ChunkCoord { x: 1, z: 0 }, lx: 4, ly: 5, lz: 3, block: BlockType::Air },
            ],
        }
    );
    // A second Ready is ignored.
    assert!(s.handle_packet(a, ClientPacket::Ready, 15).is_empty());
}

#[test]
fn ready_from_stranger_is_ignored() {
    let mut s = ServerState::new(SEED);
    assert!(s.handle_packet(peer(9), ClientPacket::Ready, 1).is_empty());
}

#[test]
fn block_changes_reach_everyone() {
    let mut s = ServerState::new(SEED);
    let (a, b) = (peer(1), peer(2));
    connect(&mut s, a, "alice", 10);
    connect(&mut s, b, "bob", 10);
    let out = s.handle_packet(a, ClientPacket::BreakBlock { wx: -1, wy: 0, wz: 16 }, 11);
    assert_eq!(
        out,
        vec![Outgoing {
            to: vec![a, b],
            packet: ServerPacket::BlockUpdate {
                coord: ChunkCoord { x: -1, z: 1 },
                lx: 15,
                ly: 0,
                lz: 0,
                block: BlockType::Air,
            },
        }]
    );
}

#[test]
fn block_changes_outside_height_are_refused() {
    let mut s = ServerState::new(SEED);
    let a = peer(1);
    connect(&mut s, a, "alice", 10);
    assert!(s.handle_packet(a, ClientPacket::PlaceBlock { wx: 0, wy: 128, wz: 0, block: BlockType::Dirt }, 11).is_empty());
    assert!(s.handle_packet(a, ClientPacket::BreakBlock { wx: 0, wy: -1, wz: 0 }, 11).is_empty());
    let out = s.handle_packet(a, ClientPacket::Ready, 12);
    assert_eq!(out[0].packet, ServerPacket::BlockBatch { updates: vec![] });
}

#[test]
fn world_apply_set() {
    let mut w = World::new(3);
    assert_eq!(w.apply_set(0, 200, 0, BlockType::Sand), None);
    let e = w.apply_place(-33, 9, 40, BlockType::Sand).unwrap();
    assert_eq!(e, BlockUpdateEntry { coord: ChunkCoord { x: -3, z: 2 }, lx: 15, ly: 9, lz: 8, block: BlockType::Sand });
    let e = w.apply_break(-33, 9, 40).unwrap();
    assert_eq!(e.block, BlockType::Air);
    match w.initial_batch() {
        ServerPacket::BlockBatch { updates } => assert_eq!(updates, vec![e]),
        other => panic!("unexpected {:?}", other),
    }
}

#[test]
fn movement_goes_to_the_others() {
    let mut s = ServerState::new(SEED);
    let (a, b, c) = (peer(1), peer(2), peer(3));
    connect(&mut s, a, "alice", 10);
    connect(&mut s, b, "bob", 10);
    connect(&mut s, c, "carol", 10);
    let out = s.handle_packet(b, ClientPacket::Move { x: 1, y: 2, z: 3, yaw: 4, pitch: 5 }, 11);
    assert_eq!(
        out,
        vec![Outgoing {
            to: vec![a, c],
            packet: ServerPacket::PlayerMoved { player_id: 2, x: 1, y: 2, z: 3, yaw: 4, pitch: 5 },
        }]
    );
    assert!(s.handle_packet(peer(4), ClientPacket::Move { x: 1, y: 2, z: 3, yaw: 4, pitch: 5 }, 11).is_empty());
}

#[test]
fn chat_is_relayed_with_the_sender_name() {
    let mut s = ServerState::new(SEED);
    let (a, b) = (peer(1), peer(2));
    connect(&mut s, a, "alice", 10);
    connect(&mut s, b, "bob", 10);
    let out = s.handle_packet(b, ClientPacket::ChatMessage { text: "hi".to_string() }, 11);
    assert_eq!(
        out,
        vec![Outgoing {
            to: vec![a, b],
            packet: ServerPacket::ChatMessage { sender_name: "bob".to_string(), message: "hi".to_string() },
        }]
    );
    assert!(s.handle_packet(peer(5), ClientPacket::ChatMessage { text: "x".to_string() }, 11).is_empty());
}

#[test]
fn disconnect_announces_departure() {
    let mut s = ServerState::new(SEED);
    let (a, b) = (peer(1), peer(2));
    connect(&mut s, a, "alice", 10);
    connect(&mut s, b, "bob", 10);
    let out = s.handle_packet(a, ClientPacket::Disconnect, 11);
    assert_eq!(out, vec![Outgoing { to: vec![b], packet: ServerPacket::PlayerLeft { player_id: 1 } }]);
    assert!(!s.is_connected(a));
    assert!(s.handle_packet(a, ClientPacket::Disconnect, 12).is_empty());
}

#[test]
fn keepalive_every_five_seconds() {
    let mut s = ServerState::new(SEED);
    let a = peer(1);
    connect(&mut s, a, "alice", 0);
    assert!(s.keepalive(KEEPALIVE_EVERY_NANOS - 1).is_empty());
    let out = s.keepalive(KEEPALIVE_EVERY_NANOS);
    assert_eq!(out, vec![Outgoing { to: vec![a], packet: ServerPacket::Ping { id: 1 } }]);
    assert_eq!(s.ping_counter(), 1);
    assert!(s.keepalive(KEEPALIVE_EVERY_NANOS + 1).is_empty());
    let out = s.keepalive(2 * KEEPALIVE_EVERY_NANOS);
    assert_eq!(out[0].packet, ServerPacket::Ping { id: 2 });
}

#[test]
fn pong_for_an_old_ping_keeps_the_player() {
    let mut s = ServerState::new(SEED);
    let a = peer(1);
    connect(&mut s, a, "alice", 0);
    s.keepalive(KEEPALIVE_EVERY_NANOS);
    assert!(s.handle_packet(a, ClientPacket::Pong { id: 1 }, KEEPALIVE_EVERY_NANOS + 1).is_empty());
    assert!(s.handle_packet(a, ClientPacket::Pong { id: 99 }, KEEPALIVE_EVERY_NANOS + 2).is_empty());
    assert!(s.is_connected(a));
}

#[test]
fn time_sync_once_a_second() {
    let mut s = ServerState::new(SEED);
    let a = peer(1);
    connect(&mut s, a, "alice", 0);
    assert!(s.sync_time(TIME_SYNC_EVERY_NANOS - 1, 0).is_empty());
    let t = 1.0f32.to_bits();
    let out = s.sync_time(TIME_SYNC_EVERY_NANOS, t);
    assert_eq!(out, vec![Outgoing { to: vec![a], packet: ServerPacket::TimeUpdate { time: t } }]);
    assert!(s.sync_time(TIME_SYNC_EVERY_NANOS + 5, t).is_empty());
}

#[test]
fn silent_players_time_out() {
    let mut s = ServerState::new(SEED);
    let (a, b, c) = (peer(1), peer(2), peer(3));
    connect(&mut s, a, "alice", 0);
    connect(&mut s, b, "bob", 0);
    connect(&mut s, c, "carol", 0);
    // Only bob keeps talking.
    s.handle_packet(b, ClientPacket::Pong { id: 0 }, CLIENT_TIMEOUT_NANOS);
    assert!(s.drop_timed_out(CLIENT_TIMEOUT_NANOS).is_empty());
    let out = s.drop_timed_out(CLIENT_TIMEOUT_NANOS + 1);
    assert_eq!(
        out,
        vec![
            Outgoing { to: vec![b, c], packet: ServerPacket::PlayerLeft { player_id: 1 } },
            Outgoing { to: vec![b], packet: ServerPacket::PlayerLeft { player_id: 3 } },
        ]
    );
    assert!(s.is_connected(b));
    assert!(!s.is_connected(a) && !s.is_connected(c));
}

#[test]
fn block_changes_from_strangers_are_ignored() {
    let mut s = ServerState::new(SEED);
    let a = peer(1);
    connect(&mut s, a, "alice", 10);
    let stranger = peer(9);
    assert!(s
        .handle_packet(stranger, ClientPacket::PlaceBlock { wx: 1, wy: 70, wz: -1, block: BlockType::Stone }, 11)
        .is_empty());
    assert!(s.handle_packet(stranger, ClientPacket::BreakBlock { wx: 2, wy: 5, wz: 3 }, 12).is_empty());
    assert!(!s.is_connected(stranger));
    let out = s.handle_packet(a, ClientPacket::Ready, 13);
    assert_eq!(out[0].packet, ServerPacket::BlockBatch { updates: vec![] });
}
