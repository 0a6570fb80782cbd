use vstd::prelude::*;

use crate::block::BlockType;
use crate::chunk::ChunkCoord;
use crate::protocol::{BlockUpdateEntry, ClientPacket, PlayerId, ServerPacket};

verus! {

/// What the client's game learns from a server packet. Positions, angles and
/// times are the bit patterns of `f32` values.
#[derive(Debug, PartialEq, Eq)]
pub enum NetEvent {
    Welcome { player_id: PlayerId, seed: u32, spawn: (u32, u32, u32) },
    BlockUpdate { coord: ChunkCoord, lx: u8, ly: u8, lz: u8, block: BlockType },
    PlayerJoined { player_id: PlayerId, name: String, pos: (u32, u32, u32) },
    PlayerLeft { player_id: PlayerId },
    PlayerMoved { player_id: PlayerId, pos: (u32, u32, u32), yaw: u32, pitch: u32 },
    TimeUpdate { time: u32 },
    ChatMessage { sender_name: String, message: String },
}

/// The events and the reply (if any) that a server packet calls for.
#[derive(Debug)]
pub struct ClientReaction {
    pub events: Vec<NetEvent>,
    pub reply: Option<ClientPacket>,
}

/// The event for one block update.
pub open spec fn update_event(u: BlockUpdateEntry) -> NetEvent {
    NetEvent::BlockUpdate { coord: u.coord, lx: u.lx, ly: u.ly, lz: u.lz, block: u.block }
}

/// The events a server packet gives: one per packet, one per update of a
/// batch, none for a ping or a rejection.
pub open spec fn packet_events(pkt: ServerPacket) -> Seq<NetEvent> {
    match pkt {
        ServerPacket::Welcome { player_id, seed, spawn_x, spawn_y, spawn_z } => seq![
            NetEvent::Welcome { player_id, seed, spawn: (spawn_x, spawn_y, spawn_z) },
        ],
        ServerPacket::BlockUpdate { coord, lx, ly, lz, block } => seq![
            NetEvent::BlockUpdate { coord, lx, ly, lz, block },
        ],
        ServerPacket::BlockBatch { updates } => updates@.map_values(|u: BlockUpdateEntry| update_event(u)),
        ServerPacket::PlayerJoined { player_id, name, x, y, z } => seq![
            NetEvent::PlayerJoined { player_id, name, pos: (x, y, z) },
        ],
        ServerPacket::PlayerLeft { player_id } => seq![NetEvent::PlayerLeft { player_id }],
        ServerPacket::PlayerMoved { player_id, x, y, z, yaw, pitch } => seq![
            NetEvent::PlayerMoved { player_id, pos: (x, y, z), yaw, pitch },
        ],
        ServerPacket::TimeUpdate { time } => seq![NetEvent::TimeUpdate { time }],
        ServerPacket::ChatMessage { sender_name, message } => seq![
            NetEvent::ChatMessage { sender_name, message },
        ],
        ServerPacket::Ping { .. } => Seq::empty(),
        ServerPacket::Rejected { .. } => Seq::empty(),
    }
}

/// Turns a packet from the server into game events, answering a keepalive
/// ping with the matching pong.
pub fn handle_server_packet(pkt: ServerPacket) -> (r: ClientReaction)
    ensures
        r.events@ == packet_events(pkt),
        r.reply == (match pkt {
            ServerPacket::Ping { id } => Some(ClientPacket::Pong { id }),
            _ => None,
        }),
{
    let ghost p = pkt;
    let mut events: Vec<NetEvent> = Vec::new();
    let mut reply: Option<ClientPacket> = None;
    match pkt {
        ServerPacket::Welcome { player_id, seed, spawn_x, spawn_y, spawn_z } => {
            events.push(NetEvent::Welcome { player_id, seed, spawn: (spawn_x, spawn_y, spawn_z) });
        },
        ServerPacket::BlockUpdate { coord, lx, ly, lz, block } => {
            events.push(NetEvent::BlockUpdate { coord, lx, ly, lz, block });
        },
        ServerPacket::BlockBatch { updates } => {
            let mut i: usize = 0;
            while i < updates.len()
                invariant
                    i <= updates@.len(),
                    events@ == updates@.take(i as int).map_values(
                        |u: BlockUpdateEntry| update_event(u),
                    ),
                decreases updates@.len() - i,
            {
                let u = updates[i];
                events.push(NetEvent::BlockUpdate {
                    coord: u.coord,
                    lx: u.lx,
                    ly: u.ly,
                    lz: u.lz,
                    block: u.block,
                });
                i = i + 1;
                assert(events@ =~= updates@.take(i as int).map_values(
                    |u: BlockUpdateEntry| update_event(u),
                ));
            }
            assert(updates@.take(updates@.len() as int) =~= updates@);
        },
        ServerPacket::PlayerJoined { player_id, name, x, y, z } => {
            events.push(NetEvent::PlayerJoined { player_id, name, pos: (x, y, z) });
        },
        ServerPacket::PlayerLeft { player_id } => {
            events.push(NetEvent::PlayerLeft { player_id });
        },
        ServerPacket::PlayerMoved { player_id, x, y, z, yaw, pitch } => {
            events.push(NetEvent::PlayerMoved { player_id, pos: (x, y, z), yaw, pitch });
        },
        ServerPacket::TimeUpdate { time } => {
            events.push(NetEvent::TimeUpdate { time });
        },
        ServerPacket::Ping { id } => {
            reply = Some(ClientPacket::Pong { id });
        },
        ServerPacket::Rejected { .. } => {},
        ServerPacket::ChatMessage { sender_name, message } => {
            events.push(NetEvent::ChatMessage { sender_name, message });
        },
    }
    assert(events@ =~= packet_events(p));
    ClientReaction { events, reply }
}

} // verus!
