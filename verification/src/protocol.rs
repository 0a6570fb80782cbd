use vstd::prelude::*;

use crate::block::BlockType;
use crate::chunk::ChunkCoord;

verus! {

/// Identifies a connected player.
pub type PlayerId = u64;

/// The port that the server listens on unless told otherwise.
pub const DEFAULT_PORT: u16 = 25565;

/// The largest datagram that either side reads.
pub const MAX_PACKET_SIZE: usize = 1024;

// Positions, angles and times travel as `f32` values. The library never does
// arithmetic on them: it stores and forwards them, so it carries each one as
// the bit pattern of the `f32` (`f32::to_bits`).

/// What a client sends to the server.
#[derive(Debug, PartialEq, Eq)]
pub enum ClientPacket {
    /// Initial handshake.
    Connect { name: String },
    /// The client has loaded the world seed and is ready.
    Ready,
    /// Player position and look, sent every frame.
    Move { x: u32, y: u32, z: u32, yaw: u32, pitch: u32 },
    /// Request to break the block at world coordinates.
    BreakBlock { wx: i32, wy: i32, wz: i32 },
    /// Request to place a block at world coordinates.
    PlaceBlock { wx: i32, wy: i32, wz: i32, block: BlockType },
    /// A line typed into the chat.
    ChatMessage { text: String },
    /// Keepalive reply.
    Pong { id: u32 },
    /// Graceful disconnect.
    Disconnect,
}

/// One authoritative block mutation.
#[derive(Debug, Clone, Copy, PartialEq, Eq, Structural)]
pub struct BlockUpdateEntry {
    pub coord: ChunkCoord,
    pub lx: u8,
    pub ly: u8,
    pub lz: u8,
    pub block: BlockType,
}

/// What the server sends to a client.
#[derive(Debug, PartialEq, Eq)]
pub enum ServerPacket {
    /// Sent once a connection is accepted.
    Welcome { player_id: PlayerId, seed: u32, spawn_x: u32, spawn_y: u32, spawn_z: u32 },
    /// Another player connected.
    PlayerJoined { player_id: PlayerId, name: String, x: u32, y: u32, z: u32 },
    /// Another player disconnected.
    PlayerLeft { player_id: PlayerId },
    /// Position update for a remote player.
    PlayerMoved { player_id: PlayerId, x: u32, y: u32, z: u32, yaw: u32, pitch: u32 },
    /// Authoritative single-block mutation, applied on top of the generated terrain.
    BlockUpdate { coord: ChunkCoord, lx: u8, ly: u8, lz: u8, block: BlockType },
    /// Batch of block mutations.
    BlockBatch { updates: Vec<BlockUpdateEntry> },
    /// Time of day.
    TimeUpdate { time: u32 },
    /// Keepalive: the client must reply with `Pong`.
    Ping { id: u32 },
    /// The server rejected the connection.
    Rejected { reason: String },
    /// A chat line, relayed to every player.
    ChatMessage { sender_name: String, message: String },
}

/// A server packet as a value: strings as their characters, lists as sequences.
pub enum ServerMsg {
    Welcome { player_id: PlayerId, seed: u32, spawn_x: u32, spawn_y: u32, spawn_z: u32 },
    PlayerJoined { player_id: PlayerId, name: Seq<char>, x: u32, y: u32, z: u32 },
    PlayerLeft { player_id: PlayerId },
    PlayerMoved { player_id: PlayerId, x: u32, y: u32, z: u32, yaw: u32, pitch: u32 },
    BlockUpdate { coord: ChunkCoord, lx: u8, ly: u8, lz: u8, block: BlockType },
    BlockBatch { updates: Seq<BlockUpdateEntry> },
    TimeUpdate { time: u32 },
    Ping { id: u32 },
    Rejected { reason: Seq<char> },
    ChatMessage { sender_name: Seq<char>, message: Seq<char> },
}

impl View for ServerPacket {
    type V = ServerMsg;

    open spec fn view(&self) -> ServerMsg {
        match self {
            ServerPacket::Welcome { player_id, seed, spawn_x, spawn_y, spawn_z } => ServerMsg::Welcome {
                player_id: *player_id,
                seed: *seed,
                spawn_x: *spawn_x,
                spawn_y: *spawn_y,
                spawn_z: *spawn_z,
            },
            ServerPacket::PlayerJoined { player_id, name, x, y, z } => ServerMsg::PlayerJoined {
                player_id: *player_id,
                name: name@,
                x: *x,
                y: *y,
                z: *z,
            },
            ServerPacket::PlayerLeft { player_id } => ServerMsg::PlayerLeft { player_id: *player_id },
            ServerPacket::PlayerMoved { player_id, x, y, z, yaw, pitch } => ServerMsg::PlayerMoved {
                player_id: *player_id,
                x: *x,
                y: *y,
                z: *z,
                yaw: *yaw,
                pitch: *pitch,
            },
            ServerPacket::BlockUpdate { coord, lx, ly, lz, block } => ServerMsg::BlockUpdate {
                coord: *coord,
                lx: *lx,
                ly: *ly,
                lz: *lz,
                block: *block,
            },
            ServerPacket::BlockBatch { updates } => ServerMsg::BlockBatch { updates: updates@ },
            ServerPacket::TimeUpdate { time } => ServerMsg::TimeUpdate { time: *time },
            ServerPacket::Ping { id } => ServerMsg::Ping { id: *id },
            ServerPacket::Rejected { reason } => ServerMsg::Rejected { reason: reason@ },
            ServerPacket::ChatMessage { sender_name, message } => ServerMsg::ChatMessage {
                sender_name: sender_name@,
                message: message@,
            },
        }
    }
}

} // verus!
