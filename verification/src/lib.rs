pub mod block;
pub mod chunk;
pub mod terrain;
pub mod mesh;
pub mod protocol;
pub mod world;
pub mod server;
pub mod inventory;
pub mod chat;
pub mod net;
pub mod lookup;
