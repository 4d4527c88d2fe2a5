//! Verified game and networking logic of the dango multiplayer game: player input,
//! the player registry of the physics world, the connection tables of the
//! networking layer, the WebRTC session handshake and the signalling server's rooms.

pub mod address;
pub mod client;
pub mod client_packet;
pub mod client_socket;
pub mod connections;
pub mod eyes;
pub mod keyed_map;
pub mod listener;
pub mod mesh;
pub mod player;
pub mod server_packet;
pub mod server_socket;
pub mod session;
pub mod signalling;
pub mod texture;
pub mod timestamp;
pub mod webgl2;
pub mod webrtc;
pub mod world;
