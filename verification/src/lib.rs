//! Verified core of a small multiplayer arena game server: text and request
//! parsing, websocket framing and handshake, routing, input and inventory
//! handling, the timers of player and enemy effects, consumable items, and who
//! is alive after a frame; everything the server decides without floating
//! point.

pub mod bits;
pub mod color;
pub mod connections;
pub mod effects;
pub mod enemy;
pub mod gametraits;
pub mod http;
pub mod input;
pub mod item;
pub mod life;
pub mod math;
pub mod number;
pub mod parser;
pub mod server;
pub mod string;
pub mod text;
pub mod wall;
pub mod websocket;
