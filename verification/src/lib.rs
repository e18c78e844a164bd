//! Core of a game-server implementation speaking a binary, length-prefixed,
//! multi-phase wire protocol: a VarInt/VarLong codec, a packet framer, and a
//! per-connection protocol state machine.

pub mod codec;
pub mod commands;
pub mod config;
pub mod connection;
pub mod decode;
pub mod encode;
pub mod packet;
pub mod properties;
pub mod slp;
pub mod text;
pub mod utils;
pub mod varint;
pub mod varlong;
