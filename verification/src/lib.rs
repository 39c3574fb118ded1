//! The protocol core of a small Minecraft server: packet framing, field
//! codecs, the login sequence and the keep-alive rules, each with a contract.
//!
//! Sockets, timers and tasks live outside this crate; they hand it bytes and
//! send the frames that it gives back.

pub mod big_endian;
pub mod buffer;
pub mod connection;
pub mod error;
pub mod exchanges;
pub mod fields;
pub mod keep_alive;
pub mod login;
pub mod loops;
pub mod packet;
pub mod packet_length;
pub mod play;
pub mod state;
pub mod var_int;
