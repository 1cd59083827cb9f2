//! A small TCP/IP network stack.
//!
//! The stack owns its interfaces, sockets and routing table. Frames enter and
//! leave through per-interface queues, so every decision the stack takes is a
//! function of the state it holds and the frames it is given.

pub mod buf;
pub mod config;
pub mod host;
pub mod icmp_error;
pub mod iface;
pub mod laws;
pub mod meta;
pub mod neighbor;
pub mod packet_log;
pub mod pending;
pub mod rand;
pub mod raw;
pub mod route;
pub mod slab;
pub mod stack;
pub mod storage;
pub mod tcp;
pub mod text;
pub mod time;
pub mod udp;
pub mod waker;
pub mod wire;

pub use crate::buf::{PacketBuf, PACKET_BUF_SIZE};
pub use crate::stack::Stack;
