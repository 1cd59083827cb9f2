//! The network stack.

pub mod api;
pub mod delivery;
pub mod icmp;
pub mod icmp_ingress;
pub mod iface;
pub mod iface_state;
pub mod ingress;
pub mod iter;
pub mod link;
pub mod neighbors;
pub mod network;
pub mod offload;
pub mod ping;
pub mod poll;
pub mod ports;
pub mod resolution;
pub mod source;
pub mod state;
pub mod timers;

pub use crate::stack::iface::Iface;
pub use crate::stack::iface_state::{AddrOrigin, IfaceAddr};
pub use crate::stack::iter::{IfaceIter, RawSocketIter, TcpListenerIter, TcpSocketIter, UdpSocketIter};
pub use crate::stack::ports::{alloc_ephemeral_port, EPHEMERAL_PORT_MIN};
pub use crate::stack::state::Stack;
