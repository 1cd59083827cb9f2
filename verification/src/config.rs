//! How much the stack can hold.

use vstd::prelude::*;

verus! {

/// Maximum number of interfaces.
pub const IFACE_COUNT: usize = 8;

/// Maximum number of IP addresses on one interface.
pub const IFACE_ADDR_COUNT: usize = 8;

/// Maximum number of UDP sockets.
pub const UDP_SOCKET_COUNT: usize = 32;

/// Maximum number of raw sockets.
pub const RAW_SOCKET_COUNT: usize = 16;

/// Maximum number of TCP sockets.
pub const TCP_SOCKET_COUNT: usize = 32;

/// Maximum number of TCP listeners.
pub const TCP_LISTENER_COUNT: usize = 16;

} // verus!
