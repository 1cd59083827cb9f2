//! UDP sockets.
//!
//! [`Stack::add_udp_socket`](crate::stack::Stack::add_udp_socket) creates a socket
//! inside the stack and returns a [`UdpHandle`] identifying it. All operations go
//! through [`Stack::udp_socket`](crate::stack::Stack::udp_socket), which borrows the
//! socket as a [`UdpSocket`]: receiving only touches the socket state, while sending
//! transmits the datagram immediately.
//!
//! A single [`bind`](UdpSocket::bind) call pins down (parts of) the socket's
//! 4-tuple, local and remote halves at once, each part exact or wildcard. Binding
//! to port 0 allocates an ephemeral port, and binding an identical 4-tuple to
//! another socket's is rejected.
//!
//! Received packets are queued with their IP and UDP headers still in the buffer.
//! The addresses returned in [`UdpMetadata`] are parsed back out of those header
//! bytes.

pub mod datagram;
pub mod demux;
pub mod ingress;
pub mod socket;

pub use datagram::{RecvPacket, UdpMetadata};
pub use ingress::{process_icmp_error, process_udp};
pub use socket::{BindError, RecvError, SendError, UdpHandle, UdpSocket, UdpSocketState};
