//! TCP: segments, listeners, and the sockets segments are delivered to.

pub mod congestion;
pub mod ingress;
pub mod listener;
pub mod repr;
pub mod socket;

pub use ingress::{build_tcp_packet, process_tcp};
pub use listener::{process_listeners, ListenError, TcpListener, TcpListenerHandle, TcpListenerState};
pub use repr::{TcpRepr, TcpTimestampRepr};
pub use socket::{process_icmp_error, State, TcpHandle, TcpSocket, TcpSocketState, Tuple};
