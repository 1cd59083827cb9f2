//! What a network stack holds.

use vstd::prelude::*;

use crate::config::{RAW_SOCKET_COUNT, TCP_LISTENER_COUNT, TCP_SOCKET_COUNT, UDP_SOCKET_COUNT};
use crate::raw;
use crate::raw::{RawSlots, RawSocketState};
use crate::stack::network;
use crate::stack::network::{NetModel, Network};
use crate::storage::slab;
use crate::storage::slab::Slab;
use crate::tcp::listener;
use crate::tcp::listener::{ListenerSlots, TcpListenerState};
use crate::tcp::socket;
use crate::tcp::socket::{TcpSlots, TcpSocketState};
use crate::udp;
use crate::udp::demux::UdpSlots;
use crate::udp::socket::UdpSocketState;

verus! {

/// What a stack holds.
#[verifier::ext_equal]
pub struct StackModel {
    /// The interfaces, the neighbors known on them, and the routes.
    pub net: NetModel,
    pub udp: UdpSlots,
    pub raw: RawSlots,
    pub tcp: TcpSlots,
    pub listeners: ListenerSlots,
}

impl StackModel {
    /// The stack with another network side.
    pub open spec fn with_net(self, net: NetModel) -> StackModel {
        StackModel { net, ..self }
    }
}

/// The stack's socket storage, one slab per socket type.
pub struct Sockets {
    pub udp: Slab<UdpSocketState, UDP_SOCKET_COUNT>,
    pub raw: Slab<RawSocketState, RAW_SOCKET_COUNT>,
    pub tcp: Slab<TcpSocketState, TCP_SOCKET_COUNT>,
    pub tcp_listeners: Slab<TcpListenerState, TCP_LISTENER_COUNT>,
}

impl Sockets {
    /// What every operation keeps.
    pub open spec fn wf(&self) -> bool {
        &&& self.udp.wf()
        &&& self.raw.wf()
        &&& self.tcp.wf()
        &&& self.tcp_listeners.wf()
        &&& udp::socket::slots_ok(self.udp@)
        &&& raw::slots_ok(self.raw@)
        &&& socket::slots_ok(self.tcp@)
        &&& listener::slots_ok(self.tcp_listeners@)
    }

    /// No sockets.
    pub fn new() -> (r: Self)
        ensures
            r.wf(),
            r.udp@ == Seq::<Option<UdpSocketState>>::empty(),
            r.raw@ == Seq::<Option<RawSocketState>>::empty(),
            r.tcp@ == Seq::<Option<TcpSocketState>>::empty(),
            r.tcp_listeners@ == Seq::<Option<TcpListenerState>>::empty(),
    {
        proof {
            reveal(udp::demux::tuples_distinct);
        }
        Sockets { udp: Slab::new(), raw: Slab::new(), tcp: Slab::new(), tcp_listeners: Slab::new() }
    }
}

/// A network stack.
pub struct Stack {
    pub net: Network,
    pub sockets: Sockets,
}

impl View for Stack {
    type V = StackModel;

    open spec fn view(&self) -> StackModel {
        StackModel {
            net: self.net@,
            udp: slab::views(self.sockets.udp@),
            raw: slab::views(self.sockets.raw@),
            tcp: slab::views(self.sockets.tcp@),
            listeners: slab::views(self.sockets.tcp_listeners@),
        }
    }
}

impl Stack {
    /// What every operation keeps.
    pub open spec fn wf(&self) -> bool {
        self.net.wf() && self.sockets.wf()
    }

    /// Whether the stack can process packets: it is well-formed, and its routes leave
    /// through interfaces that are there.
    pub open spec fn ready(&self) -> bool {
        self.wf() && self@.net.routes_attached()
    }
}

/// Whether a stack follows from another by processing packets: it can go on, and its
/// interfaces and their configuration are the same.
pub open spec fn goes_on(before: Stack, after: Stack) -> bool {
    after.ready() && network::net_kept(before@.net, after@.net)
}

} // verus!
