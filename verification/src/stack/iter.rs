//! Walking over what a stack holds.
//!
//! Each item borrows the stack, so only one can exist at a time, and the walks are not
//! iterators in the sense of `for` loops. Use `while let`.

use vstd::prelude::*;

use crate::iface::IfaceHandle;
use crate::raw::{RawHandle, RawSocket};
use crate::stack::iface::Iface;
use crate::stack::link::InnerModel;
use crate::stack::state::{Sockets, Stack};
use crate::storage::slab;
use crate::tcp::listener::{TcpListener, TcpListenerHandle};
use crate::tcp::socket::{TcpHandle, TcpSocket};
use crate::udp::socket::{UdpHandle, UdpSocket};

verus! {

/// A walk over the interfaces of a [`Stack`], returned by [`Stack::ifaces`].
pub struct IfaceIter<'a> {
    pub stack: &'a mut Stack,
    pub next: usize,
}

impl<'a> IfaceIter<'a> {
    /// Get the next interface, with its handle.
    ///
    /// Returns `None` when there are no more.
    pub fn next(&mut self) -> (r: Option<(IfaceHandle, Iface<'_>)>)
        requires
            old(self).stack.wf(),
        ensures
            *final(final(self).stack) == *final(old(self).stack),
            match slab::next_occupied_slot(old(self).stack@.net.ifaces, old(self).next as int) {
                Some(i) => {
                    &&& final(self).next == i + 1
                    &&& r matches Some((handle, item)) && {
                        &&& handle.0 == i
                        &&& item.wf()
                        &&& item.index == i
                        &&& *item.net == old(self).stack.net
                        &&& final(self).stack.net == *final(item.net)
                        &&& final(self).stack.sockets == old(self).stack.sockets
                    }
                },
                None => r is None && final(self).next == old(self).next && *final(self).stack == *old(self).stack,
            },
    {
        let ghost slots = self.stack.net.ifaces@;
        proof {
            slab::lemma_next_occupied_views(slots, self.next as int);
            slab::lemma_views_room(slots, 0);
        }
        match self.stack.net.ifaces.next_occupied(self.next) {
            Some(index) => {
                proof {
                    self.stack.net.ifaces.lemma_bounded();
                }
                self.next = index + 1;
                let handle = IfaceHandle(index);
                Some((handle, self.stack.iface(handle)))
            },
            None => None,
        }
    }
}

/// A walk over the UDP sockets of a [`Stack`], returned by [`Stack::udp_sockets`].
pub struct UdpSocketIter<'a> {
    pub stack: &'a mut Stack,
    pub next: usize,
}

impl<'a> UdpSocketIter<'a> {
    /// Get the next UDP socket, with its handle.
    ///
    /// Returns `None` when there are no more.
    pub fn next(&mut self) -> (r: Option<(UdpHandle, UdpSocket<'_>)>)
        requires
            old(self).stack.wf(),
        ensures
            *final(final(self).stack) == *final(old(self).stack),
            match slab::next_occupied_slot(old(self).stack@.udp, old(self).next as int) {
                Some(i) => {
                    &&& final(self).next == i + 1
                    &&& r matches Some((handle, item)) && {
                        &&& handle.0 == i
                        &&& item.wf()
                        &&& item.index == i
                        &&& *item.sockets == old(self).stack.sockets.udp
                        &&& *item.tx == old(self).stack.net
                        &&& final(self).stack.net == *final(item.tx)
                        &&& final(self).stack.sockets == (Sockets {
                            udp: *final(item.sockets),
                            ..old(self).stack.sockets
                        })
                    }
                },
                None => r is None && final(self).next == old(self).next && *final(self).stack == *old(self).stack,
            },
    {
        let ghost slots = self.stack.sockets.udp@;
        proof {
            slab::lemma_next_occupied_views(slots, self.next as int);
            slab::lemma_views_room(slots, 0);
        }
        match self.stack.sockets.udp.next_occupied(self.next) {
            Some(index) => {
                proof {
                    self.stack.sockets.udp.lemma_bounded();
                }
                self.next = index + 1;
                let handle = UdpHandle(index);
                Some((handle, self.stack.udp_socket(handle)))
            },
            None => None,
        }
    }
}

/// A walk over the raw sockets of a [`Stack`], returned by [`Stack::raw_sockets`].
pub struct RawSocketIter<'a> {
    pub stack: &'a mut Stack,
    pub next: usize,
}

impl<'a> RawSocketIter<'a> {
    /// Get the next raw socket, with its handle.
    ///
    /// Returns `None` when there are no more.
    pub fn next(&mut self) -> (r: Option<(RawHandle, RawSocket<'_>)>)
        requires
            old(self).stack.wf(),
        ensures
            *final(final(self).stack) == *final(old(self).stack),
            match slab::next_occupied_slot(old(self).stack@.raw, old(self).next as int) {
                Some(i) => {
                    &&& final(self).next == i + 1
                    &&& r matches Some((handle, item)) && {
                        &&& handle.0 == i
                        &&& item.wf()
                        &&& item.model() == old(self).stack@.raw[i]->0
                        &&& *item.tx == old(self).stack.net
                        &&& final(self).stack.net == *final(item.tx)
                        &&& final(self).stack@.raw == old(self).stack@.raw.update(i, Some(final(item.state)@))
                        &&& final(item.state).wf() && final(item.tx).wf() ==> final(self).stack.wf()
                        &&& final(self).stack@.udp == old(self).stack@.udp
                        &&& final(self).stack@.tcp == old(self).stack@.tcp
                        &&& final(self).stack@.listeners == old(self).stack@.listeners
                    }
                },
                None => r is None && final(self).next == old(self).next && *final(self).stack == *old(self).stack,
            },
    {
        let ghost slots = self.stack.sockets.raw@;
        proof {
            slab::lemma_next_occupied_views(slots, self.next as int);
            slab::lemma_views_room(slots, 0);
        }
        match self.stack.sockets.raw.next_occupied(self.next) {
            Some(index) => {
                proof {
                    self.stack.sockets.raw.lemma_bounded();
                }
                self.next = index + 1;
                let handle = RawHandle(index);
                Some((handle, self.stack.raw_socket(handle)))
            },
            None => None,
        }
    }
}

/// A walk over the TCP sockets of a [`Stack`], returned by [`Stack::tcp_sockets`].
pub struct TcpSocketIter<'a> {
    pub stack: &'a mut Stack,
    pub next: usize,
}

impl<'a> TcpSocketIter<'a> {
    /// Get the next TCP socket, with its handle.
    ///
    /// Returns `None` when there are no more.
    pub fn next(&mut self) -> (r: Option<(TcpHandle, TcpSocket<'_>)>)
        requires
            old(self).stack.wf(),
        ensures
            *final(final(self).stack) == *final(old(self).stack),
            match slab::next_occupied_slot(old(self).stack@.tcp, old(self).next as int) {
                Some(i) => {
                    &&& final(self).next == i + 1
                    &&& r matches Some((handle, item)) && {
                        &&& handle.0 == i
                        &&& item.wf()
                        &&& item.index == i
                        &&& *item.sockets == old(self).stack.sockets.tcp
                        &&& *item.tx == old(self).stack.net
                        &&& final(self).stack.net == *final(item.tx)
                        &&& final(self).stack.sockets == (Sockets {
                            tcp: *final(item.sockets),
                            ..old(self).stack.sockets
                        })
                    }
                },
                None => r is None && final(self).next == old(self).next && *final(self).stack == *old(self).stack,
            },
    {
        let ghost slots = self.stack.sockets.tcp@;
        proof {
            slab::lemma_next_occupied_views(slots, self.next as int);
            slab::lemma_views_room(slots, 0);
        }
        match self.stack.sockets.tcp.next_occupied(self.next) {
            Some(index) => {
                proof {
                    self.stack.sockets.tcp.lemma_bounded();
                }
                self.next = index + 1;
                let handle = TcpHandle(index);
                Some((handle, self.stack.tcp_socket(handle)))
            },
            None => None,
        }
    }
}

/// A walk over the TCP listeners of a [`Stack`], returned by [`Stack::tcp_listeners`].
pub struct TcpListenerIter<'a> {
    pub stack: &'a mut Stack,
    pub next: usize,
}

impl<'a> TcpListenerIter<'a> {
    /// Get the next TCP listener, with its handle.
    ///
    /// Returns `None` when there are no more.
    pub fn next(&mut self) -> (r: Option<(TcpListenerHandle, TcpListener<'_>)>)
        requires
            old(self).stack.wf(),
        ensures
            *final(final(self).stack) == *final(old(self).stack),
            match slab::next_occupied_slot(old(self).stack@.listeners, old(self).next as int) {
                Some(i) => {
                    &&& final(self).next == i + 1
                    &&& r matches Some((handle, item)) && {
                        &&& handle.0 == i
                        &&& item.wf()
                        &&& item.index == i
                        &&& *item.listeners == old(self).stack.sockets.tcp_listeners
                        &&& *item.tcp == old(self).stack.sockets.tcp
                        &&& *item.rand == old(self).stack.net.inner.rand
                        &&& final(self).stack.sockets == (Sockets {
                            tcp: *final(item.tcp),
                            tcp_listeners: *final(item.listeners),
                            ..old(self).stack.sockets
                        })
                        &&& final(self).stack@.net.ifaces == old(self).stack@.net.ifaces
                        &&& final(self).stack@.net.inner == (InnerModel {
                            rand: *final(item.rand),
                            ..old(self).stack@.net.inner
                        })
                        &&& final(self).stack.net.wf()
                    }
                },
                None => r is None && final(self).next == old(self).next && *final(self).stack == *old(self).stack,
            },
    {
        let ghost slots = self.stack.sockets.tcp_listeners@;
        proof {
            slab::lemma_next_occupied_views(slots, self.next as int);
            slab::lemma_views_room(slots, 0);
        }
        match self.stack.sockets.tcp_listeners.next_occupied(self.next) {
            Some(index) => {
                proof {
                    self.stack.sockets.tcp_listeners.lemma_bounded();
                }
                self.next = index + 1;
                let handle = TcpListenerHandle(index);
                Some((handle, self.stack.tcp_listener(handle)))
            },
            None => None,
        }
    }
}

impl Stack {
    /// Walk over the interfaces added to the stack.
    pub fn ifaces(&mut self) -> (r: IfaceIter<'_>)
        ensures
            *r.stack == *old(self),
            r.next == 0,
            *final(self) == *final(r.stack),
    {
        IfaceIter { stack: self, next: 0 }
    }

    /// Walk over the UDP sockets added to the stack.
    pub fn udp_sockets(&mut self) -> (r: UdpSocketIter<'_>)
        ensures
            *r.stack == *old(self),
            r.next == 0,
            *final(self) == *final(r.stack),
    {
        UdpSocketIter { stack: self, next: 0 }
    }

    /// Walk over the raw sockets added to the stack.
    pub fn raw_sockets(&mut self) -> (r: RawSocketIter<'_>)
        ensures
            *r.stack == *old(self),
            r.next == 0,
            *final(self) == *final(r.stack),
    {
        RawSocketIter { stack: self, next: 0 }
    }

    /// Walk over the TCP sockets added to the stack.
    pub fn tcp_sockets(&mut self) -> (r: TcpSocketIter<'_>)
        ensures
            *r.stack == *old(self),
            r.next == 0,
            *final(self) == *final(r.stack),
    {
        TcpSocketIter { stack: self, next: 0 }
    }

    /// Walk over the TCP listeners added to the stack.
    pub fn tcp_listeners(&mut self) -> (r: TcpListenerIter<'_>)
        ensures
            *r.stack == *old(self),
            r.next == 0,
            *final(self) == *final(r.stack),
    {
        TcpListenerIter { stack: self, next: 0 }
    }
}

} // verus!
