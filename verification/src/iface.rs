//! Network interfaces.

use vstd::prelude::*;

use crate::buf::PacketBuf;
use crate::meta::TxTimestamp;
use crate::wire::HardwareAddress;

verus! {

/// A handle to an interface added to a stack.
#[derive(Debug, Clone, Copy, PartialEq, Eq, Structural, PartialOrd, Ord, Hash)]
pub struct IfaceHandle(pub usize);

impl IfaceHandle {
    /// The handle of slot `index`.
    pub fn new(index: usize) -> (r: Self)
        ensures
            r.0 == index,
    {
        IfaceHandle(index)
    }

    /// The slot the handle stands for.
    pub fn index(self) -> (r: usize)
        ensures
            r == self.0,
    {
        self.0
    }
}

/// Link state of an interface.
#[derive(Debug, Clone, Copy, PartialEq, Eq, Structural)]
pub enum LinkState {
    /// The link is down. No frames can pass.
    Down,
    /// The link is up.
    Up,
}

/// Type of medium of an interface.
#[derive(Debug, Clone, Copy, PartialEq, Eq, Structural)]
pub enum Medium {
    /// Ethernet medium. Devices of this type send and receive Ethernet frames.
    Ethernet,
    /// IP medium. Devices of this type send and receive IP frames, without an
    /// Ethernet header. MAC addresses are not used.
    Ip,
    /// IEEE 802.15.4 medium. Devices of this type send and receive 802.15.4
    /// MAC frames carrying 6LoWPAN.
    ///
    /// [`IfaceCapabilities::max_transmission_unit`] is the whole MAC frame
    /// without the FCS: 125 for a 127-byte PHY frame with a 2-byte FCS.
    Ieee802154,
}

/// A description of checksum behavior for a particular protocol.
#[derive(Debug, Clone, Copy, PartialEq, Eq, Structural)]
pub enum Checksum {
    /// Verify checksum when receiving and compute checksum when sending.
    Both,
    /// Verify checksum when receiving.
    Rx,
    /// Compute checksum before sending.
    Tx,
    /// Ignore checksum completely.
    Ignored,
}

impl Default for Checksum {
    fn default() -> (r: Self)
        ensures
            r == Checksum::Both,
    {
        Checksum::Both
    }
}

impl Checksum {
    pub open spec fn rx_view(self) -> bool {
        self == Checksum::Both || self == Checksum::Rx
    }

    pub open spec fn tx_view(self) -> bool {
        self == Checksum::Both || self == Checksum::Tx
    }

    /// Whether the checksum should be verified when receiving.
    pub fn rx(&self) -> (r: bool)
        ensures
            r == self.rx_view(),
    {
        match self {
            Checksum::Both | Checksum::Rx => true,
            _ => false,
        }
    }

    /// Whether the checksum should be computed when sending.
    pub fn tx(&self) -> (r: bool)
        ensures
            r == self.tx_view(),
    {
        match self {
            Checksum::Both | Checksum::Tx => true,
            _ => false,
        }
    }
}

/// A description of checksum behavior for every supported protocol.
///
/// This is what a device uses to tell the stack which checksums its hardware
/// takes care of, so the stack doesn't compute them again in software.
///
/// The default is [`Checksum::Both`] for every protocol: the stack computes and
/// verifies everything itself.
///
/// A checksum the stack does not compute is written as zero, so that a device
/// that fills it in finds a known value there.
#[derive(Debug, Clone, Copy, PartialEq, Eq, Structural)]
pub struct ChecksumCapabilities {
    /// Checksum behavior for the IPv4 header.
    pub ipv4: Checksum,
    /// Checksum behavior for UDP.
    pub udp: Checksum,
    /// Checksum behavior for TCP.
    pub tcp: Checksum,
    /// Checksum behavior for ICMPv4.
    pub icmpv4: Checksum,
    /// Checksum behavior for ICMPv6.
    pub icmpv6: Checksum,
}

impl Default for ChecksumCapabilities {
    fn default() -> (r: Self)
        ensures
            r == (ChecksumCapabilities {
                ipv4: Checksum::Both,
                udp: Checksum::Both,
                tcp: Checksum::Both,
                icmpv4: Checksum::Both,
                icmpv6: Checksum::Both,
            }),
    {
        ChecksumCapabilities {
            ipv4: Checksum::Both,
            udp: Checksum::Both,
            tcp: Checksum::Both,
            icmpv4: Checksum::Both,
            icmpv6: Checksum::Both,
        }
    }
}

impl ChecksumCapabilities {
    /// Checksum behavior that results in not computing or verifying checksums
    /// for any of the supported protocols.
    pub fn ignored() -> (r: Self)
        ensures
            r == (ChecksumCapabilities {
                ipv4: Checksum::Ignored,
                udp: Checksum::Ignored,
                tcp: Checksum::Ignored,
                icmpv4: Checksum::Ignored,
                icmpv6: Checksum::Ignored,
            }),
    {
        ChecksumCapabilities {
            ipv4: Checksum::Ignored,
            udp: Checksum::Ignored,
            tcp: Checksum::Ignored,
            icmpv4: Checksum::Ignored,
            icmpv6: Checksum::Ignored,
        }
    }
}

/// A description of iface capabilities.
///
/// Drivers start from [`Default`] and overwrite the fields they care about.
#[derive(Debug, Clone, Copy, PartialEq, Eq, Structural)]
pub struct IfaceCapabilities {
    /// Medium of the iface.
    pub medium: Medium,
    /// Maximum transmission unit.
    ///
    /// The network device is unable to send or receive frames larger than this.
    pub max_transmission_unit: usize,
    /// Checksum behavior.
    ///
    /// If the network device is capable of verifying or computing checksums for some
    /// protocols, it can request that the stack not do so in software to improve
    /// performance.
    pub checksum: ChecksumCapabilities,
}

impl Default for IfaceCapabilities {
    fn default() -> (r: Self)
        ensures
            r.medium == Medium::Ethernet,
            r.max_transmission_unit == 1514,
            r.checksum == (ChecksumCapabilities {
                ipv4: Checksum::Both,
                udp: Checksum::Both,
                tcp: Checksum::Both,
                icmpv4: Checksum::Both,
                icmpv6: Checksum::Both,
            }),
    {
        IfaceCapabilities {
            medium: Medium::Ethernet,
            max_transmission_unit: 1514,
            checksum: ChecksumCapabilities::default(),
        }
    }
}

/// A network device driver, sending and receiving raw network frames.
pub trait Driver {
    /// Get a description of iface capabilities.
    fn capabilities(&self) -> IfaceCapabilities;

    /// Get the device's hardware address.
    ///
    /// The address kind must match the medium in [`capabilities`](Self::capabilities).
    fn hardware_address(&self) -> HardwareAddress;

    /// Get the link state.
    ///
    /// Devices that cannot tell, or whose link is always up, return
    /// [`LinkState::Up`], which is the default implementation.
    fn link_state(&mut self) -> (r: LinkState)
        default_ensures
            r == LinkState::Up,
    {
        LinkState::Up
    }

    /// Poll for a received frame.
    ///
    /// Returns a buffer holding the received frame if one is available, transferring
    /// ownership of it to the caller.
    fn receive(&mut self) -> Option<PacketBuf>;

    /// Whether the device can transmit one frame right now.
    fn can_transmit(&mut self) -> bool;

    /// Queue a frame for transmission, transferring ownership of the buffer to the iface.
    ///
    /// If the frame cannot be queued right now (device busy or queue full), the buffer
    /// is handed back in the `Err` variant.
    fn transmit(&mut self, buf: PacketBuf) -> Result<(), PacketBuf>;

    /// Poll for the timestamp of an already-transmitted packet.
    ///
    /// Devices that do not support transmit timestamping always return `None`, which is
    /// the default implementation.
    fn poll_tx_timestamp(&mut self) -> (r: Option<TxTimestamp>)
        default_ensures
            r is None,
    {
        None
    }
}

impl<T: Driver> Driver for &mut T {
    fn capabilities(&self) -> (r: IfaceCapabilities)
        ensures
            call_ensures(T::capabilities, (&*old(*self),), r),
    {
        T::capabilities(self)
    }

    fn hardware_address(&self) -> (r: HardwareAddress)
        ensures
            call_ensures(T::hardware_address, (&*old(*self),), r),
    {
        T::hardware_address(self)
    }

    fn link_state(&mut self) -> (r: LinkState)
        ensures
            exists|device: &mut T|
                *device == **old(self) && *final(device) == **final(self) && #[trigger] call_ensures(
                    T::link_state,
                    (device,),
                    r,
                ),
    {
        T::link_state(self)
    }

    fn receive(&mut self) -> (r: Option<PacketBuf>)
        ensures
            exists|device: &mut T|
                *device == **old(self) && *final(device) == **final(self) && #[trigger] call_ensures(
                    T::receive,
                    (device,),
                    r,
                ),
    {
        T::receive(self)
    }

    fn can_transmit(&mut self) -> (r: bool)
        ensures
            exists|device: &mut T|
                *device == **old(self) && *final(device) == **final(self) && #[trigger] call_ensures(
                    T::can_transmit,
                    (device,),
                    r,
                ),
    {
        T::can_transmit(self)
    }

    fn transmit(&mut self, buf: PacketBuf) -> (r: Result<(), PacketBuf>)
        ensures
            exists|device: &mut T|
                *device == **old(self) && *final(device) == **final(self) && #[trigger] call_ensures(
                    T::transmit,
                    (device, buf),
                    r,
                ),
    {
        T::transmit(self, buf)
    }

    fn poll_tx_timestamp(&mut self) -> (r: Option<TxTimestamp>)
        ensures
            exists|device: &mut T|
                *device == **old(self) && *final(device) == **final(self) && #[trigger] call_ensures(
                    T::poll_tx_timestamp,
                    (device,),
                    r,
                ),
    {
        T::poll_tx_timestamp(self)
    }
}

} // verus!
