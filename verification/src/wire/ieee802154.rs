//! IEEE 802.15.4 addresses, as far as the layers above them care.

use vstd::prelude::*;

verus! {

/// An IEEE 802.15.4 address.
#[derive(Debug, Clone, Copy, PartialEq, Eq, PartialOrd, Ord, Hash)]
pub enum Ieee802154Address {
    Absent,
    Short([u8; 2]),
    Extended([u8; 8]),
}

/// The addresses of an IEEE 802.15.4 MAC header.
#[derive(Debug, Clone, Copy, PartialEq, Eq)]
pub struct Ieee802154Repr {
    pub src_addr: Option<Ieee802154Address>,
    pub dst_addr: Option<Ieee802154Address>,
}

} // verus!
