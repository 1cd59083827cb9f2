//! 6LoWPAN fragment headers (RFC 4944 §5.3).

use vstd::prelude::*;

use crate::text;
use crate::wire::bytes;
use crate::wire::ieee802154::{Ieee802154Address, Ieee802154Repr};
use crate::wire::sixlowpan::{DISPATCH_FIRST_FRAGMENT_HEADER, DISPATCH_FRAGMENT_HEADER};
use crate::wire::Error;

verus! {

/// The length of a first fragment header.
pub const FIRST_FRAGMENT_HEADER_SIZE: usize = 4;

/// The length of a subsequent fragment header.
pub const NEXT_FRAGMENT_HEADER_SIZE: usize = 5;

/// Key used for identifying all the link fragments that belong to the same packet.
#[derive(Debug, Clone, Copy, PartialEq, Eq, PartialOrd, Ord)]
pub struct Key {
    pub ll_src_addr: Ieee802154Address,
    pub ll_dst_addr: Ieee802154Address,
    pub datagram_size: u16,
    pub datagram_tag: u16,
}

/// The dispatch field: the five high bits.
pub open spec fn dispatch_of(data: Seq<u8>) -> u8 {
    data[0] / 8
}

/// The datagram size field: the eleven bits that follow.
pub open spec fn size_of(data: Seq<u8>) -> u16 {
    bytes::be16(data, 0) % 0x800
}

/// The datagram tag field.
pub open spec fn tag_of(data: Seq<u8>) -> u16 {
    bytes::be16(data, 2)
}

/// The length of the header that the dispatch stands for, or `None` if it stands for
/// none.
pub open spec fn header_len_of(data: Seq<u8>) -> Option<int> {
    if dispatch_of(data) == DISPATCH_FIRST_FRAGMENT_HEADER {
        Some(FIRST_FRAGMENT_HEADER_SIZE as int)
    } else if dispatch_of(data) == DISPATCH_FRAGMENT_HEADER {
        Some(NEXT_FRAGMENT_HEADER_SIZE as int)
    } else {
        None
    }
}

/// Whether the data starts with a fragment header that is there in full.
pub open spec fn well_formed(data: Seq<u8>) -> bool {
    data.len() > 0 && match header_len_of(data) {
        Some(n) => data.len() >= n,
        None => false,
    }
}

/// A read/write wrapper around a 6LoWPAN Fragment header.
///
/// A First Fragment header has the following format:
/// ```txt
///                      1                   2                   3
///  0 1 2 3 4 5 6 7 8 9 0 1 2 3 4 5 6 7 8 9 0 1 2 3 4 5 6 7 8 9 0 1
/// +-+-+-+-+-+-+-+-+-+-+-+-+-+-+-+-+-+-+-+-+-+-+-+-+-+-+-+-+-+-+-+-+
/// |1 1 0 0 0|    datagram_size    |         datagram_tag          |
/// +-+-+-+-+-+-+-+-+-+-+-+-+-+-+-+-+-+-+-+-+-+-+-+-+-+-+-+-+-+-+-+-+
/// ```
///
/// Subsequent fragment headers have the following format:
/// ```txt
///                      1                   2                   3
///  0 1 2 3 4 5 6 7 8 9 0 1 2 3 4 5 6 7 8 9 0 1 2 3 4 5 6 7 8 9 0 1
/// +-+-+-+-+-+-+-+-+-+-+-+-+-+-+-+-+-+-+-+-+-+-+-+-+-+-+-+-+-+-+-+-+
/// |1 1 1 0 0|    datagram_size    |         datagram_tag          |
/// +-+-+-+-+-+-+-+-+-+-+-+-+-+-+-+-+-+-+-+-+-+-+-+-+-+-+-+-+-+-+-+-+
/// |datagram_offset|
/// +-+-+-+-+-+-+-+-+
/// ```
#[derive(Debug)]
pub struct Packet<'a> {
    pub buffer: &'a mut [u8],
}

impl<'a> Packet<'a> {
    /// The octets the wrapped buffer holds.
    pub open spec fn octets(&self) -> Seq<u8> {
        self.buffer@
    }

    /// Imbue a raw octet buffer with a 6LoWPAN Fragment header structure.
    pub fn new_unchecked(buffer: &'a mut [u8]) -> (r: Packet<'a>)
        ensures
            r.octets() == old(buffer)@,
            final(r.buffer)@ == final(buffer)@,
    {
        Packet { buffer }
    }

    /// Shorthand for a combination of [new_unchecked](Self::new_unchecked) and
    /// [check_len](Self::check_len).
    ///
    /// Also rejects buffers whose dispatch is not a fragment header.
    pub fn new_checked(buffer: &'a mut [u8]) -> (r: Result<Packet<'a>, Error>)
        ensures
            r is Ok <==> well_formed(old(buffer)@),
            r matches Ok(p) ==> p.octets() == old(buffer)@ && final(p.buffer)@ == final(buffer)@,
            r is Err ==> final(buffer)@ == old(buffer)@,
    {
        let packet = Self::new_unchecked(buffer);
        if packet.check_len().is_err() {
            return Err(Error);
        }
        Ok(packet)
    }

    /// Ensure that no accessor method will panic if called.
    /// Returns `Err(Error)` if the buffer is too short.
    pub fn check_len(&self) -> (r: Result<(), Error>)
        ensures
            r is Ok <==> well_formed(self.octets()),
    {
        if self.buffer.len() == 0 {
            return Err(Error);
        }
        let dispatch: u8 = self.dispatch();
        if dispatch == DISPATCH_FIRST_FRAGMENT_HEADER && self.buffer.len() >= FIRST_FRAGMENT_HEADER_SIZE {
            Ok(())
        } else if dispatch == DISPATCH_FRAGMENT_HEADER && self.buffer.len() >= NEXT_FRAGMENT_HEADER_SIZE {
            Ok(())
        } else {
            Err(Error)
        }
    }

    /// Return the dispatch field.
    pub fn dispatch(&self) -> (r: u8)
        requires
            self.octets().len() >= 1,
        ensures
            r == dispatch_of(self.octets()),
    {
        self.buffer[0] / 8
    }

    /// Return the total datagram size.
    pub fn datagram_size(&self) -> (r: u16)
        requires
            self.octets().len() >= 2,
        ensures
            r == size_of(self.octets()),
    {
        bytes::get_u16(self.buffer, 0) % 0x800
    }

    /// Return the datagram tag.
    pub fn datagram_tag(&self) -> (r: u16)
        requires
            self.octets().len() >= 4,
        ensures
            r == tag_of(self.octets()),
    {
        bytes::get_u16(self.buffer, 2)
    }

    /// Return the datagram offset, in units of 8 octets.
    pub fn datagram_offset(&self) -> (r: u8)
        requires
            well_formed(self.octets()),
        ensures
            r == if dispatch_of(self.octets()) == DISPATCH_FRAGMENT_HEADER {
                self.octets()[4]
            } else {
                0
            },
    {
        if self.dispatch() == DISPATCH_FIRST_FRAGMENT_HEADER {
            0
        } else {
            self.buffer[4]
        }
    }

    /// Returns `true` when this header is from the first fragment of a link.
    pub fn is_first_fragment(&self) -> (r: bool)
        requires
            self.octets().len() >= 1,
        ensures
            r == (dispatch_of(self.octets()) == DISPATCH_FIRST_FRAGMENT_HEADER),
    {
        self.dispatch() == DISPATCH_FIRST_FRAGMENT_HEADER
    }

    /// Return the length of the fragment header.
    pub fn header_len(&self) -> (r: usize)
        requires
            self.octets().len() >= 1,
            header_len_of(self.octets()) is Some,
        ensures
            r == header_len_of(self.octets())->0,
    {
        if self.dispatch() == DISPATCH_FIRST_FRAGMENT_HEADER {
            FIRST_FRAGMENT_HEADER_SIZE
        } else {
            NEXT_FRAGMENT_HEADER_SIZE
        }
    }

    /// Returns the key for identifying the packet it belongs to.
    ///
    /// The MAC header must have a source and a destination address.
    pub fn get_key(&self, ieee802154_repr: &Ieee802154Repr) -> (r: Key)
        requires
            self.octets().len() >= 4,
            ieee802154_repr.src_addr is Some,
            ieee802154_repr.dst_addr is Some,
        ensures
            r == (Key {
                ll_src_addr: ieee802154_repr.src_addr->0,
                ll_dst_addr: ieee802154_repr.dst_addr->0,
                datagram_size: size_of(self.octets()),
                datagram_tag: tag_of(self.octets()),
            }),
    {
        Key {
            ll_src_addr: ieee802154_repr.src_addr.unwrap(),
            ll_dst_addr: ieee802154_repr.dst_addr.unwrap(),
            datagram_size: self.datagram_size(),
            datagram_tag: self.datagram_tag(),
        }
    }

    /// Return the payload.
    pub fn payload(&self) -> (r: &[u8])
        requires
            well_formed(self.octets()),
        ensures
            r@ == self.octets().skip(header_len_of(self.octets())->0),
    {
        let start: usize = self.header_len();
        let r = &self.buffer[start..self.buffer.len()];
        assert(r@ =~= self.octets().skip(start as int));
        r
    }

    fn set_dispatch_field(&mut self, value: u8)
        requires
            old(self).octets().len() >= 1,
            value < 32,
        ensures
            final(self).octets() == old(self).octets().update(0, (value * 8 + old(self).octets()[0] % 8) as u8),
            final(final(self).buffer)@ == final(old(self).buffer)@,
    {
        let low: u8 = self.buffer[0] % 8;
        self.buffer[0] = value * 8 + low;
    }

    fn set_datagram_size(&mut self, size: u16)
        requires
            old(self).octets().len() >= 2,
        ensures
            final(self).octets() == bytes::overwrite(
                old(self).octets(),
                0,
                bytes::octets16(((bytes::be16(old(self).octets(), 0) / 0x800) * 0x800) as u16 | size),
            ),
            final(final(self).buffer)@ == final(old(self).buffer)@,
    {
        let word: u16 = bytes::get_u16(self.buffer, 0);
        bytes::put_u16(self.buffer, 0, (word / 0x800 * 0x800) | size);
    }

    fn set_datagram_tag(&mut self, tag: u16)
        requires
            old(self).octets().len() >= 4,
        ensures
            final(self).octets() == bytes::overwrite(old(self).octets(), 2, bytes::octets16(tag)),
            final(final(self).buffer)@ == final(old(self).buffer)@,
    {
        bytes::put_u16(self.buffer, 2, tag);
    }

    fn set_datagram_offset(&mut self, offset: u8)
        requires
            old(self).octets().len() >= 5,
        ensures
            final(self).octets() == old(self).octets().update(4, offset),
            final(final(self).buffer)@ == final(old(self).buffer)@,
    {
        self.buffer[4] = offset;
    }
}

/// The fields of a 6LoWPAN fragment header.
#[derive(Debug, PartialEq, Eq, Structural, Clone, Copy)]
pub enum Repr {
    /// The first fragment of a datagram.
    FirstFragment {
        /// The size of the whole IPv6 datagram.
        size: u16,
        /// The tag shared by every fragment of the datagram.
        tag: u16,
    },
    /// Any fragment but the first.
    Fragment {
        /// The size of the whole IPv6 datagram.
        size: u16,
        /// The tag shared by every fragment of the datagram.
        tag: u16,
        /// The offset of this fragment, in units of 8 octets.
        offset: u8,
    },
}

impl Repr {
    /// The fields of the header that `data` starts with.
    pub open spec fn of(data: Seq<u8>) -> Repr {
        if dispatch_of(data) == DISPATCH_FIRST_FRAGMENT_HEADER {
            Repr::FirstFragment { size: size_of(data), tag: tag_of(data) }
        } else {
            Repr::Fragment { size: size_of(data), tag: tag_of(data), offset: data[4] }
        }
    }

    /// The datagram size.
    pub open spec fn size_view(self) -> u16 {
        match self {
            Repr::FirstFragment { size, .. } => size,
            Repr::Fragment { size, .. } => size,
        }
    }

    /// The octets of the header. A size of more than eleven bits runs over into the
    /// dispatch.
    pub open spec fn octets(self) -> Seq<u8> {
        match self {
            Repr::FirstFragment { size, tag } => bytes::octets16(0xc000u16 | size) + bytes::octets16(tag),
            Repr::Fragment { size, tag, offset } => bytes::octets16(0xe000u16 | size) + bytes::octets16(tag)
                + seq![offset],
        }
    }

    /// The fields in words.
    pub open spec fn text_view(self) -> Seq<char> {
        match self {
            Repr::FirstFragment { size, tag } => "FirstFrag size="@ + text::decimal(size as nat) + " tag="@
                + text::decimal(tag as nat),
            Repr::Fragment { size, tag, offset } => "NthFrag size="@ + text::decimal(size as nat) + " tag="@
                + text::decimal(tag as nat) + " offset="@ + text::decimal(offset as nat),
        }
    }

    /// The fields in words.
    pub fn text(&self) -> (r: String)
        ensures
            r@ == self.text_view(),
    {
        match self {
            Repr::FirstFragment { size, tag } => {
                let mut out = text::owned("FirstFrag size=");
                text::push_decimal(&mut out, *size as u64);
                text::push_str(&mut out, " tag=");
                text::push_decimal(&mut out, *tag as u64);
                out
            },
            Repr::Fragment { size, tag, offset } => {
                let mut out = text::owned("NthFrag size=");
                text::push_decimal(&mut out, *size as u64);
                text::push_str(&mut out, " tag=");
                text::push_decimal(&mut out, *tag as u64);
                text::push_str(&mut out, " offset=");
                text::push_decimal(&mut out, *offset as u64);
                out
            },
        }
    }

    /// Parse a 6LoWPAN Fragment header.
    pub fn parse(packet: &Packet<'_>) -> (r: Result<Self, Error>)
        ensures
            r is Ok <==> well_formed(packet.octets()),
            r matches Ok(repr) ==> repr == Repr::of(packet.octets()),
    {
        if packet.check_len().is_err() {
            return Err(Error);
        }
        let size: u16 = packet.datagram_size();
        let tag: u16 = packet.datagram_tag();
        if packet.dispatch() == DISPATCH_FIRST_FRAGMENT_HEADER {
            Ok(Repr::FirstFragment { size, tag })
        } else {
            Ok(Repr::Fragment { size, tag, offset: packet.datagram_offset() })
        }
    }

    /// Returns the length of the Fragment header.
    pub fn buffer_len(&self) -> (r: usize)
        ensures
            r == self.octets().len(),
    {
        match self {
            Repr::FirstFragment { .. } => FIRST_FRAGMENT_HEADER_SIZE,
            Repr::Fragment { .. } => NEXT_FRAGMENT_HEADER_SIZE,
        }
    }

    /// Write the header into a packet.
    ///
    /// The buffer must be at least as long as the header.
    pub fn emit(&self, packet: &mut Packet<'_>)
        requires
            old(packet).octets().len() >= self.octets().len(),
        ensures
            final(packet).octets() == bytes::overwrite(old(packet).octets(), 0, self.octets()),
            final(final(packet).buffer)@ == final(old(packet).buffer)@,
    {
        let ghost before = packet.octets();
        match self {
            Repr::FirstFragment { size, tag } => {
                packet.set_dispatch_field(DISPATCH_FIRST_FRAGMENT_HEADER);
                assert(bytes::be16(packet.octets(), 0) / 0x800 * 0x800 == 0xc000);
                packet.set_datagram_size(*size);
                packet.set_datagram_tag(*tag);
            },
            Repr::Fragment { size, tag, offset } => {
                packet.set_dispatch_field(DISPATCH_FRAGMENT_HEADER);
                assert(bytes::be16(packet.octets(), 0) / 0x800 * 0x800 == 0xe000);
                packet.set_datagram_size(*size);
                packet.set_datagram_tag(*tag);
                packet.set_datagram_offset(*offset);
            },
        }
        assert(packet.octets() =~= bytes::overwrite(before, 0, self.octets()));
    }
}

/// The fields written into a fragment header are read back out of it, given that the
/// size fits its field.
pub proof fn law_fragment_round_trip(repr: Repr, data: Seq<u8>)
    requires
        repr.size_view() < 0x800,
        data.len() >= repr.octets().len(),
    ensures
        well_formed(bytes::overwrite(data, 0, repr.octets())),
        Repr::of(bytes::overwrite(data, 0, repr.octets())) == repr,
        bytes::overwrite(data, 0, repr.octets()).skip(repr.octets().len() as int) == data.skip(
            repr.octets().len() as int,
        ),
{
    let out = bytes::overwrite(data, 0, repr.octets());
    let size = repr.size_view();
    assert((0xc000u16 | size) == 0xc000u16 + size) by (bit_vector)
        requires
            size < 0x800,
    ;
    assert((0xe000u16 | size) == 0xe000u16 + size) by (bit_vector)
        requires
            size < 0x800,
    ;
    assert(out.skip(repr.octets().len() as int) =~= data.skip(repr.octets().len() as int));
}

} // verus!
