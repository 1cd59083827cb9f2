//! Owned packet buffers.
//!
//! Every packet in the stack is a [`PacketBuf`]: one bounded buffer, owned by
//! whoever holds it (the device, the stack, a socket, the application). In front
//! of the packet's octets there is headroom, which lower layers claim to prepend
//! their headers and from which stripped headers can be restored.

use vstd::prelude::*;

use crate::meta::PacketMeta;
use crate::wire::bytes;

verus! {

/// The size of a packet buffer, headroom included.
pub const PACKET_BUF_SIZE: usize = 1536;

/// What a packet buffer holds.
#[verifier::ext_equal]
pub struct PacketView {
    /// The octets in front of the packet. Headers stripped by
    /// [`PacketBuf::pull_front`] stay here until they are restored or overwritten.
    pub head: Seq<u8>,
    /// The packet's octets.
    pub data: Seq<u8>,
    /// The packet's metadata.
    pub meta: PacketMeta,
}

impl PacketView {
    /// The packet with `n` octets moved from its front to the headroom.
    pub open spec fn pulled(self, n: int) -> PacketView {
        PacketView { head: self.head + self.data.take(n), data: self.data.skip(n), meta: self.meta }
    }

    /// The packet with `n` octets moved from the headroom to its front.
    pub open spec fn pushed(self, n: int) -> PacketView {
        let at = self.head.len() - n;
        PacketView { head: self.head.take(at), data: self.head.skip(at) + self.data, meta: self.meta }
    }

    /// The packet with a header written in front of it.
    pub open spec fn prepended(self, header: Seq<u8>) -> PacketView {
        PacketView {
            head: self.head.take(self.head.len() - header.len()),
            data: header + self.data,
            meta: self.meta,
        }
    }

    /// The packet cut down to its first `n` octets.
    pub open spec fn truncated(self, n: int) -> PacketView {
        PacketView { head: self.head, data: self.data.take(n), meta: self.meta }
    }

    /// A new packet holding `data` behind `headroom` zero octets of headroom.
    pub open spec fn fresh(headroom: int, data: Seq<u8>) -> PacketView {
        PacketView { head: Seq::new(headroom as nat, |i: int| 0u8), data, meta: PacketMeta::none() }
    }

    /// Whether the buffer fits the size every buffer has.
    pub open spec fn fits(self) -> bool {
        self.head.len() + self.data.len() <= PACKET_BUF_SIZE
    }
}

/// Restoring a stripped header gives back the packet it was stripped from.
pub proof fn law_push_undoes_pull(p: PacketView, n: int)
    requires
        0 <= n <= p.data.len(),
    ensures
        p.pulled(n).pushed(n) == p,
{
    assert(p.pulled(n).pushed(n).head =~= p.head);
    assert(p.pulled(n).pushed(n).data =~= p.data);
}

/// Stripping a header that was just prepended gives back the packet, with the
/// header left in its headroom.
pub proof fn law_pull_undoes_prepend(p: PacketView, header: Seq<u8>)
    requires
        header.len() <= p.head.len(),
    ensures
        p.prepended(header).pulled(header.len() as int).data == p.data,
        p.prepended(header).pulled(header.len() as int).head == p.head.take(
            p.head.len() - header.len(),
        ) + header,
{
    assert(p.prepended(header).pulled(header.len() as int).data =~= p.data);
    assert((header + p.data).take(header.len() as int) =~= header);
}

/// A packet and the headroom in front of it, in one bounded buffer.
#[derive(Debug)]
pub struct PacketBuf {
    storage: Vec<u8>,
    start: usize,
    meta: PacketMeta,
}

impl View for PacketBuf {
    type V = PacketView;

    closed spec fn view(&self) -> PacketView {
        PacketView {
            head: self.storage@.take(self.start as int),
            data: self.storage@.skip(self.start as int),
            meta: self.meta,
        }
    }
}

impl PacketBuf {
    /// The buffer never outgrows its size.
    pub closed spec fn wf(&self) -> bool {
        self.start <= self.storage@.len() <= PACKET_BUF_SIZE
    }

    /// A well-formed buffer's headroom and packet fit its size.
    pub proof fn lemma_fits(&self)
        requires
            self.wf(),
        ensures
            self@.fits(),
    {
    }

    /// An empty packet without headroom.
    pub fn new() -> (r: Self)
        ensures
            r.wf(),
            r@.head == Seq::<u8>::empty(),
            r@.data == Seq::<u8>::empty(),
            r@.meta == PacketMeta::none(),
    {
        let r = PacketBuf { storage: Vec::new(), start: 0, meta: PacketMeta::default() };
        assert(r@.head =~= Seq::<u8>::empty());
        assert(r@.data =~= Seq::<u8>::empty());
        r
    }

    /// A packet holding `data` behind `headroom` octets of headroom.
    pub fn with_data(headroom: usize, data: &[u8]) -> (r: Self)
        requires
            headroom + data@.len() <= PACKET_BUF_SIZE,
        ensures
            r.wf(),
            r@ == PacketView::fresh(headroom as int, data@),
    {
        let mut storage: Vec<u8> = Vec::new();
        storage.resize(headroom, 0);
        bytes::push_bytes(&mut storage, data);
        let r = PacketBuf { storage, start: headroom, meta: PacketMeta::default() };
        assert(r@ =~= PacketView::fresh(headroom as int, data@));
        r
    }

    /// The number of octets a buffer can hold, headroom included.
    pub fn capacity(&self) -> (r: usize)
        ensures
            r == PACKET_BUF_SIZE,
    {
        PACKET_BUF_SIZE
    }

    /// Set aside `headroom` octets of headroom in an empty packet.
    pub fn reserve(&mut self, headroom: usize)
        requires
            old(self).wf(),
            old(self)@.data.len() == 0,
            headroom <= PACKET_BUF_SIZE,
        ensures
            final(self).wf(),
            final(self)@.head.len() == headroom,
            old(self)@.head.len() == 0 ==> final(self)@.head == Seq::new(headroom as nat, |i: int| 0u8),
            final(self)@.data == Seq::<u8>::empty(),
            final(self)@.meta == old(self)@.meta,
    {
        self.storage.resize(headroom, 0);
        self.start = headroom;
        assert(self@.data =~= Seq::<u8>::empty());
        proof {
            if old(self)@.head.len() == 0 {
                assert(self@.head =~= Seq::new(headroom as nat, |i: int| 0u8));
            }
        }
    }

    /// The packet's length.
    pub fn len(&self) -> (r: usize)
        requires
            self.wf(),
        ensures
            r == self@.data.len(),
    {
        self.storage.len() - self.start
    }

    /// Whether the packet holds no octets.
    pub fn is_empty(&self) -> (r: bool)
        requires
            self.wf(),
        ensures
            r == (self@.data.len() == 0),
    {
        self.storage.len() == self.start
    }

    /// The amount of headroom.
    pub fn headroom(&self) -> (r: usize)
        requires
            self.wf(),
        ensures
            r == self@.head.len(),
    {
        self.start
    }

    /// Set the packet's length. Octets added at the end are zero.
    pub fn set_len(&mut self, len: usize)
        requires
            old(self).wf(),
            old(self)@.head.len() + len <= PACKET_BUF_SIZE,
        ensures
            final(self).wf(),
            final(self)@.head == old(self)@.head,
            final(self)@.meta == old(self)@.meta,
            len <= old(self)@.data.len() ==> final(self)@.data == old(self)@.data.take(len as int),
            len >= old(self)@.data.len() ==> final(self)@.data == old(self)@.data + Seq::new(
                (len - old(self)@.data.len()) as nat,
                |i: int| 0u8,
            ),
    {
        self.storage.resize(self.start + len, 0);
        assert(self@.head =~= old(self)@.head);
        proof {
            if len <= old(self)@.data.len() {
                assert(self@.data =~= old(self)@.data.take(len as int));
            }
            if len >= old(self)@.data.len() {
                assert(self@.data =~= old(self)@.data + Seq::new(
                    (len - old(self)@.data.len()) as nat,
                    |i: int| 0u8,
                ));
            }
        }
    }

    /// Move `n` octets from the packet's front into the headroom.
    pub fn pull_front(&mut self, n: usize)
        requires
            old(self).wf(),
            n <= old(self)@.data.len(),
        ensures
            final(self).wf(),
            final(self)@ == old(self)@.pulled(n as int),
    {
        self.start = self.start + n;
        assert(self@.head =~= old(self)@.pulled(n as int).head);
        assert(self@.data =~= old(self)@.pulled(n as int).data);
    }

    /// Move `n` octets from the headroom to the packet's front.
    pub fn push_front(&mut self, n: usize)
        requires
            old(self).wf(),
            n <= old(self)@.head.len(),
        ensures
            final(self).wf(),
            final(self)@ == old(self)@.pushed(n as int),
    {
        self.start = self.start - n;
        assert(self@.head =~= old(self)@.pushed(n as int).head);
        assert(self@.data =~= old(self)@.pushed(n as int).data);
    }

    /// Claim headroom for a header and write it in front of the packet.
    pub fn prepend(&mut self, header: &[u8])
        requires
            old(self).wf(),
            header@.len() <= old(self)@.head.len(),
        ensures
            final(self).wf(),
            final(self)@ == old(self)@.prepended(header@),
    {
        let start: usize = self.start - header.len();
        bytes::put_bytes(self.storage.as_mut_slice(), start, header);
        self.start = start;
        assert(self@.head =~= old(self)@.prepended(header@).head);
        assert(self@.data =~= old(self)@.prepended(header@).data);
    }

    /// The packet's octets.
    pub fn as_slice(&self) -> (r: &[u8])
        requires
            self.wf(),
        ensures
            r@ == self@.data,
    {
        let n: usize = self.storage.len();
        let r = &self.storage.as_slice()[self.start..n];
        assert(r@ =~= self@.data);
        r
    }

    /// The packet's octets, for modification.
    pub fn as_mut_slice(&mut self) -> (r: &mut [u8])
        requires
            old(self).wf(),
        ensures
            r@ == old(self)@.data,
            final(r)@.len() == r@.len() ==> {
                &&& final(self).wf()
                &&& final(self)@.head == old(self)@.head
                &&& final(self)@.data == final(r)@
                &&& final(self)@.meta == old(self)@.meta
            },
    {
        let start: usize = self.start;
        let (head, tail) = self.storage.as_mut_slice().split_at_mut(start);
        assert(tail@ =~= old(self)@.data);
        proof {
            assert(head@ =~= old(self)@.head);
        }
        tail
    }

    /// The packet's metadata.
    pub fn meta(&self) -> (r: PacketMeta)
        ensures
            r == self@.meta,
    {
        self.meta
    }

    /// Replace the packet's metadata.
    pub fn set_meta(&mut self, meta: PacketMeta)
        requires
            old(self).wf(),
        ensures
            final(self).wf(),
            final(self)@ == (PacketView { meta, ..old(self)@ }),
    {
        self.meta = meta;
        assert(self@.head =~= old(self)@.head);
        assert(self@.data =~= old(self)@.data);
    }

    /// A copy of the packet.
    pub fn duplicate(&self) -> (r: Self)
        requires
            self.wf(),
        ensures
            r.wf(),
            r@ == self@,
    {
        let mut storage: Vec<u8> = Vec::new();
        bytes::push_bytes(&mut storage, self.storage.as_slice());
        assert(storage@ =~= self.storage@);
        PacketBuf { storage, start: self.start, meta: self.meta }
    }

    /// The packet's octets, copied out.
    pub fn to_vec(&self) -> (r: Vec<u8>)
        requires
            self.wf(),
        ensures
            r@ == self@.data,
    {
        let mut out: Vec<u8> = Vec::new();
        bytes::push_bytes(&mut out, self.as_slice());
        assert(out@ =~= self@.data);
        out
    }
}

} // verus!
