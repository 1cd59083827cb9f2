//! DNS messages (RFC 1035), as far as reading them goes.

use vstd::prelude::*;

use crate::wire::bytes;
use crate::wire::Error;

verus! {

/// The length of a DNS header.
pub const DNS_HEADER_LEN: usize = 12;

/// The longest name in dotted text form.
pub const DNS_MAX_NAME_LEN: usize = 255;

/// The Internet class.
pub const CLASS_IN: u16 = 1;

/// Record type: an IPv4 address.
pub const TYPE_A: u16 = 0x0001;

/// Record type: the name this one is an alias of.
pub const TYPE_CNAME: u16 = 0x0005;

/// Record type: an IPv6 address.
pub const TYPE_AAAA: u16 = 0x001c;

/// The UDP port of DNS.
pub const DNS_PORT: u16 = 53;

/// The UDP port of multicast DNS.
pub const MDNS_PORT: u16 = 5353;

/// Where the name at `at` ends: after the zero octet, or after the pointer that stands
/// for the rest of it. `None` if it does not end within `data`.
pub open spec fn name_end(data: Seq<u8>, at: int) -> Option<int>
    decreases data.len() - at,
{
    if at < 0 || at >= data.len() {
        None
    } else if data[at] == 0 {
        Some(at + 1)
    } else if data[at] / 64 == 0 {
        if at + 1 + data[at] > data.len() {
            None
        } else {
            name_end(data, at + 1 + data[at])
        }
    } else if data[at] / 64 == 3 {
        if at + 2 > data.len() {
            None
        } else {
            Some(at + 2)
        }
    } else {
        None
    }
}

/// The place in the message that the pointer at the start of `name` points to.
pub open spec fn pointer_target(name: Seq<u8>) -> int {
    (name[0] % 64) * 0x100 + name[1]
}

/// A name in dotted text form, a dot after each label, with pointers followed.
/// `None` if it is malformed.
///
/// A pointer must point backwards: what is behind it is looked for in front of it only,
/// so that no octet is read twice.
pub open spec fn name_text(packet: Seq<u8>, name: Seq<u8>) -> Option<Seq<u8>>
    decreases packet.len(), name.len(),
{
    if name.len() == 0 {
        None
    } else if name[0] == 0 {
        Some(Seq::empty())
    } else if name[0] / 64 == 0 {
        if name.len() < 1 + name[0] {
            None
        } else {
            match name_text(packet, name.skip(1 + name[0])) {
                Some(rest) => Some(name.subrange(1, 1 + name[0]) + seq![0x2eu8] + rest),
                None => None,
            }
        }
    } else if name[0] / 64 == 3 {
        if name.len() < 2 || packet.len() <= pointer_target(name) {
            None
        } else {
            name_text(packet.take(pointer_target(name)), packet.skip(pointer_target(name)))
        }
    } else {
        None
    }
}

/// `core::str::from_utf8`: the text that the octets encode, or `None` if they are not
/// valid UTF-8.
#[verifier::external_body]
fn utf8_text(octets: &[u8]) -> (r: Option<&str>)
    ensures
        r is Some <==> vstd::utf8::valid_utf8(octets@),
        r matches Some(text) ==> text@ == vstd::utf8::decode_utf8(octets@),
{
    core::str::from_utf8(octets).ok()
}

/// A DNS name in dotted text form.
#[derive(Debug, PartialEq, Eq)]
pub struct DnsName {
    text: Vec<u8>,
}

impl View for DnsName {
    type V = Seq<u8>;

    closed spec fn view(&self) -> Seq<u8> {
        self.text@
    }
}

impl DnsName {
    /// The name that `name` stands for in the message `packet`, or `None` if it is
    /// malformed or too long.
    pub open spec fn of(packet: Seq<u8>, name: Seq<u8>) -> Option<Seq<u8>> {
        match name_text(packet, name) {
            Some(text) if text.len() <= DNS_MAX_NAME_LEN => Some(text),
            _ => None,
        }
    }

    /// Read a name, following the pointers in it into the message `packet`.
    pub fn parse(packet: &[u8], name: &[u8]) -> (r: Option<Self>)
        ensures
            (match r {
                Some(n) => Some(n@),
                None => None,
            }) == DnsName::of(packet@, name@),
    {
        let mut text: Vec<u8> = Vec::new();
        let mut before: &[u8] = packet;
        let mut rest: &[u8] = name;
        assert(text@ =~= Seq::<u8>::empty());
        assert(name_text(packet@, name@) matches Some(t) ==> Seq::<u8>::empty() + t =~= t);
        loop
            invariant
                text@.len() <= DNS_MAX_NAME_LEN,
                name_text(packet@, name@) == match name_text(before@, rest@) {
                    Some(t) => Some(text@ + t),
                    None => None,
                },
            decreases before@.len(), rest@.len(),
        {
            assert(before.len() == before@.len());
            if rest.len() == 0 {
                return None;
            }
            let first: u8 = rest[0];
            if first == 0 {
                assert(text@ + Seq::<u8>::empty() =~= text@);
                return Some(DnsName { text });
            } else if first / 64 == 0 {
                let n: usize = first as usize;
                if rest.len() < 1 + n {
                    return None;
                }
                let ghost t = name_text(before@, rest@.skip(1 + first as int));
                if text.len() + n + 1 > DNS_MAX_NAME_LEN {
                    assert(t matches Some(t) ==> (text@ + (rest@.subrange(1, 1 + first as int) + seq![0x2eu8]
                        + t)).len() > DNS_MAX_NAME_LEN);
                    return None;
                }
                let ghost head = text@;
                bytes::push_bytes(&mut text, &rest[1..1 + n]);
                text.push(0x2e);
                assert(rest@.subrange(1 + n as int, rest@.len() as int) =~= rest@.skip(1 + first as int));
                assert(t matches Some(t) ==> head + (rest@.subrange(1, 1 + first as int) + seq![0x2eu8] + t)
                    =~= text@ + t);
                rest = &rest[1 + n..rest.len()];
            } else if first / 64 == 3 {
                if rest.len() < 2 {
                    return None;
                }
                let target: usize = (first % 64) as usize * 0x100 + rest[1] as usize;
                if before.len() <= target {
                    return None;
                }
                assert(before@.subrange(target as int, before@.len() as int) =~= before@.skip(target as int));
                assert(before@.subrange(0, target as int) =~= before@.take(target as int));
                rest = &before[target..before.len()];
                before = &before[0..target];
            } else {
                return None;
            }
        }
    }

    /// The name as text, or a note that it is none.
    pub fn as_str(&self) -> (r: &str)
        ensures
            r@ == if vstd::utf8::valid_utf8(self@) {
                vstd::utf8::decode_utf8(self@)
            } else {
                "<non-utf8>"@
            },
    {
        match utf8_text(self.text.as_slice()) {
            Some(text) => text,
            None => "<non-utf8>",
        }
    }
}

/// Find where the name at `at` ends.
fn find_name_end(data: &[u8], at: usize) -> (r: Option<usize>)
    requires
        at <= data@.len(),
    ensures
        (match r {
            Some(end) => Some(end as int),
            None => None,
        }) == name_end(data@, at as int),
        r matches Some(end) ==> at < end <= data@.len(),
{
    let mut i: usize = at;
    while i < data.len()
        invariant
            at <= i <= data@.len(),
            name_end(data@, at as int) == name_end(data@, i as int),
        decreases data@.len() - i,
    {
        assert(data.len() == data@.len());
        let first: u8 = data[i];
        if first == 0 {
            return Some(i + 1);
        } else if first / 64 == 0 {
            let n: usize = first as usize;
            if n > data.len() - i - 1 {
                return None;
            }
            i += 1 + n;
        } else if first / 64 == 3 {
            if data.len() - i < 2 {
                return None;
            }
            return Some(i + 2);
        } else {
            return None;
        }
    }
    None
}

/// Where the question at `at` ends, or `None` if it is malformed.
pub open spec fn question_end(data: Seq<u8>, at: int) -> Option<int> {
    match name_end(data, at) {
        Some(end) if end + 4 <= data.len() && bytes::be16(data, end + 2) == CLASS_IN => Some(end + 4),
        _ => None,
    }
}

/// A question.
#[derive(Debug, Clone, Copy)]
pub struct DnsQuestion {
    /// Where the name ends.
    pub name_end: usize,
    pub type_: u16,
    /// Where the question ends.
    pub end: usize,
}

impl DnsQuestion {
    /// Read the question at `at`. Fails exactly when it is not there in full or is not
    /// of the Internet class.
    pub fn parse(data: &[u8], at: usize) -> (r: Result<Self, Error>)
        requires
            at <= data@.len(),
        ensures
            r is Err <==> question_end(data@, at as int) is None,
            r matches Ok(q) ==> {
                &&& Some(q.name_end as int) == name_end(data@, at as int)
                &&& q.type_ == bytes::be16(data@, q.name_end as int)
                &&& Some(q.end as int) == question_end(data@, at as int)
                &&& at < q.name_end <= q.end <= data@.len()
            },
    {
        match find_name_end(data, at) {
            Some(name_end) => {
                assert(data.len() == data@.len());
                if data.len() - name_end < 4 {
                    return Err(Error);
                }
                if bytes::get_u16(data, name_end + 2) != CLASS_IN {
                    return Err(Error);
                }
                Ok(DnsQuestion { name_end, type_: bytes::get_u16(data, name_end), end: name_end + 4 })
            },
            None => Err(Error),
        }
    }
}

/// Where the record at `at` ends, or `None` if it is malformed.
pub open spec fn record_end(data: Seq<u8>, at: int) -> Option<int> {
    match name_end(data, at) {
        Some(end) if {
            &&& end + 10 <= data.len()
            &&& bytes::be16(data, end + 2) == CLASS_IN
            &&& end + 10 + bytes::be16(data, end + 8) <= data.len()
            &&& bytes::be16(data, end) == TYPE_A ==> bytes::be16(data, end + 8) == 4
            &&& bytes::be16(data, end) == TYPE_AAAA ==> bytes::be16(data, end + 8) == 16
        } => Some(end + 10 + bytes::be16(data, end + 8)),
        _ => None,
    }
}

/// A resource record.
#[derive(Debug, Clone, Copy)]
pub struct DnsRecord {
    /// Where the name ends. The data starts ten octets later.
    pub name_end: usize,
    pub type_: u16,
    pub ttl: u32,
    /// Where the record ends, and the data with it.
    pub end: usize,
}

impl DnsRecord {
    /// Read the record at `at`. Fails exactly when it is not there in full, is not of
    /// the Internet class, or holds an address of the wrong length.
    pub fn parse(data: &[u8], at: usize) -> (r: Result<Self, Error>)
        requires
            at <= data@.len(),
        ensures
            r is Err <==> record_end(data@, at as int) is None,
            r matches Ok(q) ==> {
                &&& Some(q.name_end as int) == name_end(data@, at as int)
                &&& q.type_ == bytes::be16(data@, q.name_end as int)
                &&& q.ttl == bytes::be32(data@, q.name_end + 4)
                &&& Some(q.end as int) == record_end(data@, at as int)
                &&& at < q.name_end && q.name_end + 10 <= q.end <= data@.len()
                &&& q.type_ == TYPE_A ==> q.end == q.name_end + 14
                &&& q.type_ == TYPE_AAAA ==> q.end == q.name_end + 26
            },
    {
        match find_name_end(data, at) {
            Some(name_end) => {
                assert(data.len() == data@.len());
                if data.len() - name_end < 10 {
                    return Err(Error);
                }
                let type_: u16 = bytes::get_u16(data, name_end);
                if bytes::get_u16(data, name_end + 2) != CLASS_IN {
                    return Err(Error);
                }
                let ttl: u32 = bytes::get_u32(data, name_end + 4);
                let len: usize = bytes::get_u16(data, name_end + 8) as usize;
                if len > data.len() - name_end - 10 {
                    return Err(Error);
                }
                if (type_ == TYPE_A && len != 4) || (type_ == TYPE_AAAA && len != 16) {
                    return Err(Error);
                }
                Ok(DnsRecord { name_end, type_, ttl, end: name_end + 10 + len })
            },
            None => Err(Error),
        }
    }
}

} // verus!
