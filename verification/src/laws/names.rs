//! Names and records in DNS messages.

use vstd::prelude::*;

use crate::laws::packet;
use crate::packet_log::dns as records;
use crate::wire::bytes;
use crate::wire::dns;

verus! {

/// The labels of a name as a message holds them: each behind its length.
pub open spec fn wire(labels: Seq<Seq<u8>>) -> Seq<u8>
    decreases labels.len(),
{
    if labels.len() == 0 {
        Seq::empty()
    } else {
        seq![labels[0].len() as u8] + labels[0] + wire(labels.skip(1))
    }
}

/// The labels of a name as it is written: each before a dot.
pub open spec fn dotted(labels: Seq<Seq<u8>>) -> Seq<u8>
    decreases labels.len(),
{
    if labels.len() == 0 {
        Seq::empty()
    } else {
        labels[0] + seq!['.' as u8] + dotted(labels.skip(1))
    }
}

/// Whether labels are as long as labels can be.
pub open spec fn proper(labels: Seq<Seq<u8>>) -> bool {
    forall|i: int| 0 <= i < labels.len() ==> 1 <= (#[trigger] labels[i]).len() <= 63
}

/// Each label of a name is read with the dot behind it, and then what follows it.
pub proof fn law_labels_are_read_in_turn(message: Seq<u8>, labels: Seq<Seq<u8>>, rest: Seq<u8>)
    requires
        proper(labels),
    ensures
        dns::name_text(message, wire(labels) + rest) == match dns::name_text(message, rest) {
            Some(text) => Some(dotted(labels) + text),
            None => None,
        },
    decreases labels.len(),
{
    let name = wire(labels) + rest;
    if labels.len() == 0 {
        assert(name =~= rest);
        if let Some(text) = dns::name_text(message, rest) {
            assert(dotted(labels) + text =~= text);
        }
    } else {
        let label = labels[0];
        let after = labels.skip(1);
        assert forall|i: int| 0 <= i < after.len() implies 1 <= (#[trigger] after[i]).len() <= 63 by {
            assert(after[i] == labels[i + 1]);
        }
        law_labels_are_read_in_turn(message, after, rest);
        assert(name[0] == label.len());
        assert(name.subrange(1, 1 + name[0]) =~= label);
        assert(name.skip(1 + name[0]) =~= wire(after) + rest);
        if let Some(text) = dns::name_text(message, rest) {
            assert(label + seq![0x2eu8] + (dotted(after) + text) =~= dotted(labels) + text);
        }
    }
}

/// A name that ends with a zero is read as its labels.
pub proof fn law_whole_name_is_read(message: Seq<u8>, labels: Seq<Seq<u8>>, rest: Seq<u8>)
    requires
        proper(labels),
    ensures
        dns::name_text(message, wire(labels) + seq![0u8] + rest) == Some(dotted(labels)),
{
    let tail = seq![0u8] + rest;
    law_labels_are_read_in_turn(message, labels, tail);
    assert(wire(labels) + seq![0u8] + rest =~= wire(labels) + tail);
    assert(tail[0] == 0);
    assert(dotted(labels) + Seq::<u8>::empty() =~= dotted(labels));
}

/// A name that ends with a pointer goes on with the name that the message holds there, of
/// which only the part before counts for further pointers.
pub proof fn law_pointer_is_followed(message: Seq<u8>, labels: Seq<Seq<u8>>, at: int, rest: Seq<u8>)
    requires
        proper(labels),
        0 <= at < 0x4000,
        at < message.len(),
    ensures
        dns::name_text(
            message,
            wire(labels) + seq![(0xc0 + at / 0x100) as u8, (at % 0x100) as u8] + rest,
        ) == match dns::name_text(message.take(at), message.skip(at)) {
            Some(text) => Some(dotted(labels) + text),
            None => None,
        },
{
    let pointer = seq![(0xc0 + at / 0x100) as u8, (at % 0x100) as u8];
    let tail = pointer + rest;
    law_labels_are_read_in_turn(message, labels, tail);
    assert(wire(labels) + pointer + rest =~= wire(labels) + tail);
    assert(tail[0] == 0xc0 + at / 0x100 && tail[1] == at % 0x100);
    assert(dns::pointer_target(tail) == at);
}

/// A name ends behind its zero, or behind its pointer.
pub proof fn law_name_ends(before: Seq<u8>, labels: Seq<Seq<u8>>, last: Seq<u8>, rest: Seq<u8>)
    requires
        proper(labels),
        last == seq![0u8] || last.len() == 2 && last[0] >= 0xc0,
    ensures
        dns::name_end(before + wire(labels) + last + rest, before.len() as int) == Some(
            (before.len() + wire(labels).len() + last.len()) as int,
        ),
    decreases labels.len(),
{
    let d = before + wire(labels) + last + rest;
    let n = before.len() as int;
    if labels.len() == 0 {
        assert(d[n] == last[0]);
    } else {
        let label = labels[0];
        let after = labels.skip(1);
        assert forall|i: int| 0 <= i < after.len() implies 1 <= (#[trigger] after[i]).len() <= 63 by {
            assert(after[i] == labels[i + 1]);
        }
        let further = before + seq![label.len() as u8] + label;
        law_name_ends(further, after, last, rest);
        assert(d =~= further + wire(after) + last + rest);
        assert(d[n] == label.len());
    }
}

/// A question is a name, a type and the class 1; a record has a lifetime and a length besides,
/// and as many octets of data.
pub proof fn law_questions_and_records_end(d: Seq<u8>, at: int, end: int)
    requires
        dns::name_end(d, at) == Some(end),
        0 <= end,
    ensures
        dns::question_end(d, at) == if end + 4 <= d.len() && packet::word(d, end + 2) == 1 {
            Some(end + 4)
        } else {
            None
        },
        ({
            let n = packet::word(d, end + 8);
            let kind = packet::word(d, end);
            dns::record_end(d, at) == if end + 10 <= d.len() && packet::word(d, end + 2) == 1 && end + 10 + n <= d.len()
                && (kind == 1 ==> n == 4) && (kind == 28 ==> n == 16) {
                Some(end + 10 + n)
            } else {
                None
            }
        }),
{
}

/// The header of a message: an identifier, flags, and how many questions and records follow.
pub proof fn law_message_header(d: Seq<u8>)
    requires
        d.len() >= 12,
    ensures
        ({
            let header = records::DnsHeader::of(d);
            &&& header.id == packet::word(d, 0)
            &&& header.response == (d[2] >= 128)
            &&& header.opcode == d[2] / 8 % 16
            &&& header.rcode == d[3] % 16
            &&& header.questions == packet::word(d, 4)
            &&& header.answers == packet::word(d, 6)
            &&& header.authorities == packet::word(d, 8)
            &&& header.additionals == packet::word(d, 10)
        }),
{
    let flags = bytes::be16(d, 2);
    assert(flags == d[2] * 0x100 + d[3]);
    assert(flags / 0x800 == d[2] / 8);
}

} // verus!
