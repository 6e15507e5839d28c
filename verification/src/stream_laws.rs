//! What holds of a client's stream of packets: every packet in it is found.

use vstd::prelude::*;

use crate::address_laws::Destination;
use crate::stream::{Message, Rest};
use crate::{address_laws, packet, packet_laws, stream};

verus! {

/// Behind a payload, one CR LF is taken off, whole or not at all. A lone CR is kept until it is
/// known what follows it. Nothing else is ever taken off.
pub proof fn law_line_break_is_taken_off(a: u8, octets: Seq<u8>)
    ensures
        stream::settled(Rest { open: true, octets: seq![13u8, 10u8] + octets }) == (Rest {
            open: false,
            octets,
        }),
        stream::settled(Rest { open: true, octets: seq![13u8] }) == (Rest {
            open: true,
            octets: seq![13u8],
        }),
        stream::settled(Rest { open: true, octets: seq![] }) == (Rest { open: true, octets: seq![] }),
        a != 13 ==> stream::settled(Rest { open: true, octets: seq![a] + octets }) == (Rest {
            open: false,
            octets: seq![a] + octets,
        }),
        a != 10 ==> stream::settled(Rest { open: true, octets: seq![13u8, a] + octets }) == (Rest {
            open: false,
            octets: seq![13u8, a] + octets,
        }),
        stream::settled(Rest { open: false, octets }) == (Rest { open: false, octets }),
{
    let broken = seq![13u8, 10u8] + octets;
    assert(broken.len() >= 2 && broken[0] == 13 && broken[1] == 10);
    assert(broken.skip(2) =~= octets);
    let other = seq![a] + octets;
    assert(other[0] == a);
    if other == seq![13u8] {
        assert(a == 13);
    }
    let lone = seq![13u8, a] + octets;
    assert(lone.len() >= 2 && lone[1] == a);
}

/// A packet as a client puts it into its stream, with a CR LF behind it or not.
pub ghost struct Framed {
    pub to: Destination,
    pub port: u16,
    pub payload: Seq<u8>,
    pub line_break: bool,
}

/// Whether there is such a packet.
pub open spec fn is_framed(f: Framed) -> bool {
    address_laws::is_destination(f.to) && f.payload.len() <= 65535
}

/// The octets of a packet in a stream.
pub open spec fn framed_octets(f: Framed) -> Seq<u8> {
    address_laws::wire_of(f.to) + packet_laws::head_of(f.port, f.payload.len()) + f.payload
        + if f.line_break {
        seq![13u8, 10u8]
    } else {
        seq![]
    }
}

/// The octets of a stream of packets.
pub open spec fn stream_octets(items: Seq<Framed>) -> Seq<u8>
    decreases items.len(),
{
    if items.len() == 0 {
        seq![]
    } else {
        framed_octets(items[0]) + stream_octets(items.drop_first())
    }
}

/// The message that a packet carries.
pub open spec fn framed_message(f: Framed) -> Message {
    Message { addr: address_laws::text_of(f.to), port: f.port, payload: f.payload }
}

#[verifier::opaque]
spec fn found_in(open: bool, octets: Seq<u8>) -> (Seq<Message>, Rest) {
    stream::messages(Rest { open, octets })
}

/// What follows a payload: the CR LF of the packet, if it has one, and the rest of the stream.
spec fn behind_payload(line_break: bool, rest: Seq<u8>) -> Seq<u8> {
    if line_break {
        seq![13u8, 10u8] + rest
    } else {
        rest
    }
}

proof fn lemma_framed_octets(f: Framed, rest: Seq<u8>)
    requires
        is_framed(f),
    ensures
        ({
            let behind = behind_payload(f.line_break, rest);
            let octets = framed_octets(f) + rest;
            let end = address_laws::wire_of(f.to).len() + 6 + f.payload.len();
            &&& octets == address_laws::wire_of(f.to) + packet_laws::head_of(
                f.port,
                f.payload.len(),
            ) + f.payload + behind
            &&& octets.skip(end as int) == behind
            &&& octets.len() > 1
            &&& octets[0] != 13
        }),
{
    let wire = address_laws::wire_of(f.to);
    let behind = behind_payload(f.line_break, rest);
    let octets = framed_octets(f) + rest;
    assert(octets =~= wire + packet_laws::head_of(f.port, f.payload.len()) + f.payload + behind);
    assert(octets.skip((wire.len() + 6 + f.payload.len()) as int) =~= behind);
    assert(octets[0] == wire[0]);
}

/// The message of the packet at the front comes first, and then those behind its payload.
proof fn lemma_front(open: bool, octets: Seq<u8>, p: packet::Packet)
    requires
        octets.len() > 1,
        octets[0] != 13,
        packet::packet_of(octets) == Some(p),
    ensures
        found_in(open, octets) == (
            seq![stream::message_of(p)] + found_in(true, octets.skip(p.end)).0,
            found_in(true, octets.skip(p.end)).1,
        ),
{
    reveal(found_in);
    assert(octets != seq![13u8]);
    assert(stream::settled(Rest { open, octets }) == (Rest { open: false, octets }));
}

#[verifier::spinoff_prover]
proof fn lemma_first_packet(open: bool, f: Framed, rest: Seq<u8>)
    requires
        is_framed(f),
    ensures
        found_in(open, framed_octets(f) + rest) == (
            seq![framed_message(f)] + found_in(true, behind_payload(f.line_break, rest)).0,
            found_in(true, behind_payload(f.line_break, rest)).1,
        ),
{
    let octets = framed_octets(f) + rest;
    lemma_framed_octets(f, rest);
    packet_laws::law_packet_for_destination(
        f.to,
        f.port,
        f.payload,
        behind_payload(f.line_break, rest),
    );
    let p = packet::packet_of(octets)->0;
    lemma_front(open, octets, p);
    assert(stream::message_of(p) == framed_message(f));
}

proof fn lemma_behind_payload(line_break: bool, octets: Seq<u8>)
    ensures
        found_in(true, behind_payload(line_break, octets)) == found_in(!line_break, octets),
{
    reveal(found_in);
    law_line_break_is_taken_off(0, octets);
}

proof fn lemma_nothing_left(open: bool)
    ensures
        found_in(open, seq![]).0 == Seq::<Message>::empty(),
        found_in(open, seq![]).1.octets.len() == 0,
{
    reveal(found_in);
}

proof fn lemma_packets_are_found(open: bool, items: Seq<Framed>)
    requires
        forall|i: int| 0 <= i < items.len() ==> is_framed(#[trigger] items[i]),
    ensures
        found_in(open, stream_octets(items)).0 == items.map_values(|f: Framed| framed_message(f)),
        found_in(open, stream_octets(items)).1.octets.len() == 0,
    decreases items.len(),
{
    let messages = items.map_values(|f: Framed| framed_message(f));
    if items.len() > 0 {
        let f = items[0];
        let tail = items.drop_first();
        assert(is_framed(f));
        assert forall|i: int| 0 <= i < tail.len() implies is_framed(#[trigger] tail[i]) by {
            assert(tail[i] == items[i + 1]);
        }
        lemma_first_packet(open, f, stream_octets(tail));
        lemma_behind_payload(f.line_break, stream_octets(tail));
        lemma_packets_are_found(!f.line_break, tail);
        assert(messages =~= seq![framed_message(f)] + tail.map_values(
            |f: Framed| framed_message(f),
        ));
    } else {
        lemma_nothing_left(open);
        assert(messages =~= seq![]);
    }
}

/// Every packet of a stream is found, in order, with its destination, its port and its payload,
/// and nothing is left of the stream.
pub proof fn law_packets_are_found(items: Seq<Framed>)
    requires
        forall|i: int| 0 <= i < items.len() ==> is_framed(#[trigger] items[i]),
    ensures
        ({
            let (found, left) = stream::messages(Rest { open: false, octets: stream_octets(items) });
            &&& found.len() == items.len()
            &&& forall|i: int|
                0 <= i < items.len() ==> #[trigger] found[i] == (Message {
                    addr: address_laws::text_of(items[i].to),
                    port: items[i].port,
                    payload: items[i].payload,
                })
            &&& left.octets.len() == 0
        }),
{
    reveal(found_in);
    lemma_packets_are_found(false, items);
}

/// Where no packet stands, nothing is found and nothing is skipped.
pub proof fn law_nothing_is_skipped(rest: Rest)
    requires
        packet::packet_of(stream::settled(rest).octets) is None,
    ensures
        stream::messages(rest) == (Seq::<Message>::empty(), stream::settled(rest)),
{
}

} // verus!
