//! What holds of single packets: a packet is read back as it was written, whatever follows it.

use vstd::prelude::*;

use crate::packet::Packet;
use crate::address_laws::Destination;
use crate::{address, address_laws, ip, ip_laws, packet};

verus! {

/// The canonical text of the Internet address that `addr` denotes.
pub open spec fn canonical(addr: Seq<char>) -> Seq<char> {
    match ip::ipv4_value(addr) {
        Some(octets) => ip::ipv4_text(octets),
        None => ip::ipv6_text(ip::ipv6_value(addr)->0),
    }
}

/// A packet takes at least eight octets, and no more than there are.
pub proof fn lemma_packet_size(data: Seq<u8>)
    ensures
        packet::packet_of(data) matches Some(p) ==> 8 <= p.end <= p.size <= data.len(),
{
}

/// A packet at the front of `data` stays there whatever follows; it only grows by a CR LF
/// that the octets behind its payload complete.
pub proof fn law_packet_extends(data: Seq<u8>, rest: Seq<u8>)
    ensures
        packet::packet_of(data) matches Some(p) ==> packet::packet_of(data + rest) == Some(
            Packet {
                size: if packet::has_crlf_at(data + rest, p.end) {
                    p.end + 2
                } else {
                    p.end
                },
                ..p
            },
        ),
{
    if let Some(p) = packet::packet_of(data) {
        let whole = data + rest;
        address::law_address_stands_alone(seq![], data, 0, rest);
        assert(seq![] + data + rest =~= whole);
        let at = address::address_at(data, 0).1;
        assert(packet::u16_at(whole, at) == packet::u16_at(data, at));
        assert(packet::u16_at(whole, at + 2) == packet::u16_at(data, at + 2));
        assert(packet::has_crlf_at(whole, at + 4));
        assert(whole.subrange(at + 6, p.end) =~= data.subrange(at + 6, p.end));
    }
}

/// A response is read back as it was written: the address in its canonical text, the port and
/// the payload. It takes up what was written, and a CR LF that happens to follow. A payload of
/// more than 65535 octets is not read back, because its length does not fit.
pub proof fn law_response_round_trip(addr: Seq<char>, port: u16, payload: Seq<u8>, rest: Seq<u8>)
    requires
        packet::encoded_response(addr, port, payload) is Some,
        payload.len() <= 65535,
    ensures
        ({
            let written = packet::encoded_response(addr, port, payload)->0;
            packet::packet_of(written + rest) == Some(
                Packet {
                    addr: canonical(addr),
                    port,
                    payload,
                    end: written.len() as int,
                    size: if packet::has_crlf_at(rest, 0) {
                        written.len() as int + 2
                    } else {
                        written.len() as int
                    },
                },
            )
        }),
{
    let head = packet::encoded_address(addr)->0;
    let tail = packet::encoded_tail(port, payload);
    let written = head + tail;
    let data = written + rest;
    let octets = ip::ip_value(addr)->0;
    let at = head.len() as int;
    assert(data[0] == head[0]);
    if ip::ipv4_value(addr) is Some {
        assert(octets.len() == 4);
        assert(data.subrange(1, 5) =~= octets);
    } else {
        lemma_ipv6_value_len(addr);
        let segs = ip::ipv6_value(addr)->0;
        assert(octets.len() == 16);
        assert(data.subrange(1, 17) =~= octets);
        lemma_octet_segments(segs);
    }
    assert(address::address_at(data, 0) == (Ok::<Seq<char>, Seq<char>>(canonical(addr)), at));
    assert(tail[0] == port / 256 && tail[1] == port % 256);
    assert(tail[2] == payload.len() / 256 && tail[3] == payload.len() % 256);
    assert(tail[4] == 13 && tail[5] == 10);
    assert(data[at] == tail[0]);
    assert(data[at + 1] == tail[1]);
    assert(data[at + 2] == tail[2]);
    assert(data[at + 3] == tail[3]);
    assert(data[at + 4] == tail[4]);
    assert(data[at + 5] == tail[5]);
    let end = written.len() as int;
    assert(data.subrange(at + 6, end) =~= payload);
    assert(packet::has_crlf_at(data, end) <==> packet::has_crlf_at(rest, 0)) by {
        if rest.len() >= 2 {
            assert(data[end] == rest[0] && data[end + 1] == rest[1]);
        }
    }
}

proof fn lemma_ipv6_value_len(t: Seq<char>)
    ensures
        ip::ipv6_value(t) matches Some(segs) ==> segs.len() == 8,
{
}

proof fn lemma_octet_segments(segs: Seq<u16>)
    ensures
        ip::segments(ip::segment_octets(segs)) == segs,
{
    let octets = ip::segment_octets(segs);
    assert forall|i: int| 0 <= i < segs.len() implies ip::segments(octets)[i] == segs[i] by {
        assert(octets[2 * i] == segs[i] / 256);
        assert(octets[2 * i + 1] == segs[i] % 256);
    }
    assert(ip::segments(octets) =~= segs);
}

/// The text of an address can be written, and is its own canonical text.
pub proof fn lemma_address_text(ip: ip::IpAddress)
    ensures
        packet::encoded_address(ip::ip_text(ip)) is Some,
        canonical(ip::ip_text(ip)) == ip::ip_text(ip),
{
    ip_laws::law_ip_round_trip(ip);
    match ip {
        ip::IpAddress::V4(o) => {},
        ip::IpAddress::V6(o) => {
            ip_laws::law_ipv6_round_trip(ip::segments(o@));
        },
    }
}

/// Numbers stand in network order, and a line break is CR and LF.
pub proof fn law_octets(before: Seq<u8>, a: u8, b: u8, rest: Seq<u8>, n: u16)
    ensures
        packet::u16_at(before + seq![a, b] + rest, before.len() as int) == a * 256 + b,
        packet::be_octets(n) == seq![(n / 256) as u8, (n % 256) as u8],
        packet::has_crlf_at(before + seq![a, b] + rest, before.len() as int) <==> a == 13 && b
            == 10,
        !packet::has_crlf_at(before, before.len() as int),
        !packet::has_crlf_at(before + seq![a], before.len() as int),
{
    let data = before + seq![a, b] + rest;
    assert(data[before.len() as int] == a && data[before.len() as int + 1] == b);
}

/// The octets between an address and a payload: the port, the length of the payload, CR LF.
pub open spec fn head_of(port: u16, len: nat) -> Seq<u8> {
    seq![
        (port / 256) as u8,
        (port % 256) as u8,
        (len / 256) as u8,
        (len % 256) as u8,
        13u8,
        10u8,
    ]
}

/// A packet is read from an address on the wire, a port, the length of a payload, CR LF and that
/// payload: the text of the address, that port and that payload come out, up to the end of the
/// payload, whatever follows. A CR LF that follows counts towards the size.
pub proof fn law_packet_is_read(
    wire: Seq<u8>,
    addr: Seq<char>,
    port: u16,
    payload: Seq<u8>,
    rest: Seq<u8>,
)
    requires
        address::address_at(wire, 0) == (Ok::<Seq<char>, Seq<char>>(addr), wire.len() as int),
        payload.len() <= 65535,
    ensures
        packet::packet_of(wire + head_of(port, payload.len()) + payload + rest) matches Some(p)
            && p.addr == addr && p.port == port && p.payload == payload && p.end == wire.len() + 6
            + payload.len() && p.size == if rest.len() >= 2 && rest[0] == 13 && rest[1] == 10 {
            p.end + 2
        } else {
            p.end
        },
{
    let head = head_of(port, payload.len());
    let data = wire + head + payload + rest;
    let after = head + payload + rest;
    address::law_address_stands_alone(seq![], wire, 0, after);
    assert(seq![] + wire + after =~= data);
    let at = wire.len() as int;
    assert(data[at] == head[0] && data[at + 1] == head[1] && data[at + 2] == head[2]);
    assert(data[at + 3] == head[3] && data[at + 4] == head[4] && data[at + 5] == head[5]);
    let end = at + 6 + payload.len();
    assert(data.subrange(at + 6, end) =~= payload);
    if rest.len() >= 2 {
        assert(data[end] == rest[0] && data[end + 1] == rest[1]);
    }
}

/// Every packet for every destination is read, domain names included.
pub proof fn law_packet_for_destination(
    d: Destination,
    port: u16,
    payload: Seq<u8>,
    rest: Seq<u8>,
)
    requires
        address_laws::is_destination(d),
        payload.len() <= 65535,
    ensures
        packet::packet_of(
            address_laws::wire_of(d) + head_of(port, payload.len()) + payload + rest,
        ) matches Some(p) && p.addr == address_laws::text_of(d) && p.port == port && p.payload
            == payload && p.end == address_laws::wire_of(d).len() + 6 + payload.len(),
{
    let wire = address_laws::wire_of(d);
    address_laws::law_destination_is_read(seq![], d, seq![]);
    assert(seq![] + wire + seq![] =~= wire);
    law_packet_is_read(wire, address_laws::text_of(d), port, payload, rest);
}

/// A packet of which anything is missing is not read.
pub proof fn law_partial_packet_is_not_read(d: Destination, port: u16, payload: Seq<u8>, n: int)
    requires
        address_laws::is_destination(d),
        payload.len() <= 65535,
        0 <= n < address_laws::wire_of(d).len() + 6 + payload.len(),
    ensures
        packet::packet_of(
            (address_laws::wire_of(d) + head_of(port, payload.len()) + payload).take(n),
        ) is None,
{
    let whole = address_laws::wire_of(d) + head_of(port, payload.len()) + payload;
    let part = whole.take(n);
    if packet::packet_of(part) is Some {
        lemma_packet_size(part);
        law_packet_extends(part, whole.skip(n));
        assert(part + whole.skip(n) =~= whole);
        law_packet_for_destination(d, port, payload, seq![]);
        assert(whole + seq![] =~= whole);
    }
}

/// What is read as a packet was written as one: a destination, a port, the length of the
/// payload, CR LF and the payload.
pub proof fn law_packet_was_written(data: Seq<u8>)
    ensures
        packet::packet_of(data) matches Some(p) ==> {
            &&& p.payload.len() <= 65535
            &&& p.end <= data.len()
            &&& exists|d: Destination| #[trigger]
                address_laws::is_destination(d) && p.addr == address_laws::text_of(d)
                    && data.take(p.end) == address_laws::wire_of(d) + head_of(
                    p.port,
                    p.payload.len(),
                ) + p.payload
        },
{
    if let Some(p) = packet::packet_of(data) {
        let at = address::address_at(data, 0).1;
        address_laws::law_address_is_destination(data, 0);
        let d = choose|d: Destination| #[trigger]
            address_laws::is_destination(d) && address_laws::wire_of(d) == data.subrange(0, at)
                && address::address_at(data, 0).0 == Ok::<Seq<char>, Seq<char>>(
                address_laws::text_of(d),
            );
        let head = head_of(p.port, p.payload.len());
        assert(head[0] == data[at] && head[1] == data[at + 1]);
        assert(head[2] == data[at + 2] && head[3] == data[at + 3]);
        assert(data.take(p.end) =~= address_laws::wire_of(d) + head + p.payload);
    }
}

/// A head that CR LF does not follow is no packet, and is told as such. Nothing else is.
pub proof fn law_missing_line_break(d: Destination, head: Seq<u8>, rest: Seq<u8>)
    requires
        address_laws::is_destination(d),
        head.len() == 4,
    ensures
        ({
            let data = address_laws::wire_of(d) + head + rest;
            let broken = !(rest.len() >= 2 && rest[0] == 13 && rest[1] == 10);
            &&& broken ==> packet::packet_of(data) is None
            &&& packet::lacks_line_break(data) <==> broken
        }),
{
    let wire = address_laws::wire_of(d);
    let data = wire + head + rest;
    address_laws::law_destination_is_read(seq![], d, head + rest);
    assert(seq![] + wire + (head + rest) =~= data);
    let at = wire.len() as int;
    if rest.len() >= 2 {
        assert(data[at + 4] == rest[0] && data[at + 5] == rest[1]);
    }
}

/// Where the address, the port or the length is not there, no line break is missing.
pub proof fn law_no_line_break_is_missing(data: Seq<u8>)
    ensures
        address::address_at(data, 0).0 is Err ==> !packet::lacks_line_break(data)
            && packet::packet_of(data) is None,
        data.len() < address::address_at(data, 0).1 + 4 ==> !packet::lacks_line_break(data)
            && packet::packet_of(data) is None,
{
}

/// A response from an IPv4 address: the type octet, the four octets of the address, the port,
/// the low sixteen bits of the length of the payload, CR LF, and the payload.
pub proof fn law_ipv4_response(octets: Seq<u8>, port: u16, payload: Seq<u8>)
    requires
        octets.len() == 4,
    ensures
        packet::encoded_response(ip::ipv4_text(octets), port, payload) == Some(
            seq![1u8] + octets + head_of(port, payload.len() % 65536) + payload,
        ),
{
    ip_laws::law_ipv4_round_trip(octets);
    assert(packet::encoded_response(ip::ipv4_text(octets), port, payload)->0 =~= seq![1u8] + octets
        + head_of(port, payload.len() % 65536) + payload);
}

/// A response from an IPv6 address, in whatever way it is spelled: the type octet, the sixteen
/// octets of the address, the port, the low sixteen bits of the length of the payload, CR LF,
/// and the payload.
pub proof fn law_ipv6_response(addr: Seq<char>, segs: Seq<u16>, port: u16, payload: Seq<u8>)
    requires
        ip::ipv6_value(addr) == Some(segs),
    ensures
        packet::encoded_response(addr, port, payload) == Some(
            seq![4u8] + ip::segment_octets(segs) + head_of(port, payload.len() % 65536) + payload,
        ),
{
    ip_laws::law_ip_value(addr);
    assert(packet::encoded_response(addr, port, payload)->0 =~= seq![4u8] + ip::segment_octets(segs)
        + head_of(port, payload.len() % 65536) + payload);
}

/// There is no response from what is not an Internet address.
pub proof fn law_no_response(addr: Seq<char>, port: u16, payload: Seq<u8>)
    ensures
        packet::encoded_response(addr, port, payload) is Some <==> ip::ipv4_value(addr) is Some
            || ip::ipv6_value(addr) is Some,
{
}

} // verus!
