//! UDP packets inside the client's stream: the destination address, its port, the length of
//! the payload, CR LF, and the payload, which a CR LF may follow.

use vstd::prelude::*;
use vstd::slice::{slice_subrange, slice_to_vec};

use crate::address;
use crate::address::{parse_address, TYPE_IPV4, TYPE_IPV6};
use crate::ip;
use crate::ip::{parse_ip, IpAddress};

verus! {

/// A UDP packet at the front of a stream. `end` is the index behind the payload, `size` the
/// index behind the CR LF that follows it, or `end` where none follows.
pub ghost struct Packet {
    pub addr: Seq<char>,
    pub port: u16,
    pub payload: Seq<u8>,
    pub end: int,
    pub size: int,
}

/// Whether CR LF stands at `at`.
pub open spec fn has_crlf_at(data: Seq<u8>, at: int) -> bool {
    0 <= at && at + 2 <= data.len() && data[at] == 13 && data[at + 1] == 10
}

/// The number that stands at `at` in network order.
pub open spec fn u16_at(data: Seq<u8>, at: int) -> u16 {
    ip::be16(data[at], data[at + 1])
}

/// The packet that `data` starts with. There is none where `data` ends too early, where the
/// address is not one, or where the length is not followed by CR LF.
pub open spec fn packet_of(data: Seq<u8>) -> Option<Packet> {
    let (address, at) = address::address_at(data, 0);
    let end = at + 6 + u16_at(data, at + 2);
    if data.len() < 4 || address is Err || data.len() < at + 4 || !has_crlf_at(data, at + 4)
        || data.len() < end {
        None
    } else {
        Some(
            Packet {
                addr: address->Ok_0,
                port: u16_at(data, at),
                payload: data.subrange(at + 6, end),
                end,
                size: if has_crlf_at(data, end) {
                    end + 2
                } else {
                    end
                },
            },
        )
    }
}

/// Whether `data` starts with an address, a port and a length that CR LF does not follow, or
/// does not follow yet.
pub open spec fn lacks_line_break(data: Seq<u8>) -> bool {
    let (address, at) = address::address_at(data, 0);
    address is Ok && data.len() >= at + 4 && !has_crlf_at(data, at + 4)
}

/// Tells whether CR LF stands at `at`.
pub fn is_crlf_at(data: &[u8], at: usize) -> (b: bool)
    ensures
        b == has_crlf_at(data@, at as int),
{
    at < data.len() && data.len() - at >= 2 && data[at] == 13 && data[at + 1] == 10
}

/// Reads a number in network order.
pub fn read_u16(data: &[u8], at: usize) -> (n: u16)
    requires
        at + 2 <= data.len(),
    ensures
        n == u16_at(data@, at as int),
{
    (data[at] as u16) * 256 + data[at + 1] as u16
}

/// Reads the packet at the front of `data`: its destination, the port, the payload, and the
/// index behind the payload.
pub fn read_packet(data: &[u8]) -> (r: Option<(String, u16, Vec<u8>, usize)>)
    ensures
        r is Some <==> packet_of(data@) is Some,
        r matches Some((addr, port, payload, end)) ==> ({
            let p = packet_of(data@)->0;
            addr@ == p.addr && port == p.port && payload@ == p.payload && end == p.end
        }),
{
    let count = data.len();
    if count < 4 {
        return None;
    }
    let mut cursor: usize = 0;
    let addr = match parse_address(data, &mut cursor) {
        Ok(addr) => addr,
        Err(_) => {
            return None;
        },
    };
    if count - cursor < 4 {
        return None;
    }
    let port = read_u16(data, cursor);
    let len = read_u16(data, cursor + 2) as usize;
    cursor += 4;
    if !is_crlf_at(data, cursor) {
        return None;
    }
    cursor += 2;
    if count - cursor < len {
        return None;
    }
    let end = cursor + len;
    let payload = slice_to_vec(slice_subrange(data, cursor, end));
    Some((addr, port, payload, end))
}

/// Reads the packet at the front of `data`: its destination, the port, the payload, and how
/// many octets of `data` it takes together with the CR LF behind it, if that has come.
pub fn parse_udp_packet(data: &[u8]) -> (r: Option<(String, u16, Vec<u8>, usize)>)
    ensures
        r is Some <==> packet_of(data@) is Some,
        r matches Some((addr, port, payload, size)) ==> ({
            let p = packet_of(data@)->0;
            addr@ == p.addr && port == p.port && payload@ == p.payload && size == p.size
        }),
{
    match read_packet(data) {
        Some((addr, port, payload, end)) => {
            let mut size = end;
            if is_crlf_at(data, end) {
                size += 2;
            }
            Some((addr, port, payload, size))
        },
        None => None,
    }
}

/// Tells whether CR LF is missing behind the address, the port and the length that `data`
/// starts with.
pub fn is_line_break_missing(data: &[u8]) -> (b: bool)
    ensures
        b == lacks_line_break(data@),
{
    let mut cursor: usize = 0;
    match parse_address(data, &mut cursor) {
        Ok(_) => data.len() - cursor >= 4 && !is_crlf_at(data, cursor + 4),
        Err(_) => false,
    }
}

/// The octets of `n` in network order.
pub open spec fn be_octets(n: u16) -> Seq<u8> {
    seq![(n / 256) as u8, (n % 256) as u8]
}

/// The type octet and the octets of the address that `addr` denotes.
pub open spec fn encoded_address(addr: Seq<char>) -> Option<Seq<u8>> {
    match ip::ip_value(addr) {
        Some(octets) => Some(
            seq![
                if ip::ipv4_value(addr) is Some {
                    TYPE_IPV4
                } else {
                    TYPE_IPV6
                },
            ] + octets,
        ),
        None => None,
    }
}

/// What follows the address: the port, the length of the payload, of which only the low
/// sixteen bits are written, CR LF, and the payload.
pub open spec fn encoded_tail(port: u16, payload: Seq<u8>) -> Seq<u8> {
    be_octets(port) + be_octets((payload.len() % 65536) as u16) + seq![13u8, 10u8] + payload
}

/// The packet that carries `payload` from `addr` and `port` to the client, where `addr` is the
/// text of an Internet address.
pub open spec fn encoded_response(addr: Seq<char>, port: u16, payload: Seq<u8>) -> Option<
    Seq<u8>,
> {
    match encoded_address(addr) {
        Some(head) => Some(head + encoded_tail(port, payload)),
        None => None,
    }
}

fn push_u16(out: &mut Vec<u8>, n: u16)
    ensures
        final(out)@ == old(out)@ + be_octets(n),
{
    out.push((n / 256) as u8);
    out.push((n % 256) as u8);
    proof {
        assert(out@ =~= old(out)@ + be_octets(n));
    }
}

/// Writes the packet that carries `payload` from `addr` and `port` to the client.
pub fn encode_udp_response(addr: &str, port: u16, payload: &[u8]) -> (r: Result<Vec<u8>, String>)
    ensures
        r matches Ok(v) ==> encoded_response(addr@, port, payload@) == Some(v@),
        r matches Err(e) ==> encoded_response(addr@, port, payload@) is None && e@
            == "Invalid IP address format"@,
{
    let mut response: Vec<u8> = Vec::new();
    match parse_ip(addr) {
        Some(IpAddress::V4(octets)) => {
            response.push(TYPE_IPV4);
            response.extend_from_slice(octets.as_slice());
            proof {
                assert(response@ =~= seq![TYPE_IPV4] + octets@);
            }
        },
        Some(IpAddress::V6(octets)) => {
            response.push(TYPE_IPV6);
            response.extend_from_slice(octets.as_slice());
            proof {
                assert(response@ =~= seq![TYPE_IPV6] + octets@);
            }
        },
        None => {
            return Err("Invalid IP address format".to_owned());
        },
    }
    let ghost head = response@;
    push_u16(&mut response, port);
    push_u16(&mut response, (payload.len() % 65536) as u16);
    response.push(13);
    response.push(10);
    response.extend_from_slice(payload);
    proof {
        assert(response@ =~= head + encoded_tail(port, payload@));
    }
    Ok(response)
}

} // verus!
