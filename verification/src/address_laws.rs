//! What holds of destination addresses on the wire: every destination can be read, and nothing
//! else can.

use vstd::prelude::*;
use vstd::utf8;

use crate::{address, ip, text};

verus! {

/// An IPv4 address is read from its type octet and its four octets, whatever stands around
/// them.
pub proof fn law_ipv4_address_is_read(
    before: Seq<u8>,
    a: u8,
    b: u8,
    c: u8,
    d: u8,
    rest: Seq<u8>,
)
    ensures
        address::address_at(before + seq![1u8, a, b, c, d] + rest, before.len() as int) == (
            Ok::<Seq<char>, Seq<char>>(ip::ipv4_text(seq![a, b, c, d])),
            before.len() as int + 5,
        ),
{
    let data = before + seq![1u8, a, b, c, d] + rest;
    let at = before.len() as int;
    assert(data[at] == 1);
    assert(data.subrange(at + 1, at + 5) =~= seq![a, b, c, d]);
}

/// A domain name of up to 255 octets of UTF-8 is read from its type octet, its length and its
/// octets, whatever stands around them.
pub proof fn law_domain_is_read(before: Seq<u8>, name: Seq<u8>, rest: Seq<u8>)
    requires
        name.len() <= 255,
        utf8::valid_utf8(name),
    ensures
        address::address_at(
            before + seq![3u8, name.len() as u8] + name + rest,
            before.len() as int,
        ) == (
            Ok::<Seq<char>, Seq<char>>(utf8::decode_utf8(name)),
            (before.len() + 2 + name.len()) as int,
        ),
{
    let data = before + seq![3u8, name.len() as u8] + name + rest;
    let at = before.len() as int;
    assert(data[at] == 3 && data[at + 1] == name.len());
    assert(data.subrange(at + 2, at + 2 + name.len()) =~= name);
}

/// The characters of a domain name come out as they went in.
pub proof fn law_domain_text_is_kept(before: Seq<u8>, name: Seq<char>, rest: Seq<u8>)
    requires
        utf8::encode_utf8(name).len() <= 255,
    ensures
        address::address_at(
            before + seq![3u8, utf8::encode_utf8(name).len() as u8] + utf8::encode_utf8(name) + rest,
            before.len() as int,
        ).0 == Ok::<Seq<char>, Seq<char>>(name),
{
    utf8::encode_utf8_valid_utf8(name);
    utf8::encode_utf8_decode_utf8(name);
    law_domain_is_read(before, utf8::encode_utf8(name), rest);
}

/// An IPv6 address is read from its type octet and its sixteen octets, whatever stands around
/// them.
pub proof fn law_ipv6_address_is_read(before: Seq<u8>, octets: Seq<u8>, rest: Seq<u8>)
    requires
        octets.len() == 16,
    ensures
        address::address_at(before + seq![4u8] + octets + rest, before.len() as int) == (
            Ok::<Seq<char>, Seq<char>>(ip::ipv6_text(ip::segments(octets))),
            before.len() as int + 17,
        ),
{
    let data = before + seq![4u8] + octets + rest;
    let at = before.len() as int;
    assert(data[at] == 4);
    assert(data.subrange(at + 1, at + 17) =~= octets);
}

/// An address that ends too early is refused, with a word on what is missing.
pub proof fn law_short_addresses_are_refused(before: Seq<u8>, at: int, n: u8, short: Seq<u8>)
    ensures
        at >= before.len() ==> address::address_at(before, at) == (
            Err::<Seq<char>, Seq<char>>("Insufficient data for address type"@),
            at,
        ),
        short.len() < 4 ==> address::address_at(before + seq![1u8] + short, before.len() as int) == (
            Err::<Seq<char>, Seq<char>>("Insufficient data for IPv4"@),
            before.len() as int + 1,
        ),
        short.len() < 16 ==> address::address_at(
            before + seq![4u8] + short,
            before.len() as int,
        ) == (
            Err::<Seq<char>, Seq<char>>("Insufficient data for IPv6"@),
            before.len() as int + 1,
        ),
        address::address_at(before + seq![3u8], before.len() as int) == (
            Err::<Seq<char>, Seq<char>>("Insufficient data for domain length"@),
            before.len() as int + 1,
        ),
        short.len() < n ==> address::address_at(
            before + seq![3u8, n] + short,
            before.len() as int,
        ) == (Err::<Seq<char>, Seq<char>>("Insufficient data for domain"@), before.len() as int + 2),
{
    let end = before.len() as int;
    assert((before + seq![1u8] + short)[end] == 1);
    assert((before + seq![4u8] + short)[end] == 4);
    assert((before + seq![3u8])[end] == 3);
    assert((before + seq![3u8, n] + short)[end] == 3);
    assert((before + seq![3u8, n] + short)[end + 1] == n);
}

/// A domain name that is not UTF-8 is refused, with what the decoder says of it.
pub proof fn law_domain_must_be_text(before: Seq<u8>, name: Seq<u8>, rest: Seq<u8>)
    requires
        name.len() <= 255,
        !utf8::valid_utf8(name),
    ensures
        address::address_at(
            before + seq![3u8, name.len() as u8] + name + rest,
            before.len() as int,
        ) == (
            Err::<Seq<char>, Seq<char>>(
                "Invalid UTF-8 in domain: "@ + address::utf8_error_text(name),
            ),
            before.len() as int + 2,
        ),
{
    let data = before + seq![3u8, name.len() as u8] + name + rest;
    let at = before.len() as int;
    assert(data[at] == 3 && data[at + 1] == name.len());
    assert(data.subrange(at + 2, at + 2 + name.len()) =~= name);
}

/// There are no other types of addresses.
pub proof fn law_other_types_are_refused(before: Seq<u8>, kind: u8, rest: Seq<u8>)
    requires
        kind != 1,
        kind != 3,
        kind != 4,
    ensures
        address::address_at(before + seq![kind] + rest, before.len() as int) == (
            Err::<Seq<char>, Seq<char>>("Invalid address type: "@ + text::decimal(kind as nat)),
            before.len() as int + 1,
        ),
{
    assert((before + seq![kind] + rest)[before.len() as int] == kind);
}

/// A destination: an IPv4 address, a domain name, or an IPv6 address, as octets.
pub ghost enum Destination {
    V4(Seq<u8>),
    Domain(Seq<u8>),
    V6(Seq<u8>),
}

/// Whether there is such a destination.
pub open spec fn is_destination(d: Destination) -> bool {
    match d {
        Destination::V4(octets) => octets.len() == 4,
        Destination::Domain(name) => name.len() <= 255 && utf8::valid_utf8(name),
        Destination::V6(octets) => octets.len() == 16,
    }
}

/// A destination as it stands on the wire.
pub open spec fn wire_of(d: Destination) -> Seq<u8> {
    match d {
        Destination::V4(octets) => seq![1u8] + octets,
        Destination::Domain(name) => seq![3u8, name.len() as u8] + name,
        Destination::V6(octets) => seq![4u8] + octets,
    }
}

/// The text of a destination.
pub open spec fn text_of(d: Destination) -> Seq<char> {
    match d {
        Destination::V4(octets) => ip::ipv4_text(octets),
        Destination::Domain(name) => utf8::decode_utf8(name),
        Destination::V6(octets) => ip::ipv6_text(ip::segments(octets)),
    }
}

/// Every destination is read from the wire, whatever stands around it.
pub proof fn law_destination_is_read(before: Seq<u8>, d: Destination, rest: Seq<u8>)
    requires
        is_destination(d),
    ensures
        address::address_at(before + wire_of(d) + rest, before.len() as int) == (
            Ok::<Seq<char>, Seq<char>>(text_of(d)),
            (before.len() + wire_of(d).len()) as int,
        ),
{
    match d {
        Destination::V4(o) => {
            law_ipv4_address_is_read(before, o[0], o[1], o[2], o[3], rest);
            assert(seq![1u8] + o =~= seq![1u8, o[0], o[1], o[2], o[3]]);
            assert(seq![o[0], o[1], o[2], o[3]] =~= o);
        },
        Destination::Domain(name) => {
            law_domain_is_read(before, name, rest);
            assert(before + wire_of(d) + rest =~= before + seq![3u8, name.len() as u8] + name
                + rest);
        },
        Destination::V6(octets) => {
            law_ipv6_address_is_read(before, octets, rest);
            assert(before + wire_of(d) + rest =~= before + seq![4u8] + octets + rest);
        },
    }
}

/// Nothing else is read as an address: the octets up to where the reading went are those of a
/// destination, and the text is its text.
pub proof fn law_address_is_destination(data: Seq<u8>, at: int)
    requires
        0 <= at,
        address::address_at(data, at).0 is Ok,
    ensures
        at < address::address_at(data, at).1 <= data.len(),
        exists|d: Destination| #[trigger]
            is_destination(d) && wire_of(d) == data.subrange(at, address::address_at(data, at).1)
                && address::address_at(data, at).0 == Ok::<Seq<char>, Seq<char>>(text_of(d)),
{
    address::law_address_stands_alone(seq![], data, at, seq![]);
    let end = address::address_at(data, at).1;
    if data[at] == 1 {
        let d = Destination::V4(data.subrange(at + 1, at + 5));
        assert(wire_of(d) =~= data.subrange(at, end));
        assert(is_destination(d));
    } else if data[at] == 3 {
        let d = Destination::Domain(data.subrange(at + 2, at + 2 + data[at + 1]));
        assert(wire_of(d) =~= data.subrange(at, end));
        assert(is_destination(d));
    } else {
        let d = Destination::V6(data.subrange(at + 1, at + 17));
        assert(wire_of(d) =~= data.subrange(at, end));
        assert(is_destination(d));
    }
}

} // verus!
