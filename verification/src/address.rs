//! Destination addresses as they stand on the wire: a type octet, then the octets of an IPv4
//! or IPv6 address or the length and the octets of a domain name.

use vstd::prelude::*;
use vstd::slice::{slice_subrange, slice_to_vec};
use vstd::string::StringExecFns;
use vstd::utf8;

use crate::ip;
use crate::ip::IpAddress;
use crate::text;
use crate::text::push_decimal;

verus! {

/// The type octet of an IPv4 address.
pub const TYPE_IPV4: u8 = 0x01;

/// The type octet of a domain name.
pub const TYPE_DOMAIN: u8 = 0x03;

/// The type octet of an IPv6 address.
pub const TYPE_IPV6: u8 = 0x04;

/// What the error of `String::from_utf8` says of octets that are not UTF-8.
pub uninterp spec fn utf8_error_text(octets: Seq<u8>) -> Seq<char>;

/// `String::from_utf8` takes octets that are UTF-8 for the characters that they encode, and
/// refuses all others with an error. Only the error's text is handed on; it depends on the
/// octets alone.
#[verifier::external_body]
pub(crate) fn string_from_utf8(octets: Vec<u8>) -> (r: Result<String, String>)
    ensures
        r matches Ok(s) ==> utf8::valid_utf8(octets@) && s@ == utf8::decode_utf8(octets@),
        r matches Err(e) ==> !utf8::valid_utf8(octets@) && e@ == utf8_error_text(octets@),
{
    match String::from_utf8(octets) {
        Ok(s) => Ok(s),
        Err(e) => Err(e.to_string()),
    }
}

/// The text of the domain name that `octets` encode, or why they encode none.
pub open spec fn domain_text(octets: Seq<u8>) -> Result<Seq<char>, Seq<char>> {
    if utf8::valid_utf8(octets) {
        Ok(utf8::decode_utf8(octets))
    } else {
        Err("Invalid UTF-8 in domain: "@ + utf8_error_text(octets))
    }
}

/// What stands at `at` in `data`: the text of a destination address, or why there is none; and
/// the index behind the last octet that was looked at as part of it.
pub open spec fn address_at(data: Seq<u8>, at: int) -> (Result<Seq<char>, Seq<char>>, int) {
    let left = data.len() - at;
    if left <= 0 {
        (Err("Insufficient data for address type"@), at)
    } else if data[at] == TYPE_IPV4 {
        if left < 5 {
            (Err("Insufficient data for IPv4"@), at + 1)
        } else {
            (Ok(ip::ipv4_text(data.subrange(at + 1, at + 5))), at + 5)
        }
    } else if data[at] == TYPE_DOMAIN {
        if left < 2 {
            (Err("Insufficient data for domain length"@), at + 1)
        } else if left < 2 + data[at + 1] {
            (Err("Insufficient data for domain"@), at + 2)
        } else {
            match domain_text(data.subrange(at + 2, at + 2 + data[at + 1])) {
                Ok(name) => (Ok(name), at + 2 + data[at + 1]),
                Err(why) => (Err(why), at + 2),
            }
        }
    } else if data[at] == TYPE_IPV6 {
        if left < 17 {
            (Err("Insufficient data for IPv6"@), at + 1)
        } else {
            (Ok(ip::ipv6_text(ip::segments(data.subrange(at + 1, at + 17)))), at + 17)
        }
    } else {
        (Err("Invalid address type: "@ + text::decimal(data[at] as nat)), at + 1)
    }
}

/// A string's characters on either side of a result.
pub open spec fn result_text(r: Result<String, String>) -> Result<Seq<char>, Seq<char>> {
    match r {
        Ok(s) => Ok(s@),
        Err(e) => Err(e@),
    }
}

/// What is said of a domain name that is not UTF-8, given what the decoder said.
pub fn invalid_domain(detail: &str) -> (message: String)
    ensures
        message@ == "Invalid UTF-8 in domain: "@ + detail@,
{
    let mut message = "Invalid UTF-8 in domain: ".to_owned();
    message.append(detail);
    message
}

/// Reads the destination address that stands at the cursor, and moves the cursor behind it.
pub fn parse_address(data: &[u8], cursor: &mut usize) -> (r: Result<String, String>)
    ensures
        result_text(r) == address_at(data@, *old(cursor) as int).0,
        r matches Ok(text) ==> address_at(data@, *old(cursor) as int).0 == Ok::<
            Seq<char>,
            Seq<char>,
        >(text@),
        r matches Err(why) ==> address_at(data@, *old(cursor) as int).0 == Err::<
            Seq<char>,
            Seq<char>,
        >(why@),
        *final(cursor) == address_at(data@, *old(cursor) as int).1,
{
    if *cursor >= data.len() {
        return Err("Insufficient data for address type".to_owned());
    }
    let kind = data[*cursor];
    *cursor += 1;
    let left = data.len() - *cursor;
    if kind == TYPE_IPV4 {
        if left < 4 {
            return Err("Insufficient data for IPv4".to_owned());
        }
        let at = *cursor;
        let octets: [u8; 4] = [data[at], data[at + 1], data[at + 2], data[at + 3]];
        proof {
            assert(octets@ =~= data@.subrange(at as int, at + 4));
        }
        *cursor += 4;
        Ok(IpAddress::V4(octets).to_text())
    } else if kind == TYPE_DOMAIN {
        if left < 1 {
            return Err("Insufficient data for domain length".to_owned());
        }
        let len = data[*cursor] as usize;
        *cursor += 1;
        if left - 1 < len {
            return Err("Insufficient data for domain".to_owned());
        }
        let at = *cursor;
        match string_from_utf8(slice_to_vec(slice_subrange(data, at, at + len))) {
            Ok(name) => {
                *cursor += len;
                Ok(name)
            },
            Err(detail) => Err(invalid_domain(detail.as_str())),
        }
    } else if kind == TYPE_IPV6 {
        if left < 16 {
            return Err("Insufficient data for IPv6".to_owned());
        }
        let at = *cursor;
        let mut octets: [u8; 16] = [0; 16];
        let mut i: usize = 0;
        while i < 16
            invariant
                i <= 16,
                at + 16 <= data.len(),
                forall|j: int| 0 <= j < i ==> octets@[j] == data@[at + j],
            decreases 16 - i,
        {
            octets[i] = data[at + i];
            i += 1;
        }
        proof {
            assert(octets@ =~= data@.subrange(at as int, at + 16));
        }
        *cursor += 16;
        Ok(IpAddress::V6(octets).to_text())
    } else {
        let mut message = "Invalid address type: ".to_owned();
        push_decimal(&mut message, kind as u16);
        Err(message)
    }
}

/// An address means the same wherever it stands, and whatever stands around it.
pub proof fn law_address_stands_alone(before: Seq<u8>, data: Seq<u8>, at: int, after: Seq<u8>)
    requires
        0 <= at,
        address_at(data, at).0 is Ok,
    ensures
        address_at(before + data + after, before.len() + at) == (
            address_at(data, at).0,
            before.len() + address_at(data, at).1,
        ),
        at < address_at(data, at).1 <= data.len(),
{
    let whole = before + data + after;
    let k = before.len() + at;
    assert(whole[k] == data[at]);
    if data[at] == TYPE_IPV4 {
        assert(whole.subrange(k + 1, k + 5) =~= data.subrange(at + 1, at + 5));
    } else if data[at] == TYPE_DOMAIN {
        let len = data[at + 1];
        assert(whole[k + 1] == len);
        assert(whole.subrange(k + 2, k + 2 + len) =~= data.subrange(at + 2, at + 2 + len));
    } else {
        assert(whole.subrange(k + 1, k + 17) =~= data.subrange(at + 1, at + 17));
    }
}

} // verus!
