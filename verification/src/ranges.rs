//! The ranges that a request from outside must not reach into.

use vstd::prelude::*;

use crate::ip;
use crate::ip::{segments_of, IpAddress};

verus! {

/// Whether `octets` start with `prefix`.
pub open spec fn starts_with(octets: Seq<u8>, prefix: Seq<u8>) -> bool {
    prefix.len() <= octets.len() && octets.take(prefix.len() as int) == prefix
}

/// The IPv4 ranges that do not belong to the public Internet: loopback `127.0.0.0/8`, private
/// `10.0.0.0/8`, `172.16.0.0/12` and `192.168.0.0/16`, link-local `169.254.0.0/16`, the
/// broadcast address, documentation `192.0.2.0/24`, `198.51.100.0/24` and `203.0.113.0/24`,
/// and the unspecified address.
pub open spec fn is_private_ipv4(o: Seq<u8>) -> bool {
    ||| starts_with(o, seq![127])
    ||| starts_with(o, seq![10])
    ||| o[0] == 172 && 16 <= o[1] <= 31
    ||| starts_with(o, seq![192, 168])
    ||| starts_with(o, seq![169, 254])
    ||| o == seq![255u8, 255, 255, 255]
    ||| starts_with(o, seq![192, 0, 2])
    ||| starts_with(o, seq![198, 51, 100])
    ||| starts_with(o, seq![203, 0, 113])
    ||| o == seq![0u8, 0, 0, 0]
}

/// The IPv6 ranges that do not belong to the public Internet: loopback `::1`, the unspecified
/// address `::`, unique local `fc00::/7` and link-local `fe80::/10`.
pub open spec fn is_private_ipv6(segs: Seq<u16>) -> bool {
    ||| ip::is_zero_run(segs, 0, 7) && segs[7] == 1
    ||| ip::is_zero_run(segs, 0, 8)
    ||| 0xfc00 <= segs[0] <= 0xfdff
    ||| 0xfe80 <= segs[0] <= 0xfebf
}

/// Whether an address lies in a range that a request from outside must not reach.
pub open spec fn is_private(ip: IpAddress) -> bool {
    match ip {
        IpAddress::V4(o) => is_private_ipv4(o@),
        IpAddress::V6(o) => is_private_ipv6(ip::segments(o@)),
    }
}

fn is_private_v4(o: &[u8; 4]) -> (b: bool)
    ensures
        b == is_private_ipv4(o@),
{
    let a = o[0];
    let b = o[1];
    let c = o[2];
    let d = o[3];
    proof {
        assert(o@ =~= seq![a, b, c, d]);
        assert(starts_with(o@, seq![127]) <==> a == 127) by {
            lemma_starts_with_one(o@, 127);
        }
        lemma_starts_with_one(o@, 10);
        lemma_starts_with_two(o@, 192, 168);
        lemma_starts_with_two(o@, 169, 254);
        lemma_starts_with_three(o@, 192, 0, 2);
        lemma_starts_with_three(o@, 198, 51, 100);
        lemma_starts_with_three(o@, 203, 0, 113);
        assert(o@ == seq![255u8, 255, 255, 255] <==> a == 255 && b == 255 && c == 255 && d == 255);
        assert(o@ == seq![0u8, 0, 0, 0] <==> a == 0 && b == 0 && c == 0 && d == 0);
    }
    a == 127 || a == 10 || (a == 172 && 16 <= b && b <= 31) || (a == 192 && b == 168) || (a == 169
        && b == 254) || (a == 255 && b == 255 && c == 255 && d == 255) || (a == 192 && b == 0 && c
        == 2) || (a == 198 && b == 51 && c == 100) || (a == 203 && b == 0 && c == 113) || (a == 0
        && b == 0 && c == 0 && d == 0)
}

proof fn lemma_starts_with_one(o: Seq<u8>, a: u8)
    requires
        o.len() == 4,
    ensures
        starts_with(o, seq![a]) <==> o[0] == a,
{
    if o[0] == a {
        assert(o.take(1) =~= seq![a]);
    } else {
        assert(o.take(1)[0] != seq![a][0]);
    }
}

proof fn lemma_starts_with_two(o: Seq<u8>, a: u8, b: u8)
    requires
        o.len() == 4,
    ensures
        starts_with(o, seq![a, b]) <==> o[0] == a && o[1] == b,
{
    if o[0] == a && o[1] == b {
        assert(o.take(2) =~= seq![a, b]);
    } else {
        assert(o.take(2)[0] != seq![a, b][0] || o.take(2)[1] != seq![a, b][1]);
    }
}

proof fn lemma_starts_with_three(o: Seq<u8>, a: u8, b: u8, c: u8)
    requires
        o.len() == 4,
    ensures
        starts_with(o, seq![a, b, c]) <==> o[0] == a && o[1] == b && o[2] == c,
{
    if o[0] == a && o[1] == b && o[2] == c {
        assert(o.take(3) =~= seq![a, b, c]);
    } else {
        assert(o.take(3)[0] != seq![a, b, c][0] || o.take(3)[1] != seq![a, b, c][1] || o.take(3)[2]
            != seq![a, b, c][2]);
    }
}

/// Tells the addresses that a request from outside must not reach.
pub fn is_private_address(ip: IpAddress) -> (b: bool)
    ensures
        b == is_private(ip),
{
    match ip {
        IpAddress::V4(o) => is_private_v4(&o),
        IpAddress::V6(o) => {
            let segs = segments_of(&o);
            let first = segs[0];
            proof {
                assert((first & 0xfe00) == 0xfc00 <==> 0xfc00 <= first <= 0xfdff) by (bit_vector);
                assert((first & 0xffc0) == 0xfe80 <==> 0xfe80 <= first <= 0xfebf) by (bit_vector);
                if ip::is_zero_run(segs@, 0, 7) {
                    assert(segs@[0] == 0 && segs@[1] == 0 && segs@[2] == 0 && segs@[3] == 0
                        && segs@[4] == 0 && segs@[5] == 0 && segs@[6] == 0);
                }
                if ip::is_zero_run(segs@, 0, 8) {
                    assert(ip::is_zero_run(segs@, 0, 7));
                    assert(segs@[7] == 0);
                }
            }
            let zeros = segs[0] == 0 && segs[1] == 0 && segs[2] == 0 && segs[3] == 0 && segs[4] == 0
                && segs[5] == 0 && segs[6] == 0;
            (zeros && segs[7] <= 1) || (first & 0xfe00) == 0xfc00 || (first & 0xffc0) == 0xfe80
        },
    }
}

/// The IPv4 addresses that a request from outside must not reach, by their octets.
pub proof fn law_private_ipv4(o: [u8; 4])
    ensures
        is_private(IpAddress::V4(o)) <==> {
            ||| o@[0] == 127
            ||| o@[0] == 10
            ||| o@[0] == 172 && o@[1] / 16 == 1
            ||| o@[0] == 192 && o@[1] == 168
            ||| o@[0] == 169 && o@[1] == 254
            ||| o@[0] == 192 && o@[1] == 0 && o@[2] == 2
            ||| o@[0] == 198 && o@[1] == 51 && o@[2] == 100
            ||| o@[0] == 203 && o@[1] == 0 && o@[2] == 113
            ||| forall|i: int| 0 <= i < 4 ==> o@[i] == 255
            ||| forall|i: int| 0 <= i < 4 ==> o@[i] == 0
        },
{
    lemma_starts_with_one(o@, 127);
    lemma_starts_with_one(o@, 10);
    lemma_starts_with_two(o@, 192, 168);
    lemma_starts_with_two(o@, 169, 254);
    lemma_starts_with_three(o@, 192, 0, 2);
    lemma_starts_with_three(o@, 198, 51, 100);
    lemma_starts_with_three(o@, 203, 0, 113);
    if forall|i: int| 0 <= i < 4 ==> o@[i] == 255 {
        assert(o@ =~= seq![255u8, 255, 255, 255]);
    }
    if forall|i: int| 0 <= i < 4 ==> o@[i] == 0 {
        assert(o@ =~= seq![0u8, 0, 0, 0]);
    }
}

/// The IPv6 addresses that a request from outside must not reach, by their octets: those that
/// start with the seven bits of `fc00::/7` or the ten bits of `fe80::/10`, `::` and `::1`.
pub proof fn law_private_ipv6(o: [u8; 16])
    ensures
        is_private(IpAddress::V6(o)) <==> {
            ||| o@[0] / 2 == 0x7e
            ||| o@[0] == 0xfe && o@[1] / 64 == 2
            ||| o@[15] <= 1 && forall|i: int| 0 <= i < 15 ==> o@[i] == 0
        },
{
    let segs = ip::segments(o@);
    assert(segs.len() == 8);
    assert forall|i: int| 0 <= i < 8 implies #[trigger] segs[i] == o@[2 * i] * 256 + o@[2 * i
        + 1] by {}
    assert(segs[0] == o@[0] * 256 + o@[1]);
    assert(segs[7] == o@[14] * 256 + o@[15]);
    let low = forall|i: int| 0 <= i < 15 ==> o@[i] == 0;
    if low {
        assert forall|i: int| 0 <= i < 7 implies segs[i] == 0 by {
            assert(o@[2 * i] == 0 && o@[2 * i + 1] == 0);
        }
        assert(ip::is_zero_run(segs, 0, 7));
        assert(o@[14] == 0);
        if o@[15] == 0 {
            assert(ip::is_zero_run(segs, 0, 8));
        }
    }
    if ip::is_zero_run(segs, 0, 7) && segs[7] <= 1 {
        assert forall|i: int| 0 <= i < 15 implies o@[i] == 0 by {
            assert(segs[i / 2] == o@[2 * (i / 2)] * 256 + o@[2 * (i / 2) + 1]);
        }
    }
    if ip::is_zero_run(segs, 0, 8) {
        assert(ip::is_zero_run(segs, 0, 7));
        assert(segs[7] == 0);
    }
}

} // verus!
