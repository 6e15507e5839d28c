//! A client's stream of UDP packets, as it comes in: one packet behind the other, each with or
//! without a CR LF behind its payload. A CR LF directly behind a packet belongs to that packet,
//! whenever it comes.

use vstd::prelude::*;
use vstd::slice::{slice_subrange, slice_to_vec};

use crate::packet;
use crate::packet::is_crlf_at;
use crate::packet_laws;

verus! {

/// What a packet carries, and where to.
pub ghost struct Message {
    pub addr: Seq<char>,
    pub port: u16,
    pub payload: Seq<u8>,
}

/// What is left of a stream. It is `open` directly behind the payload of a packet, where the
/// CR LF of that packet may still come.
pub ghost struct Rest {
    pub open: bool,
    pub octets: Seq<u8>,
}

/// The message of a packet.
pub open spec fn message_of(p: packet::Packet) -> Message {
    Message { addr: p.addr, port: p.port, payload: p.payload }
}

/// What is left once the CR LF that the packet before is owed is taken off, if it has come. As
/// long as nothing or a lone CR has come, it may still come.
pub open spec fn settled(rest: Rest) -> Rest {
    if !rest.open || rest.octets.len() == 0 || rest.octets == seq![13u8] {
        rest
    } else if packet::has_crlf_at(rest.octets, 0) {
        Rest { open: false, octets: rest.octets.skip(2) }
    } else {
        Rest { open: false, octets: rest.octets }
    }
}

/// The messages that a stream starts with, one behind the other, and what is left of it.
pub open spec fn messages(rest: Rest) -> (Seq<Message>, Rest)
    decreases rest.octets.len(),
{
    let s = settled(rest);
    match packet::packet_of(s.octets) {
        Some(p) => {
            proof {
                packet_laws::lemma_packet_size(s.octets);
            }
            let (more, left) = messages(Rest { open: true, octets: s.octets.skip(p.end) });
            (seq![message_of(p)] + more, left)
        },
        None => (seq![], s),
    }
}

/// Takes off the CR LF that the packet before is owed, if it has come.
pub fn settle(open: bool, octets: Vec<u8>) -> (r: (bool, Vec<u8>))
    ensures
        (Rest { open: r.0, octets: r.1@ }) == settled(Rest { open, octets: octets@ }),
{
    if !open || octets.len() == 0 {
        return (open, octets);
    }
    if octets.len() == 1 && octets[0] == 13 {
        proof {
            assert(octets@ =~= seq![13u8]);
        }
        return (open, octets);
    }
    proof {
        assert(octets@ != seq![13u8]) by {
            if octets@.len() == 1 {
                assert(octets@[0] != seq![13u8][0]);
            }
        }
    }
    if is_crlf_at(octets.as_slice(), 0) {
        let left = slice_to_vec(slice_subrange(octets.as_slice(), 2, octets.len()));
        proof {
            assert(left@ =~= octets@.skip(2));
        }
        (false, left)
    } else {
        (false, octets)
    }
}

/// A packet and the CR LF behind it take together as many octets as the packet's size says.
pub proof fn law_line_break_belongs_to_packet(octets: Seq<u8>)
    ensures
        packet::packet_of(octets) matches Some(p) ==> settled(
            Rest { open: true, octets: octets.skip(p.end) },
        ).octets == octets.skip(p.size),
{
    if let Some(p) = packet::packet_of(octets) {
        packet_laws::lemma_packet_size(octets);
        let behind = octets.skip(p.end);
        assert(packet::has_crlf_at(behind, 0) <==> packet::has_crlf_at(octets, p.end)) by {
            if behind.len() >= 2 {
                assert(behind[0] == octets[p.end] && behind[1] == octets[p.end + 1]);
            }
        }
        if packet::has_crlf_at(behind, 0) {
            assert(behind != seq![13u8]);
            assert(behind.skip(2) =~= octets.skip(p.end + 2));
        }
    }
}

/// Octets that come later settle what is left of those that came before like octets that came
/// at once.
proof fn lemma_settled_extends(rest: Rest, more: Seq<u8>)
    ensures
        ({
            let s = settled(rest);
            settled(Rest { open: rest.open, octets: rest.octets + more }) == settled(
                Rest { open: s.open, octets: s.octets + more },
            )
        }),
        !settled(rest).open ==> settled(Rest { open: rest.open, octets: rest.octets + more }) == (
        Rest { open: false, octets: settled(rest).octets + more }),
{
    let whole = rest.octets + more;
    if rest.open && rest.octets.len() > 0 && rest.octets != seq![13u8] {
        assert(whole[0] == rest.octets[0]);
        if rest.octets.len() == 1 {
            assert(rest.octets[0] != 13) by {
                if rest.octets[0] == 13 {
                    assert(rest.octets =~= seq![13u8]);
                }
            }
        } else {
            assert(whole[1] == rest.octets[1]);
        }
        assert(whole != seq![13u8]) by {
            if whole == seq![13u8] {
                assert(whole[0] == 13);
                assert(whole.len() == 1);
            }
        }
        if packet::has_crlf_at(rest.octets, 0) {
            assert(whole.skip(2) =~= rest.octets.skip(2) + more);
        }
    }
}

/// A stream may be cut anywhere: the messages that the octets before the cut hold, and those
/// that the octets behind it add to what was left, are together the messages of the whole
/// stream, and the same is left in the end.
pub proof fn law_reassembly(open: bool, first: Seq<u8>, second: Seq<u8>)
    ensures
        ({
            let (taken, rest) = messages(Rest { open, octets: first });
            let (more, left) = messages(Rest { open: rest.open, octets: rest.octets + second });
            messages(Rest { open, octets: first + second }) == (taken + more, left)
        }),
    decreases first.len(),
{
    let before = Rest { open, octets: first };
    let whole = Rest { open, octets: first + second };
    let s = settled(before);
    lemma_settled_extends(before, second);
    match packet::packet_of(s.octets) {
        Some(p) => {
            packet_laws::lemma_packet_size(s.octets);
            packet_laws::law_packet_extends(s.octets, second);
            assert(!s.open) by {
                if s.open {
                    assert(s.octets.len() <= 1);
                }
            }
            let next = s.octets.skip(p.end);
            assert((s.octets + second).skip(p.end) =~= next + second);
            law_reassembly(true, next, second);
            let (taken, rest) = messages(Rest { open: true, octets: next });
            let (more, left) = messages(Rest { open: rest.open, octets: rest.octets + second });
            assert(seq![message_of(p)] + (taken + more) =~= (seq![message_of(p)] + taken) + more);
        },
        None => {
            let (more, left) = messages(Rest { open: s.open, octets: s.octets + second });
            assert(messages(whole) == (more, left));
            assert(seq![] + more =~= more);
        },
    }
}

} // verus!
