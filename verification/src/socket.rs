//! Socket addresses, and sets of them.

use vstd::prelude::*;

use crate::ip::IpAddress;

verus! {

/// An Internet address with a port.
#[allow(inconsistent_fields)]
#[derive(Clone, Copy, Debug, PartialEq, Eq)]
pub enum SocketAddress {
    V4 { ip: [u8; 4], port: u16 },
    V6 { ip: [u8; 16], port: u16, flow_info: u32, scope_id: u32 },
}

/// The Internet address of a socket.
pub open spec fn ip_of(socket: SocketAddress) -> IpAddress {
    match socket {
        SocketAddress::V4 { ip, .. } => IpAddress::V4(ip),
        SocketAddress::V6 { ip, .. } => IpAddress::V6(ip),
    }
}

/// The port of a socket.
pub open spec fn port_of(socket: SocketAddress) -> u16 {
    match socket {
        SocketAddress::V4 { port, .. } => port,
        SocketAddress::V6 { port, .. } => port,
    }
}

fn same_octets(a: &[u8], b: &[u8]) -> (same: bool)
    ensures
        same == (a@ == b@),
{
    if a.len() != b.len() {
        return false;
    }
    let mut i: usize = 0;
    while i < a.len()
        invariant
            i <= a@.len(),
            a@.len() == b@.len(),
            forall|j: int| 0 <= j < i ==> a@[j] == b@[j],
        decreases a@.len() - i,
    {
        if a[i] != b[i] {
            return false;
        }
        i += 1;
    }
    proof {
        assert(a@ =~= b@);
    }
    true
}

/// Arrays are the same where their contents are.
proof fn lemma_same_array<const N: usize>(a: [u8; N], b: [u8; N])
    ensures
        a@ == b@ <==> a == b,
{
    if a@ == b@ {
        assert(a =~= b);
    }
}

impl SocketAddress {
    /// The Internet address.
    pub fn ip(&self) -> (ip: IpAddress)
        ensures
            ip == ip_of(*self),
    {
        match self {
            SocketAddress::V4 { ip, .. } => IpAddress::V4(*ip),
            SocketAddress::V6 { ip, .. } => IpAddress::V6(*ip),
        }
    }

    /// The port.
    pub fn port(&self) -> (port: u16)
        ensures
            port == port_of(*self),
    {
        match self {
            SocketAddress::V4 { port, .. } => *port,
            SocketAddress::V6 { port, .. } => *port,
        }
    }

    /// Tells whether the two agree in every part.
    pub fn same_as(&self, other: &SocketAddress) -> (same: bool)
        ensures
            same == (*self == *other),
    {
        match (self, other) {
            (SocketAddress::V4 { ip: a, port: p }, SocketAddress::V4 { ip: b, port: q }) => {
                let same = same_octets(a.as_slice(), b.as_slice());
                proof {
                    lemma_same_array(*a, *b);
                }
                same && *p == *q
            },
            (
                SocketAddress::V6 { ip: a, port: p, flow_info: f, scope_id: s },
                SocketAddress::V6 { ip: b, port: q, flow_info: g, scope_id: t },
            ) => {
                let same = same_octets(a.as_slice(), b.as_slice());
                proof {
                    lemma_same_array(*a, *b);
                }
                same && *p == *q && *f == *g && *s == *t
            },
            _ => false,
        }
    }
}

/// A set of socket addresses.
pub struct PeerSet {
    peers: Vec<SocketAddress>,
}

impl View for PeerSet {
    type V = Set<SocketAddress>;

    closed spec fn view(&self) -> Set<SocketAddress> {
        self.peers@.to_set()
    }
}

impl PeerSet {
    /// No address is held twice.
    pub closed spec fn wf(&self) -> bool {
        self.peers@.no_duplicates()
    }

    /// The empty set.
    pub fn new() -> (set: PeerSet)
        ensures
            set.wf(),
            set@ == Set::<SocketAddress>::empty(),
    {
        let set = PeerSet { peers: Vec::new() };
        proof {
            assert(set@ =~= Set::empty());
        }
        set
    }

    /// Tells whether the set holds `peer`.
    pub fn contains(&self, peer: &SocketAddress) -> (b: bool)
        ensures
            b == self@.contains(*peer),
    {
        let mut i: usize = 0;
        while i < self.peers.len()
            invariant
                i <= self.peers@.len(),
                forall|j: int| 0 <= j < i ==> self.peers@[j] != *peer,
            decreases self.peers@.len() - i,
        {
            if self.peers[i].same_as(peer) {
                proof {
                    assert(self.peers@.contains(self.peers@[i as int]));
                }
                return true;
            }
            i += 1;
        }
        false
    }

    /// Puts `peer` into the set.
    pub fn insert(&mut self, peer: SocketAddress)
        requires
            old(self).wf(),
        ensures
            final(self).wf(),
            final(self)@ == old(self)@.insert(peer),
    {
        if self.contains(&peer) {
            proof {
                assert(self@ =~= old(self)@.insert(peer));
            }
        } else {
            let ghost before = self.peers@;
            self.peers.push(peer);
            proof {
                assert(!before.contains(peer));
                assert(self.peers@ == before.push(peer));
                assert forall|s: SocketAddress| #[trigger]
                    self@.contains(s) == old(self)@.insert(peer).contains(s) by {
                    if before.contains(s) {
                        let i = choose|i: int| 0 <= i < before.len() && before[i] == s;
                        assert(self.peers@[i] == s);
                    }
                    if s == peer {
                        assert(self.peers@[before.len() as int] == s);
                    }
                }
                assert(self@ =~= old(self)@.insert(peer));
            }
        }
    }
}

} // verus!
