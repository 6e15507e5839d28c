//! UDP relays. The client's stream carries packets to their destinations, and what those
//! destinations answer is carried back. A session says what to do next, and is told what came
//! of it.

use vstd::prelude::*;
use vstd::slice::{slice_subrange, slice_to_vec};

use crate::packet;
use crate::packet::{encode_udp_response, is_line_break_missing, read_packet};
use crate::packet_laws;
use crate::socket;
use crate::socket::{PeerSet, SocketAddress};
use crate::stream;
use crate::stream::settle;
use crate::tunnel;
use crate::tunnel::format_target;
use crate::{ip, ip_laws};

verus! {

/// How long a session may be idle.
pub const IDLE_SECONDS: u64 = 300;

/// What a session waits for.
enum Stage {
    /// The client, a destination, or the end of the idle time.
    Idle,
    /// The address of the destination of the first packet in the buffer, which carries
    /// `payload`, up to `end`.
    Resolving { payload: Vec<u8>, end: usize },
    /// The first packet in the buffer, whose payload goes up to `end`, on its way.
    Sending { end: usize },
    /// An answer on its way to the client.
    Replying,
    /// Nothing any more.
    Closed,
}

/// What a session waits for, as mathematical values.
pub ghost enum StageView {
    Idle,
    Resolving { payload: Seq<u8>, end: int },
    Sending { end: int },
    Replying,
    Closed,
}

/// A session: the peers that may answer the client, what is left of the client's stream, and
/// what the session waits for. The stream is `open` where the CR LF of the packet before may
/// still come.
pub ghost struct SessionView {
    pub peers: Set<SocketAddress>,
    pub open: bool,
    pub buffer: Seq<u8>,
    pub stage: StageView,
}

/// A UDP relay for one client.
pub struct UdpSession {
    peers: PeerSet,
    open: bool,
    buffer: Vec<u8>,
    stage: Stage,
}

impl View for UdpSession {
    type V = SessionView;

    closed spec fn view(&self) -> SessionView {
        SessionView {
            peers: self.peers@,
            open: self.open,
            buffer: self.buffer@,
            stage: match self.stage {
                Stage::Idle => StageView::Idle,
                Stage::Resolving { payload, end } => StageView::Resolving {
                    payload: payload@,
                    end: end as int,
                },
                Stage::Sending { end } => StageView::Sending { end: end as int },
                Stage::Replying => StageView::Replying,
                Stage::Closed => StageView::Closed,
            },
        }
    }
}

/// What came of waiting, or of an action.
#[derive(Debug)]
pub enum UdpEvent {
    /// The client sent these octets, or, where there are none, ended its stream.
    ClientData(Vec<u8>),
    /// The client's stream could not be read.
    ClientFailed,
    /// A datagram came in.
    Datagram { from: SocketAddress, payload: Vec<u8> },
    /// The socket for datagrams could not be read.
    SocketFailed,
    /// The idle time was up.
    IdleTimeout,
    /// The destination has these addresses, or none that is known.
    Resolved(Vec<SocketAddress>),
    /// The packet was sent, or could not be sent.
    SendDone,
    /// The answer was written, or could not be written.
    ReplyDone { written: bool },
}

/// What to do next about a session.
#[derive(Debug, PartialEq, Eq)]
pub enum UdpAction {
    /// Start the idle time anew, and wait.
    Wait,
    /// Report that CR LF is missing behind the head of the packet at the front of the stream.
    /// Start the idle time anew, and wait.
    WaitMalformed,
    /// Drop the datagram, because it came from a stranger. Start the idle time anew, and wait.
    Ignore { from: SocketAddress },
    /// Resolve the name and port.
    Resolve { target: String },
    /// Send this datagram.
    SendTo { payload: Vec<u8>, to: SocketAddress },
    /// Write these octets to the client.
    Reply(Vec<u8>),
    /// End the session.
    Close,
}

/// A [`UdpAction`] as mathematical values.
pub ghost enum UdpActionView {
    Wait,
    WaitMalformed,
    Ignore { from: SocketAddress },
    Resolve { target: Seq<char> },
    SendTo { payload: Seq<u8>, to: SocketAddress },
    Reply(Seq<u8>),
    Close,
}

impl View for UdpAction {
    type V = UdpActionView;

    open spec fn view(&self) -> UdpActionView {
        match self {
            UdpAction::Wait => UdpActionView::Wait,
            UdpAction::WaitMalformed => UdpActionView::WaitMalformed,
            UdpAction::Ignore { from } => UdpActionView::Ignore { from: *from },
            UdpAction::Resolve { target } => UdpActionView::Resolve { target: target@ },
            UdpAction::SendTo { payload, to } => UdpActionView::SendTo {
                payload: payload@,
                to: *to,
            },
            UdpAction::Reply(data) => UdpActionView::Reply(data@),
            UdpAction::Close => UdpActionView::Close,
        }
    }
}

/// Whether the stage fits the buffer: a packet that is being handled stands at the front.
pub open spec fn is_consistent(s: SessionView) -> bool {
    match s.stage {
        StageView::Resolving { payload, end } => !s.open && (packet::packet_of(
            s.buffer,
        ) matches Some(p) && payload == p.payload && end == p.end),
        StageView::Sending { end } => !s.open && (packet::packet_of(s.buffer) matches Some(p) && end
            == p.end),
        _ => true,
    }
}

/// Whether `event` is something that can come while a session is at `stage`.
pub open spec fn is_awaited(stage: StageView, event: UdpEvent) -> bool {
    match stage {
        StageView::Idle => event is ClientData || event is ClientFailed || event is Datagram
            || event is SocketFailed || event is IdleTimeout,
        StageView::Resolving { .. } => event is Resolved,
        StageView::Sending { .. } => event is SendDone,
        StageView::Replying => event is ReplyDone,
        StageView::Closed => false,
    }
}

/// A session that has ended.
pub open spec fn closed_session(s: SessionView) -> (SessionView, UdpActionView) {
    (SessionView { stage: StageView::Closed, ..s }, UdpActionView::Close)
}

/// A session that waits for whatever comes first.
pub open spec fn idle_session(s: SessionView) -> (SessionView, UdpActionView) {
    (SessionView { stage: StageView::Idle, ..s }, UdpActionView::Wait)
}

/// What follows when no packet is being handled: the first one that is left of the stream is,
/// if there is a whole one.
pub open spec fn next_packet(s: SessionView) -> (SessionView, UdpActionView) {
    let rest = stream::settled(stream::Rest { open: s.open, octets: s.buffer });
    let left = SessionView { open: rest.open, buffer: rest.octets, ..s };
    match packet::packet_of(rest.octets) {
        Some(p) => (
            SessionView {
                stage: StageView::Resolving { payload: p.payload, end: p.end },
                ..left
            },
            UdpActionView::Resolve { target: tunnel::target_text(p.addr, p.port) },
        ),
        None => if packet::lacks_line_break(rest.octets) {
            (SessionView { stage: StageView::Idle, ..left }, UdpActionView::WaitMalformed)
        } else {
            idle_session(left)
        },
    }
}

/// What follows when the packet at the front of the stream, whose payload goes up to `end`, has
/// been handled. The CR LF of that packet may follow, now or later.
pub open spec fn packet_done(s: SessionView, end: int) -> (SessionView, UdpActionView) {
    next_packet(SessionView { open: true, buffer: s.buffer.skip(end), ..s })
}

/// The octets that carry a datagram back to the client.
pub open spec fn reply_octets(from: SocketAddress, payload: Seq<u8>) -> Seq<u8> {
    packet::encoded_response(
        ip::ip_text(socket::ip_of(from)),
        socket::port_of(from),
        payload,
    )->0
}

/// Where a session goes on `event`, and what to do next. Of the addresses that a destination
/// has, the first one counts.
pub open spec fn session_step(s: SessionView, event: UdpEvent) -> (SessionView, UdpActionView) {
    match event {
        UdpEvent::ClientData(data) => if data@.len() == 0 {
            closed_session(s)
        } else {
            next_packet(SessionView { buffer: s.buffer + data@, ..s })
        },
        UdpEvent::Datagram { from, payload } => if s.peers.contains(from) {
            (
                SessionView { stage: StageView::Replying, ..s },
                UdpActionView::Reply(reply_octets(from, payload@)),
            )
        } else {
            (SessionView { stage: StageView::Idle, ..s }, UdpActionView::Ignore { from })
        },
        UdpEvent::Resolved(addresses) => if addresses@.len() > 0 {
            (
                SessionView {
                    peers: s.peers.insert(addresses@[0]),
                    stage: StageView::Sending { end: s.stage->Resolving_end },
                    ..s
                },
                UdpActionView::SendTo { payload: s.stage->Resolving_payload, to: addresses@[0] },
            )
        } else {
            packet_done(s, s.stage->Resolving_end)
        },
        UdpEvent::SendDone => packet_done(s, s.stage->Sending_end),
        UdpEvent::ReplyDone { written } => if written {
            idle_session(s)
        } else {
            closed_session(s)
        },
        _ => closed_session(s),
    }
}

impl UdpSession {
    /// No peer is held twice, and a packet that is being handled stands at the front of the
    /// buffer.
    pub closed spec fn wf(&self) -> bool {
        self.peers.wf() && is_consistent(self@)
    }

    fn next(peers: PeerSet, open: bool, buffer: Vec<u8>) -> (r: (UdpSession, UdpAction))
        requires
            peers.wf(),
        ensures
            r.0.wf(),
            (r.0@, r.1@) == next_packet(
                SessionView { peers: peers@, open, buffer: buffer@, stage: StageView::Idle },
            ),
    {
        let (open, buffer) = settle(open, buffer);
        match read_packet(buffer.as_slice()) {
            Some((addr, port, payload, end)) => {
                let target = format_target(addr.as_str(), port);
                let stage = Stage::Resolving { payload, end };
                (UdpSession { peers, open, buffer, stage }, UdpAction::Resolve { target })
            },
            None => {
                let action = if is_line_break_missing(buffer.as_slice()) {
                    UdpAction::WaitMalformed
                } else {
                    UdpAction::Wait
                };
                (UdpSession { peers, open, buffer, stage: Stage::Idle }, action)
            },
        }
    }

    fn skip(peers: PeerSet, buffer: Vec<u8>, end: usize) -> (r: (UdpSession, UdpAction))
        requires
            peers.wf(),
            end <= buffer@.len(),
        ensures
            r.0.wf(),
            (r.0@, r.1@) == packet_done(
                SessionView {
                    peers: peers@,
                    open: false,
                    buffer: buffer@,
                    stage: StageView::Idle,
                },
                end as int,
            ),
    {
        let rest = slice_to_vec(slice_subrange(buffer.as_slice(), end, buffer.len()));
        proof {
            assert(rest@ =~= buffer@.skip(end as int));
        }
        Self::next(peers, true, rest)
    }

    fn reply(
        peers: PeerSet,
        open: bool,
        buffer: Vec<u8>,
        from: SocketAddress,
        payload: Vec<u8>,
    ) -> (r: (UdpSession, UdpAction))
        requires
            peers.wf(),
        ensures
            r.0.wf(),
            r.0@ == (SessionView {
                peers: peers@,
                open,
                buffer: buffer@,
                stage: StageView::Replying,
            }),
            r.1@ == UdpActionView::Reply(reply_octets(from, payload@)),
    {
        let text = from.ip().to_text();
        proof {
            ip_laws::law_ip_round_trip(socket::ip_of(from));
        }
        match encode_udp_response(text.as_str(), from.port(), payload.as_slice()) {
            Ok(data) => (
                UdpSession { peers, open, buffer, stage: Stage::Replying },
                UdpAction::Reply(data),
            ),
            Err(_) => {
                proof {
                    assert(false);
                }
                (UdpSession { peers, open, buffer, stage: Stage::Idle }, UdpAction::Wait)
            },
        }
    }

    fn close(peers: PeerSet, open: bool, buffer: Vec<u8>) -> (r: (UdpSession, UdpAction))
        requires
            peers.wf(),
        ensures
            r.0.wf(),
            r.0@ == (SessionView {
                peers: peers@,
                open,
                buffer: buffer@,
                stage: StageView::Closed,
            }),
            r.1@ == UdpActionView::Close,
    {
        (UdpSession { peers, open, buffer, stage: Stage::Closed }, UdpAction::Close)
    }

    /// Takes up what came, and says what to do next.
    pub fn step(self, event: UdpEvent) -> (r: (UdpSession, UdpAction))
        requires
            self.wf(),
            is_awaited(self@.stage, event),
        ensures
            r.0.wf(),
            (r.0@, r.1@) == session_step(self@, event),
    {
        proof {
            packet_laws::lemma_packet_size(self@.buffer);
        }
        let UdpSession { mut peers, open, mut buffer, stage } = self;
        match event {
            UdpEvent::ClientData(data) => {
                if data.len() == 0 {
                    return Self::close(peers, open, buffer);
                }
                let ghost before = buffer@;
                buffer.extend_from_slice(data.as_slice());
                proof {
                    assert(buffer@ =~= before + data@);
                }
                Self::next(peers, open, buffer)
            },
            UdpEvent::Datagram { from, payload } => {
                if peers.contains(&from) {
                    Self::reply(peers, open, buffer, from, payload)
                } else {
                    let action = UdpAction::Ignore { from };
                    (UdpSession { peers, open, buffer, stage: Stage::Idle }, action)
                }
            },
            UdpEvent::Resolved(addresses) => match stage {
                Stage::Resolving { payload, end } => if addresses.len() > 0 {
                    let to = addresses[0];
                    peers.insert(to);
                    (
                        UdpSession { peers, open, buffer, stage: Stage::Sending { end } },
                        UdpAction::SendTo { payload, to },
                    )
                } else {
                    Self::skip(peers, buffer, end)
                },
                _ => Self::close(peers, open, buffer),
            },
            UdpEvent::SendDone => match stage {
                Stage::Sending { end } => Self::skip(peers, buffer, end),
                _ => Self::close(peers, open, buffer),
            },
            UdpEvent::ReplyDone { written } => {
                if written {
                    (UdpSession { peers, open, buffer, stage: Stage::Idle }, UdpAction::Wait)
                } else {
                    Self::close(peers, open, buffer)
                }
            },
            _ => Self::close(peers, open, buffer),
        }
    }
}

/// The start of a session whose stream goes on from `initial_payload`: a packet that came with
/// the request is handled like any other.
pub open spec fn session_start(initial_payload: Seq<u8>) -> (SessionView, UdpActionView) {
    next_packet(
        SessionView {
            peers: Set::empty(),
            open: false,
            buffer: initial_payload,
            stage: StageView::Idle,
        },
    )
}

/// Starts the session of a client whose stream goes on from `initial_payload`.
pub fn handle_udp_associate(initial_payload: Vec<u8>) -> (r: (UdpSession, UdpAction))
    ensures
        r.0.wf(),
        (r.0@, r.1@) == session_start(initial_payload@),
{
    UdpSession::next(PeerSet::new(), false, initial_payload)
}

} // verus!
