//! What holds of every UDP relay: who may answer a client, and that every packet of the
//! client's stream goes out, in order and once.

use vstd::prelude::*;

use crate::session;
use crate::address_laws::Destination;
use crate::session::{SessionView, StageView, UdpAction, UdpActionView, UdpEvent};
use crate::socket::SocketAddress;
use crate::stream_laws::Framed;
use crate::{
    address_laws, ip, ip_laws, packet, packet_laws, socket, stream, stream_laws, tunnel,
};

verus! {

/// Only a peer that the client has sent a packet to can answer it: octets are written to the
/// client for no other event than a datagram from such a peer, and they carry that datagram.
pub proof fn law_only_peers_answer(s: SessionView, event: UdpEvent)
    ensures
        session::session_step(s, event).1 matches UdpActionView::Reply(data) ==> {
            &&& event matches UdpEvent::Datagram { from, payload }
            &&& s.peers.contains(from)
            &&& data == session::reply_octets(from, payload@)
        },
{
}

/// A datagram changes neither the peers nor the client's stream, and one from a stranger is
/// dropped.
pub proof fn law_datagrams_change_nothing(s: SessionView, from: SocketAddress, payload: Vec<u8>)
    ensures
        ({
            let (next, action) = session::session_step(s, UdpEvent::Datagram { from, payload });
            &&& next.peers == s.peers
            &&& next.open == s.open
            &&& next.buffer == s.buffer
            &&& !s.peers.contains(from) ==> action == (UdpActionView::Ignore { from })
                && next.stage == StageView::Idle
        }),
{
}

/// A peer becomes known only as the destination that a packet is sent to, and stays known.
pub proof fn law_peers_are_destinations(s: SessionView, event: UdpEvent)
    ensures
        ({
            let (next, action) = session::session_step(s, event);
            &&& s.peers.subset_of(next.peers)
            &&& forall|peer: SocketAddress| #[trigger]
                next.peers.contains(peer) && !s.peers.contains(peer) ==> (
                action matches UdpActionView::SendTo { to, .. } && to == peer)
        }),
{
}

/// Every event that a session waits for leaves it consistent.
pub proof fn law_steps_keep_consistency(s: SessionView, event: UdpEvent)
    requires
        session::is_consistent(s),
        session::is_awaited(s.stage, event),
    ensures
        session::is_consistent(session::session_step(s, event).0),
{
}

/// The session that `start` has become in the course of `events`.
pub open spec fn session_after(start: SessionView, events: Seq<UdpEvent>) -> SessionView
    decreases events.len(),
{
    if events.len() == 0 {
        start
    } else {
        session::session_step(session_after(start, events.drop_last()), events.last()).0
    }
}

/// Whether each of `events` is something that the session waits for when it comes.
pub open spec fn all_awaited(start: SessionView, events: Seq<UdpEvent>) -> bool
    decreases events.len(),
{
    events.len() == 0 || (all_awaited(start, events.drop_last()) && session::is_awaited(
        session_after(start, events.drop_last()).stage,
        events.last(),
    ))
}

/// The action that the last of `events` leads to, or the first action of all.
pub open spec fn last_action(
    start: (SessionView, UdpActionView),
    events: Seq<UdpEvent>,
) -> UdpActionView {
    if events.len() == 0 {
        start.1
    } else {
        session::session_step(session_after(start.0, events.drop_last()), events.last()).1
    }
}

/// The datagrams that are sent in the course of `events`, in order: what they carry, and where
/// to.
pub open spec fn sent(start: (SessionView, UdpActionView), events: Seq<UdpEvent>) -> Seq<
    (Seq<u8>, SocketAddress),
>
    decreases events.len(),
{
    let before = if events.len() == 0 {
        seq![]
    } else {
        sent(start, events.drop_last())
    };
    match last_action(start, events) {
        UdpActionView::SendTo { payload, to } => before.push((payload, to)),
        _ => before,
    }
}

/// The names and ports that are resolved in the course of `events`, in order.
pub open spec fn asked(start: (SessionView, UdpActionView), events: Seq<UdpEvent>) -> Seq<
    Seq<char>,
>
    decreases events.len(),
{
    let before = if events.len() == 0 {
        seq![]
    } else {
        asked(start, events.drop_last())
    };
    match last_action(start, events) {
        UdpActionView::Resolve { target } => before.push(target),
        _ => before,
    }
}

/// The client's stream: what came with the request, and what was read in the course of
/// `events`.
pub open spec fn client_stream(initial: Seq<u8>, events: Seq<UdpEvent>) -> Seq<u8>
    decreases events.len(),
{
    if events.len() == 0 {
        initial
    } else {
        match events.last() {
            UdpEvent::ClientData(data) => client_stream(initial, events.drop_last()) + data@,
            _ => client_stream(initial, events.drop_last()),
        }
    }
}

/// What destinations resolved to in the course of `events`, in order.
pub open spec fn answers(events: Seq<UdpEvent>) -> Seq<Seq<SocketAddress>>
    decreases events.len(),
{
    if events.len() == 0 {
        seq![]
    } else {
        match events.last() {
            UdpEvent::Resolved(addresses) => answers(events.drop_last()).push(addresses@),
            _ => answers(events.drop_last()),
        }
    }
}

/// The datagrams that carry `messages`, one for each whose destination has an address.
pub open spec fn forwarded(
    messages: Seq<stream::Message>,
    addresses: Seq<Seq<SocketAddress>>,
) -> Seq<(Seq<u8>, SocketAddress)>
    decreases messages.len(),
{
    if messages.len() == 0 {
        seq![]
    } else {
        let before = forwarded(messages.drop_last(), addresses.drop_last());
        if addresses.last().len() > 0 {
            before.push((messages.last().payload, addresses.last()[0]))
        } else {
            before
        }
    }
}

/// The names and ports that `messages` go to.
pub open spec fn targets(messages: Seq<stream::Message>) -> Seq<Seq<char>> {
    messages.map_values(|m: stream::Message| tunnel::target_text(m.addr, m.port))
}

/// The peers that are known once destinations resolved to `addresses`.
pub open spec fn known_peers(addresses: Seq<Seq<SocketAddress>>) -> Set<SocketAddress>
    decreases addresses.len(),
{
    if addresses.len() == 0 {
        Set::empty()
    } else {
        let before = known_peers(addresses.drop_last());
        if addresses.last().len() > 0 {
            before.insert(addresses.last()[0])
        } else {
            before
        }
    }
}

/// What is left of a session's stream.
pub open spec fn rest_of(s: SessionView) -> stream::Rest {
    stream::Rest { open: s.open, octets: s.buffer }
}

/// The messages in the whole of a client's stream, and what is left of it behind them.
pub open spec fn stream_messages(octets: Seq<u8>) -> (Seq<stream::Message>, stream::Rest) {
    stream::messages(stream::Rest { open: false, octets })
}

/// Whether a session has kept pace with its stream when `n` destinations have resolved: of all
/// the messages of the stream, those still in its buffer are the ones that it has not finished
/// with.
spec fn keeps_pace(octets: Seq<u8>, n: int, s: SessionView) -> bool {
    let (all, left) = stream_messages(octets);
    let (pending, last) = stream::messages(rest_of(s));
    &&& session::is_consistent(s)
    &&& last == left
    &&& match s.stage {
        StageView::Resolving { payload, .. } => 0 <= n < all.len() && pending == all.skip(n)
            && payload == all[n].payload,
        StageView::Sending { .. } => 0 < n <= all.len() && pending == all.skip(n - 1),
        _ => n == all.len() && pending.len() == 0 && left == rest_of(s),
    }
}

/// How many destinations have been asked for when `n` have resolved.
spec fn asked_count(n: int, s: SessionView) -> int {
    if s.stage is Resolving {
        n + 1
    } else {
        n
    }
}

/// Going on to the next packet keeps pace, and asks for the destination of the next message.
proof fn lemma_next_keeps_pace(octets: Seq<u8>, n: int, s: SessionView)
    requires
        0 <= n <= stream_messages(octets).0.len(),
        stream::messages(rest_of(s)) == (
            stream_messages(octets).0.skip(n),
            stream_messages(octets).1,
        ),
    ensures
        keeps_pace(octets, n, session::next_packet(s).0),
        ({
            let (all, left) = stream_messages(octets);
            match session::next_packet(s).1 {
                UdpActionView::Resolve { target } => n < all.len() && target
                    == tunnel::target_text(all[n].addr, all[n].port),
                UdpActionView::Wait | UdpActionView::WaitMalformed => n == all.len(),
                _ => false,
            }
        }),
        session::next_packet(s).0.stage is Resolving <==> n < stream_messages(octets).0.len(),
{
    let (all, left) = stream_messages(octets);
    let rest = stream::settled(rest_of(s));
    assert(stream::settled(rest) == rest);
    let next = session::next_packet(s).0;
    assert(rest_of(next) == rest);
    match packet::packet_of(rest.octets) {
        Some(p) => {
            packet_laws::lemma_packet_size(rest.octets);
            let pending = stream::messages(rest_of(s)).0;
            let more = stream::messages(
                stream::Rest { open: true, octets: rest.octets.skip(p.end) },
            ).0;
            assert(pending == seq![stream::message_of(p)] + more);
            assert(pending.len() > 0 && pending == all.skip(n));
            assert(pending[0] == all[n]);
            assert(stream::messages(rest).0 == pending);
            assert(!rest.open);
        },
        None => {
            assert(all.skip(n).len() == 0);
        },
    }
}

/// What is pending behind the packet at the front.
proof fn lemma_packet_done(s: SessionView, end: int)
    requires
        !s.open,
        packet::packet_of(s.buffer) matches Some(p) && end == p.end,
    ensures
        stream::messages(stream::Rest { open: true, octets: s.buffer.skip(end) }) == (
            stream::messages(rest_of(s)).0.drop_first(),
            stream::messages(rest_of(s)).1,
        ),
        stream::messages(rest_of(s)).0.len() > 0,
{
    let p = packet::packet_of(s.buffer)->0;
    let (more, left) = stream::messages(stream::Rest { open: true, octets: s.buffer.skip(end) });
    assert(stream::messages(rest_of(s)) == (seq![stream::message_of(p)] + more, left));
    assert((seq![stream::message_of(p)] + more).drop_first() =~= more);
}

/// Every event that a session waits for keeps pace.
proof fn lemma_step_keeps_pace(octets: Seq<u8>, n: int, s: SessionView, event: UdpEvent)
    requires
        keeps_pace(octets, n, s),
        session::is_awaited(s.stage, event),
    ensures
        ({
            let (next, action) = session::session_step(s, event);
            let longer = match event {
                UdpEvent::ClientData(data) => octets + data@,
                _ => octets,
            };
            let m = if event is Resolved {
                n + 1
            } else {
                n
            };
            let (all, left) = stream_messages(longer);
            &&& keeps_pace(longer, m, next)
            &&& stream_messages(octets).0.is_prefix_of(all)
            &&& match action {
                UdpActionView::Resolve { target } => next.stage is Resolving && target
                    == tunnel::target_text(all[m].addr, all[m].port),
                _ => !(next.stage is Resolving),
            }
            &&& match action {
                UdpActionView::SendTo { payload, to } => (event matches UdpEvent::Resolved(
                    addresses,
                ) && addresses@.len() > 0 && to == addresses@[0] && payload == all[n].payload),
                _ => event matches UdpEvent::Resolved(addresses) ==> addresses@.len() == 0,
            }
        }),
{
    let (all, left) = stream_messages(octets);
    let (pending, last) = stream::messages(rest_of(s));
    match event {
        UdpEvent::ClientData(data) => {
            stream::law_reassembly(false, octets, data@);
            let (more, new_left) = stream::messages(
                stream::Rest { open: s.open, octets: s.buffer + data@ },
            );
            if data@.len() == 0 {
                assert(octets + data@ =~= octets);
            } else {
                let longer = stream_messages(octets + data@).0;
                assert(longer == all + more);
                assert(longer.skip(n) =~= more);
                lemma_next_keeps_pace(
                    octets + data@,
                    n,
                    SessionView { buffer: s.buffer + data@, ..s },
                );
            }
        },
        UdpEvent::Resolved(addresses) => {
            let end = s.stage->Resolving_end;
            if addresses@.len() == 0 {
                lemma_packet_done(s, end);
                assert(pending.drop_first() =~= all.skip(n + 1));
                lemma_next_keeps_pace(
                    octets,
                    n + 1,
                    SessionView { open: true, buffer: s.buffer.skip(end), ..s },
                );
            }
        },
        UdpEvent::SendDone => {
            let end = s.stage->Sending_end;
            lemma_packet_done(s, end);
            assert(pending.drop_first() =~= all.skip(n));
            lemma_next_keeps_pace(
                octets,
                n,
                SessionView { open: true, buffer: s.buffer.skip(end), ..s },
            );
        },
        _ => {},
    }
}

/// A session forwards the client's stream, however the stream is cut into reads and whatever
/// comes between them: of all the messages in the stream, those whose destinations have
/// resolved have gone out, in order and once, each to the first address of its destination, and
/// those destinations are the peers. Destinations are asked for in the same order. When the
/// session waits for more or has ended, no whole message is left behind.
pub proof fn law_stream_is_forwarded(initial: Seq<u8>, events: Seq<UdpEvent>)
    requires
        all_awaited(session::session_start(initial).0, events),
    ensures
        ({
            let start = session::session_start(initial);
            let s = session_after(start.0, events);
            let (all, left) = stream_messages(client_stream(initial, events));
            let addresses = answers(events);
            let n = addresses.len() as int;
            &&& n <= all.len()
            &&& sent(start, events) == forwarded(all.take(n), addresses)
            &&& s.peers == known_peers(addresses)
            &&& s.stage is Resolving ==> n < all.len() && asked(start, events) == targets(
                all.take(n + 1),
            )
            &&& !(s.stage is Resolving) ==> asked(start, events) == targets(all.take(n))
            &&& !(s.stage is Resolving) && !(s.stage is Sending) ==> n == all.len() && rest_of(s)
                == left
        }),
{
    lemma_stream_is_forwarded(initial, events);
}

/// The datagrams for a longer list of messages start with those for a shorter one.
proof fn lemma_forwarded_push(
    all: Seq<stream::Message>,
    addresses: Seq<Seq<SocketAddress>>,
    more: Seq<SocketAddress>,
)
    requires
        addresses.len() < all.len(),
    ensures
        ({
            let n = addresses.len() as int;
            let before = forwarded(all.take(n), addresses);
            forwarded(all.take(n + 1), addresses.push(more)) == if more.len() > 0 {
                before.push((all[n].payload, more[0]))
            } else {
                before
            }
        }),
        known_peers(addresses.push(more)) == if more.len() > 0 {
            known_peers(addresses).insert(more[0])
        } else {
            known_peers(addresses)
        },
{
    let n = addresses.len() as int;
    assert(all.take(n + 1).drop_last() =~= all.take(n));
    assert(addresses.push(more).drop_last() =~= addresses);
}

proof fn lemma_stream_is_forwarded(initial: Seq<u8>, events: Seq<UdpEvent>)
    requires
        all_awaited(session::session_start(initial).0, events),
    ensures
        ({
            let start = session::session_start(initial);
            let s = session_after(start.0, events);
            let octets = client_stream(initial, events);
            let all = stream_messages(octets).0;
            let addresses = answers(events);
            let n = addresses.len() as int;
            &&& keeps_pace(octets, n, s)
            &&& sent(start, events) == forwarded(all.take(n), addresses)
            &&& s.peers == known_peers(addresses)
            &&& asked(start, events) == targets(all.take(asked_count(n, s)))
        }),
    decreases events.len(),
{
    let start = session::session_start(initial);
    let s = session_after(start.0, events);
    let octets = client_stream(initial, events);
    let (all, left) = stream_messages(octets);
    let n = answers(events).len() as int;
    if events.len() == 0 {
        let empty = SessionView {
            peers: Set::empty(),
            open: false,
            buffer: initial,
            stage: StageView::Idle,
        };
        assert(all.skip(0) =~= all);
        lemma_next_keeps_pace(initial, 0, empty);
        assert(all.take(0) =~= seq![]);
        if all.len() > 0 {
            assert(all.take(1) =~= seq![all[0]]);
            assert(asked(start, events) =~= targets(all.take(1)));
        } else {
            assert(asked(start, events) =~= targets(all.take(0)));
        }
    } else {
        let before = events.drop_last();
        let event = events.last();
        lemma_stream_is_forwarded(initial, before);
        let t = session_after(start.0, before);
        let shorter = stream_messages(client_stream(initial, before)).0;
        let m = answers(before).len() as int;
        lemma_step_keeps_pace(client_stream(initial, before), m, t, event);
        assert(shorter.is_prefix_of(all));
        assert(m <= shorter.len());
        assert(all.take(m) =~= shorter.take(m));
        assert(all.take(asked_count(m, t)) =~= shorter.take(asked_count(m, t)));
        if let UdpEvent::Resolved(addresses) = event {
            lemma_forwarded_push(all, answers(before), addresses@);
        }
        if s.stage is Resolving {
            assert(targets(all.take(n + 1)) =~= targets(all.take(n)).push(
                tunnel::target_text(all[n].addr, all[n].port),
            ));
            assert(asked_count(m, t) == n);
        } else {
            assert(asked_count(m, t) == n);
        }
    }
}

/// How a client's stream is cut into reads does not matter: two sessions whose streams are the
/// same octets, and whose destinations resolve to the same addresses, send the same datagrams
/// to the same addresses in the same order, and know the same peers.
pub proof fn law_fragmentation_does_not_matter(
    initial: Seq<u8>,
    events: Seq<UdpEvent>,
    other_initial: Seq<u8>,
    other_events: Seq<UdpEvent>,
)
    requires
        all_awaited(session::session_start(initial).0, events),
        all_awaited(session::session_start(other_initial).0, other_events),
        client_stream(initial, events) == client_stream(other_initial, other_events),
        answers(events) == answers(other_events),
    ensures
        sent(session::session_start(initial), events) == sent(
            session::session_start(other_initial),
            other_events,
        ),
        session_after(session::session_start(initial).0, events).peers == session_after(
            session::session_start(other_initial).0,
            other_events,
        ).peers,
{
    law_stream_is_forwarded(initial, events);
    law_stream_is_forwarded(other_initial, other_events);
}

/// The octets that are written to the client in the course of `events`, one behind the other.
pub open spec fn written(start: (SessionView, UdpActionView), events: Seq<UdpEvent>) -> Seq<u8>
    decreases events.len(),
{
    let before = if events.len() == 0 {
        seq![]
    } else {
        written(start, events.drop_last())
    };
    match last_action(start, events) {
        UdpActionView::Reply(data) => before + data,
        _ => before,
    }
}

/// The octets that carry the datagrams among `events` to the client, one behind the other: those
/// that came from an address which a destination had resolved to before.
pub open spec fn answered(events: Seq<UdpEvent>) -> Seq<u8>
    decreases events.len(),
{
    if events.len() == 0 {
        seq![]
    } else {
        let before = answered(events.drop_last());
        match events.last() {
            UdpEvent::Datagram { from, payload } => if known_peers(
                answers(events.drop_last()),
            ).contains(from) {
                before + session::reply_octets(from, payload@)
            } else {
                before
            },
            _ => before,
        }
    }
}

/// The client gets every datagram from a destination that it has sent a packet to before, in
/// order and once, and no other octet.
pub proof fn law_answers_are_written(initial: Seq<u8>, events: Seq<UdpEvent>)
    requires
        all_awaited(session::session_start(initial).0, events),
    ensures
        written(session::session_start(initial), events) == answered(events),
    decreases events.len(),
{
    if events.len() > 0 {
        law_answers_are_written(initial, events.drop_last());
        law_stream_is_forwarded(initial, events.drop_last());
    }
}

/// A packet that came with the request goes out at once, without a further octet from the
/// client: its destination is asked for, and it is sent to the first address of that.
pub proof fn law_initial_packet_goes_out(initial: Seq<u8>, addresses: Vec<SocketAddress>)
    requires
        addresses@.len() > 0,
    ensures
        packet::packet_of(initial) matches Some(p) ==> {
            let (resolving, first) = session::session_start(initial);
            let (sending, second) = session::session_step(
                resolving,
                UdpEvent::Resolved(addresses),
            );
            let (last, third) = session::session_step(sending, UdpEvent::SendDone);
            &&& first == UdpActionView::Resolve { target: tunnel::target_text(p.addr, p.port) }
            &&& second == UdpActionView::SendTo { payload: p.payload, to: addresses@[0] }
            &&& p.size == initial.len() ==> third == UdpActionView::Wait
        },
{
    if let Some(p) = packet::packet_of(initial) {
        packet_laws::lemma_packet_size(initial);
        if p.size == initial.len() {
            stream::law_line_break_belongs_to_packet(initial);
            assert(initial.skip(p.size) =~= seq![]);
        }
    }
}

/// A client reads an answer back as the datagram that it carries: the text of the address and
/// the port that it came from, and its payload. A payload of more than 65535 octets is not
/// read back, because its length does not fit.
pub proof fn law_answers_read_back(from: SocketAddress, payload: Seq<u8>, rest: Seq<u8>)
    requires
        payload.len() <= 65535,
    ensures
        packet::packet_of(session::reply_octets(from, payload) + rest) matches Some(p) && p.addr
            == ip::ip_text(socket::ip_of(from)) && p.port == socket::port_of(from) && p.payload
            == payload && p.end == session::reply_octets(from, payload).len(),
{
    let text = ip::ip_text(socket::ip_of(from));
    packet_laws::lemma_address_text(socket::ip_of(from));
    packet_laws::law_response_round_trip(text, socket::port_of(from), payload, rest);
}

/// The packet that is being handled goes to the first address of its destination, with its
/// payload as it is, and that address becomes a peer. Nothing else changes.
pub proof fn law_packet_is_sent(
    s: SessionView,
    payload: Seq<u8>,
    end: int,
    addresses: Vec<SocketAddress>,
)
    requires
        s.stage == (StageView::Resolving { payload, end }),
        addresses@.len() > 0,
    ensures
        session::session_step(s, UdpEvent::Resolved(addresses)) == (
            SessionView {
                peers: s.peers.insert(addresses@[0]),
                open: s.open,
                buffer: s.buffer,
                stage: StageView::Sending { end },
            },
            UdpActionView::SendTo { payload, to: addresses@[0] },
        ),
{
}

/// A packet that was sent, or whose destination has no address, is taken off the stream up to
/// the end of its payload, and the session goes on with what is left.
pub proof fn law_packet_is_taken_off(
    s: SessionView,
    payload: Seq<u8>,
    end: int,
    addresses: Vec<SocketAddress>,
)
    requires
        addresses@.len() == 0,
    ensures
        s.stage == (StageView::Resolving { payload, end }) ==> session::session_step(
            s,
            UdpEvent::Resolved(addresses),
        ) == session::next_packet(
            SessionView { open: true, buffer: s.buffer.skip(end), ..s },
        ),
        s.stage == (StageView::Sending { end }) ==> session::session_step(s, UdpEvent::SendDone)
            == session::next_packet(SessionView { open: true, buffer: s.buffer.skip(end), ..s }),
{
}

/// A packet at the front of the stream is taken up, whatever its destination: the destination
/// and the port are asked for, and the payload is kept to be sent. Neither the peers nor the
/// stream change.
pub proof fn law_packet_is_taken_up(
    s: SessionView,
    d: Destination,
    port: u16,
    payload: Seq<u8>,
    rest: Seq<u8>,
)
    requires
        address_laws::is_destination(d),
        payload.len() <= 65535,
        s.buffer == address_laws::wire_of(d) + packet_laws::head_of(port, payload.len()) + payload
            + rest,
    ensures
        session::next_packet(s) == (
            SessionView {
                peers: s.peers,
                open: false,
                buffer: s.buffer,
                stage: StageView::Resolving {
                    payload,
                    end: (address_laws::wire_of(d).len() + 6 + payload.len()) as int,
                },
            },
            UdpActionView::Resolve {
                target: tunnel::target_text(address_laws::text_of(d), port),
            },
        ),
{
    let wire = address_laws::wire_of(d);
    packet_laws::law_packet_for_destination(d, port, payload, rest);
    assert(s.buffer[0] == wire[0] && wire[0] != 13);
    assert(s.buffer != seq![13u8]);
}

/// What a client sends is put behind what it sent before, and then looked at.
pub proof fn law_client_data_is_kept(s: SessionView, data: Vec<u8>, initial: Seq<u8>)
    ensures
        data@.len() > 0 ==> session::session_step(s, UdpEvent::ClientData(data))
            == session::next_packet(SessionView { buffer: s.buffer + data@, ..s }),
        session::session_start(initial) == session::next_packet(
            SessionView {
                peers: Set::empty(),
                open: false,
                buffer: initial,
                stage: StageView::Idle,
            },
        ),
{
}

/// Where no whole packet is left of the stream, the session waits, and keeps all that is left
/// and its peers. A line break that is missing is told.
pub proof fn law_session_waits(s: SessionView)
    requires
        packet::packet_of(stream::settled(rest_of(s)).octets) is None,
    ensures
        session::next_packet(s).0 == (SessionView {
            peers: s.peers,
            open: stream::settled(rest_of(s)).open,
            buffer: stream::settled(rest_of(s)).octets,
            stage: StageView::Idle,
        }),
        session::next_packet(s).1 == if packet::lacks_line_break(
            stream::settled(rest_of(s)).octets,
        ) {
            UdpActionView::WaitMalformed
        } else {
            UdpActionView::Wait
        },
{
}

/// A datagram from a peer is written to the client: the family, the address and the port that
/// it came from, its length, CR LF, and its payload as it is.
pub proof fn law_datagram_is_carried_back(
    s: SessionView,
    from: SocketAddress,
    payload: Vec<u8>,
)
    requires
        s.peers.contains(from),
    ensures
        ({
            let (next, action) = session::session_step(s, UdpEvent::Datagram { from, payload });
            let tail = packet_laws::head_of(socket::port_of(from), payload@.len() % 65536)
                + payload@;
            &&& next == (SessionView { stage: StageView::Replying, ..s })
            &&& match from {
                SocketAddress::V4 { ip, .. } => action == UdpActionView::Reply(
                    seq![1u8] + ip@ + tail,
                ),
                SocketAddress::V6 { ip, .. } => action == UdpActionView::Reply(
                    seq![4u8] + ip@ + tail,
                ),
            }
        }),
{
    match from {
        SocketAddress::V4 { ip, port } => {
            lemma_ipv4_reply(ip, port, payload@);
        },
        SocketAddress::V6 { ip, port, flow_info, scope_id } => {
            lemma_ipv6_reply(ip, port, flow_info, scope_id, payload@);
        },
    }
}

proof fn lemma_ipv4_reply(ip: [u8; 4], port: u16, payload: Seq<u8>)
    ensures
        session::reply_octets(SocketAddress::V4 { ip, port }, payload) == seq![1u8] + ip@ + (
        packet_laws::head_of(port, payload.len() % 65536) + payload),
{
    let head = packet_laws::head_of(port, payload.len() % 65536);
    packet_laws::law_ipv4_response(ip@, port, payload);
    assert(seq![1u8] + ip@ + head + payload =~= seq![1u8] + ip@ + (head + payload));
}

#[verifier::spinoff_prover]
#[verifier::rlimit(40)]
proof fn lemma_ipv6_reply(
    ip: [u8; 16],
    port: u16,
    flow_info: u32,
    scope_id: u32,
    payload: Seq<u8>,
)
    ensures
        session::reply_octets(SocketAddress::V6 { ip, port, flow_info, scope_id }, payload)
            == seq![4u8] + ip@ + (packet_laws::head_of(port, payload.len() % 65536) + payload),
{
    let segs = ip::segments(ip@);
    let head = packet_laws::head_of(port, payload.len() % 65536);
    assert(packet::encoded_response(ip::ipv6_text(segs), port, payload) == Some(
        seq![4u8] + ip@ + head + payload,
    )) by {
        ip_laws::law_ipv6_round_trip(segs);
        ip::lemma_segment_octets(ip@);
        packet_laws::law_ipv6_response(ip::ipv6_text(segs), segs, port, payload);
    }
    assert(seq![4u8] + ip@ + head + payload =~= seq![4u8] + ip@ + (head + payload));
}

/// A session ends with the client's stream, with a failure to read or to write to the client, a
/// failure to receive, and the end of the idle time; and it waits on after an answer was
/// written.
pub proof fn law_session_ends(s: SessionView, data: Vec<u8>)
    requires
        data@.len() == 0,
    ensures
        ({
            let ended = (SessionView { stage: StageView::Closed, ..s }, UdpActionView::Close);
            &&& session::session_step(s, UdpEvent::ClientData(data)) == ended
            &&& session::session_step(s, UdpEvent::ClientFailed) == ended
            &&& session::session_step(s, UdpEvent::SocketFailed) == ended
            &&& session::session_step(s, UdpEvent::IdleTimeout) == ended
            &&& session::session_step(s, UdpEvent::ReplyDone { written: false }) == ended
            &&& session::session_step(s, UdpEvent::ReplyDone { written: true }) == (
                SessionView { stage: StageView::Idle, ..s },
                UdpActionView::Wait,
            )
        }),
{
}

proof fn lemma_all_forwarded(
    messages: Seq<stream::Message>,
    addresses: Seq<Seq<SocketAddress>>,
)
    requires
        messages.len() == addresses.len(),
        forall|i: int| 0 <= i < addresses.len() ==> (#[trigger] addresses[i]).len() > 0,
    ensures
        forwarded(messages, addresses) == Seq::new(
            messages.len(),
            |i: int| (messages[i].payload, addresses[i][0]),
        ),
    decreases messages.len(),
{
    let all = Seq::new(messages.len(), |i: int| (messages[i].payload, addresses[i][0]));
    if messages.len() > 0 {
        lemma_all_forwarded(messages.drop_last(), addresses.drop_last());
        assert(addresses.last() == addresses[addresses.len() - 1]);
        assert(forwarded(messages, addresses) =~= all);
    } else {
        assert(all =~= seq![]);
    }
}

/// The packets that a client puts into its stream reach their destinations. However the stream
/// is cut and whatever comes between its parts, where every destination has an address, the
/// payloads go out one after the other, each once, as it is and to the first address of its own
/// destination; and the destinations and ports are the ones that were asked for.
pub proof fn law_packets_reach_destinations(
    items: Seq<Framed>,
    initial: Seq<u8>,
    events: Seq<UdpEvent>,
)
    requires
        forall|i: int| 0 <= i < items.len() ==> stream_laws::is_framed(#[trigger] items[i]),
        all_awaited(session::session_start(initial).0, events),
        client_stream(initial, events) == stream_laws::stream_octets(items),
        answers(events).len() == items.len(),
        forall|i: int| 0 <= i < items.len() ==> (#[trigger] answers(events)[i]).len() > 0,
    ensures
        ({
            let start = session::session_start(initial);
            &&& sent(start, events).len() == items.len()
            &&& asked(start, events).len() == items.len()
            &&& forall|i: int|
                0 <= i < items.len() ==> #[trigger] sent(start, events)[i] == (
                    items[i].payload,
                    answers(events)[i][0],
                )
            &&& forall|i: int|
                0 <= i < items.len() ==> #[trigger] asked(start, events)[i] == tunnel::target_text(
                    address_laws::text_of(items[i].to),
                    items[i].port,
                )
        }),
{
    law_stream_is_forwarded(initial, events);
    stream_laws::law_packets_are_found(items);
    let all = stream_messages(client_stream(initial, events)).0;
    assert(all.take(all.len() as int) =~= all);
    lemma_all_forwarded(all, answers(events));
    assert forall|i: int| 0 <= i < items.len() implies all[i].payload == items[i].payload
        && all[i].addr == address_laws::text_of(items[i].to) && all[i].port == items[i].port by {}
}

/// A session waits for what comes of the action that it asked for, and, where it is idle, for
/// the client, the destinations and the clock.
pub proof fn law_session_awaits(
    payload: Seq<u8>,
    end: int,
    addresses: Vec<SocketAddress>,
    data: Vec<u8>,
    from: SocketAddress,
    written: bool,
)
    ensures
        session::is_awaited(StageView::Idle, UdpEvent::ClientData(data)),
        session::is_awaited(StageView::Idle, UdpEvent::ClientFailed),
        session::is_awaited(StageView::Idle, UdpEvent::Datagram { from, payload: data }),
        session::is_awaited(StageView::Idle, UdpEvent::SocketFailed),
        session::is_awaited(StageView::Idle, UdpEvent::IdleTimeout),
        session::is_awaited(
            StageView::Resolving { payload, end },
            UdpEvent::Resolved(addresses),
        ),
        session::is_awaited(StageView::Sending { end }, UdpEvent::SendDone),
        session::is_awaited(StageView::Replying, UdpEvent::ReplyDone { written }),
{
}

/// What to do about a session, as mathematical values, is what to do about it.
pub proof fn law_udp_action_is_viewed(action: UdpAction)
    ensures
        match action {
            UdpAction::Wait => action@ == UdpActionView::Wait,
            UdpAction::WaitMalformed => action@ == UdpActionView::WaitMalformed,
            UdpAction::Ignore { from } => action@ == (UdpActionView::Ignore { from }),
            UdpAction::Resolve { target } => action@ == (UdpActionView::Resolve {
                target: target@,
            }),
            UdpAction::SendTo { payload, to } => action@ == (UdpActionView::SendTo {
                payload: payload@,
                to,
            }),
            UdpAction::Reply(data) => action@ == UdpActionView::Reply(data@),
            UdpAction::Close => action@ == UdpActionView::Close,
        },
{
}

/// The CR LF of the packet before is skipped, and the session goes on behind it.
pub proof fn law_line_break_is_skipped(s: SessionView, octets: Seq<u8>)
    requires
        s.open,
        s.buffer == seq![13u8, 10u8] + octets,
    ensures
        session::next_packet(s) == session::next_packet(
            SessionView { open: false, buffer: octets, ..s },
        ),
{
    stream_laws::law_line_break_is_taken_off(0, octets);
}

/// A session may be idle for five minutes.
pub proof fn law_idle_time()
    ensures
        session::IDLE_SECONDS == 5 * 60,
{
}

} // verus!
