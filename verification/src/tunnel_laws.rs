//! What holds of tunnels: what is asked for, in which order, and how they fail.

use vstd::prelude::*;

use crate::ip::IpAddress;
use crate::socket::SocketAddress;
use crate::tunnel::{
    PipeAction, PipeActionView, PipeEvent, ReadFailure, Tunnel, TunnelAction, TunnelActionView,
    TunnelEvent, TunnelView,
};
use crate::{ranges, socket, text, text_laws, tunnel};

verus! {

/// The text of a host and a port: the host as it is, a colon, and decimal digits that are worth
/// the port, without a zero in front.
pub proof fn law_target_names_host_and_port(addr: Seq<char>, port: u16)
    ensures
        ({
            let t = tunnel::target_text(addr, port);
            let digits = t.skip(addr.len() as int + 1);
            &&& t == addr + seq![':'] + digits
            &&& digits.len() > 0
            &&& forall|i: int|
                0 <= i < digits.len() ==> text_laws::is_decimal_digit(#[trigger] digits[i])
            &&& digits.len() > 1 ==> digits[0] != '0'
            &&& text::numeral_value(digits, 10) == port
        }),
{
    let t = tunnel::target_text(addr, port);
    let digits = t.skip(addr.len() as int + 1);
    assert(digits =~= text::decimal(port as nat));
    assert(t =~= addr + seq![':'] + digits);
    text_laws::law_decimal(port as nat);
}

/// Two destinations that are asked for in the same words are the same.
pub proof fn law_targets_differ(addr: Seq<char>, port: u16, other: Seq<char>, other_port: u16)
    requires
        tunnel::target_text(addr, port) == tunnel::target_text(other, other_port),
    ensures
        addr == other,
        port == other_port,
{
    let t = tunnel::target_text(addr, port);
    law_target_names_host_and_port(addr, port);
    law_target_names_host_and_port(other, other_port);
    let n = addr.len() as int;
    let m = other.len() as int;
    assert(t[n] == ':' && t[m] == ':');
    if n < m {
        assert(text_laws::is_decimal_digit(t.skip(n + 1)[m - n - 1]));
    } else if m < n {
        assert(text_laws::is_decimal_digit(t.skip(m + 1)[n - m - 1]));
    }
    assert(t.take(n) =~= addr);
    assert(t.take(m) =~= other);
}

/// A tunnel starts by asking for its destination, host and port, for five seconds, and keeps
/// the octets for it. There is none to port 0.
pub proof fn law_tunnel_asks_for_destination(addr: Seq<char>, port: u16, data: Seq<u8>)
    ensures
        port == 0 ==> tunnel::connect_start(addr, port, data) == (
            TunnelView::Settled,
            TunnelActionView::Fail("Blocked port"@),
        ),
        port != 0 ==> ({
            let (state, action) = tunnel::connect_start(addr, port, data);
            &&& state == TunnelView::Resolving(data)
            &&& action matches TunnelActionView::Resolve { target, seconds }
            &&& seconds == 5
            &&& target.len() > addr.len() + 1
            &&& target.take(addr.len() as int) == addr
            &&& target[addr.len() as int] == ':'
            &&& text::numeral_value(target.skip(addr.len() as int + 1), 10) == port
        }),
{
    law_target_names_host_and_port(addr, port);
    let t = tunnel::target_text(addr, port);
    assert(t.take(addr.len() as int) =~= addr);
}

/// A tunnel to the web site starts by connecting to it, for five seconds, and keeps the octets
/// for it.
pub proof fn law_fallback_asks_for_web_site(backend: Seq<char>, data: Seq<u8>)
    ensures
        tunnel::fallback_start(backend, data) == (
            TunnelView::ConnectingBackend(data),
            TunnelActionView::ConnectBackend { backend, seconds: 5 },
        ),
{
}

/// Of the addresses of a destination, the first one counts: it is connected to for ten seconds
/// if it is not in a private range, and the octets are kept. Otherwise, and where there is no
/// address, the tunnel fails.
pub proof fn law_first_address_is_connected(data: Seq<u8>, addresses: Vec<SocketAddress>)
    ensures
        ({
            let step = tunnel::tunnel_step(
                TunnelView::Resolving(data),
                TunnelEvent::Resolved(addresses),
            );
            &&& addresses@.len() == 0 ==> step == (
                TunnelView::Settled,
                TunnelActionView::Fail("No addresses resolved"@),
            )
            &&& addresses@.len() > 0 && ranges::is_private(socket::ip_of(addresses@[0])) ==> step
                == (TunnelView::Settled, TunnelActionView::Fail("Blocked private address"@))
            &&& addresses@.len() > 0 && !ranges::is_private(socket::ip_of(addresses@[0])) ==> step
                == (
                TunnelView::Connecting(data),
                TunnelActionView::Connect { to: addresses@[0], seconds: 10 },
            )
        }),
{
}

/// Once the far end is connected, it is sent the octets for it, all of them; where there are
/// none, and once they are sent, octets are piped.
pub proof fn law_far_end_gets_octets(data: Seq<u8>, state: TunnelView)
    requires
        state == TunnelView::Connecting(data) || state == TunnelView::ConnectingBackend(data),
    ensures
        data.len() > 0 ==> tunnel::tunnel_step(state, TunnelEvent::Connected) == (
            TunnelView::Sending,
            TunnelActionView::Send(data),
        ),
        data.len() == 0 ==> tunnel::tunnel_step(state, TunnelEvent::Connected) == (
            TunnelView::Settled,
            TunnelActionView::Pipe,
        ),
        tunnel::tunnel_step(TunnelView::Sending, TunnelEvent::Sent) == (
            TunnelView::Settled,
            TunnelActionView::Pipe,
        ),
{
}

/// Whatever fails, the tunnel fails with what was said of it, or with a word on what took too
/// long.
pub proof fn law_failures_are_told(data: Seq<u8>, why: String)
    ensures
        tunnel::tunnel_step(TunnelView::Resolving(data), TunnelEvent::ResolveFailed(why)) == (
            TunnelView::Settled,
            TunnelActionView::Fail(why@),
        ),
        tunnel::tunnel_step(TunnelView::Resolving(data), TunnelEvent::ResolveTimedOut) == (
            TunnelView::Settled,
            TunnelActionView::Fail("DNS timeout"@),
        ),
        tunnel::tunnel_step(TunnelView::Connecting(data), TunnelEvent::ConnectFailed(why)) == (
            TunnelView::Settled,
            TunnelActionView::Fail(why@),
        ),
        tunnel::tunnel_step(TunnelView::Connecting(data), TunnelEvent::ConnectTimedOut) == (
            TunnelView::Settled,
            TunnelActionView::Fail("TCP connect timeout"@),
        ),
        tunnel::tunnel_step(
            TunnelView::ConnectingBackend(data),
            TunnelEvent::ConnectFailed(why),
        ) == (TunnelView::Settled, TunnelActionView::Fail(why@)),
        tunnel::tunnel_step(TunnelView::ConnectingBackend(data), TunnelEvent::ConnectTimedOut) == (
            TunnelView::Settled,
            TunnelActionView::Fail("Backend timeout"@),
        ),
        tunnel::tunnel_step(TunnelView::Sending, TunnelEvent::SendFailed(why)) == (
            TunnelView::Settled,
            TunnelActionView::Fail(why@),
        ),
{
}

/// One direction of a tunnel writes what it read, reads on once that is written, and is done at
/// the end of the stream or when the peer goes away. Every other failure is told.
pub proof fn law_pipe(data: Vec<u8>, detail: String)
    ensures
        data@.len() > 0 ==> tunnel::pipe_step(PipeEvent::Read(data)) == PipeActionView::Write(data@),
        data@.len() == 0 ==> tunnel::pipe_step(PipeEvent::Read(data)) == PipeActionView::Finish,
        tunnel::pipe_step(PipeEvent::Written) == PipeActionView::Read,
        tunnel::pipe_step(PipeEvent::WriteFailed(detail)) == PipeActionView::Fail(detail@),
        tunnel::pipe_step(
            PipeEvent::ReadFailed { kind: ReadFailure::ConnectionReset, detail },
        ) == PipeActionView::Finish,
        tunnel::pipe_step(PipeEvent::ReadFailed { kind: ReadFailure::BrokenPipe, detail })
            == PipeActionView::Finish,
        tunnel::pipe_step(PipeEvent::ReadFailed { kind: ReadFailure::Other, detail })
            == PipeActionView::Fail(detail@),
{
}

/// A tunnel waits for what comes of the action that it asked for, and for nothing else.
pub proof fn law_tunnel_awaits(data: Seq<u8>, addresses: Vec<SocketAddress>, why: String)
    ensures
        tunnel::is_awaited(TunnelView::Resolving(data), TunnelEvent::Resolved(addresses)),
        tunnel::is_awaited(TunnelView::Resolving(data), TunnelEvent::ResolveFailed(why)),
        tunnel::is_awaited(TunnelView::Resolving(data), TunnelEvent::ResolveTimedOut),
        tunnel::is_awaited(TunnelView::Connecting(data), TunnelEvent::Connected),
        tunnel::is_awaited(TunnelView::Connecting(data), TunnelEvent::ConnectFailed(why)),
        tunnel::is_awaited(TunnelView::Connecting(data), TunnelEvent::ConnectTimedOut),
        tunnel::is_awaited(TunnelView::ConnectingBackend(data), TunnelEvent::Connected),
        tunnel::is_awaited(TunnelView::ConnectingBackend(data), TunnelEvent::ConnectFailed(why)),
        tunnel::is_awaited(TunnelView::ConnectingBackend(data), TunnelEvent::ConnectTimedOut),
        tunnel::is_awaited(TunnelView::Sending, TunnelEvent::Sent),
        tunnel::is_awaited(TunnelView::Sending, TunnelEvent::SendFailed(why)),
{
}

/// The parts of a socket address are those that it was made of.
pub proof fn law_socket_parts(
    v4: [u8; 4],
    v6: [u8; 16],
    port: u16,
    flow_info: u32,
    scope_id: u32,
)
    ensures
        socket::ip_of(SocketAddress::V4 { ip: v4, port }) == IpAddress::V4(v4),
        socket::port_of(SocketAddress::V4 { ip: v4, port }) == port,
        socket::ip_of(SocketAddress::V6 { ip: v6, port, flow_info, scope_id }) == IpAddress::V6(v6),
        socket::port_of(SocketAddress::V6 { ip: v6, port, flow_info, scope_id }) == port,
{
}

/// What to do about a tunnel, as mathematical values, is what to do about it.
pub proof fn law_tunnel_action_is_viewed(action: TunnelAction)
    ensures
        match action {
            TunnelAction::Resolve { target, seconds } => action@ == (TunnelActionView::Resolve {
                target: target@,
                seconds,
            }),
            TunnelAction::Connect { to, seconds } => action@ == (TunnelActionView::Connect {
                to,
                seconds,
            }),
            TunnelAction::ConnectBackend { backend, seconds } => action@ == (
            TunnelActionView::ConnectBackend { backend: backend@, seconds }),
            TunnelAction::Send(data) => action@ == TunnelActionView::Send(data@),
            TunnelAction::Pipe => action@ == TunnelActionView::Pipe,
            TunnelAction::Fail(why) => action@ == TunnelActionView::Fail(why@),
        },
{
}

/// A tunnel as mathematical values is that tunnel.
pub proof fn law_tunnel_is_viewed(state: Tunnel)
    ensures
        match state {
            Tunnel::Resolving(data) => state@ == TunnelView::Resolving(data@),
            Tunnel::Connecting(data) => state@ == TunnelView::Connecting(data@),
            Tunnel::ConnectingBackend(data) => state@ == TunnelView::ConnectingBackend(data@),
            Tunnel::Sending => state@ == TunnelView::Sending,
            Tunnel::Settled => state@ == TunnelView::Settled,
        },
{
}

/// What to do about one direction of a tunnel, as mathematical values, is what to do about it.
pub proof fn law_pipe_action_is_viewed(action: PipeAction)
    ensures
        match action {
            PipeAction::Read => action@ == PipeActionView::Read,
            PipeAction::Write(data) => action@ == PipeActionView::Write(data@),
            PipeAction::Finish => action@ == PipeActionView::Finish,
            PipeAction::Fail(why) => action@ == PipeActionView::Fail(why@),
        },
{
}

} // verus!
