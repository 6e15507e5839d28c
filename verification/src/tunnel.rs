//! TCP tunnels: from a client to the destination that it asked for, or to the web site that
//! the server pretends to be. A tunnel says what to do next, and is told what came of it.

use vstd::prelude::*;

use crate::ranges;
use crate::ranges::is_private_address;
use crate::socket;
use crate::socket::SocketAddress;
use crate::text;
use crate::text::push_decimal;

verus! {

/// The web site that the server pretends to be, unless it is told otherwise.
pub const DEFAULT_BACKEND: &'static str = "google.com:80";

/// How long the name of a destination may take to resolve.
pub const RESOLVE_SECONDS: u64 = 5;

/// How long a destination may take to accept a connection.
pub const CONNECT_SECONDS: u64 = 10;

/// How long the web site may take to accept a connection.
pub const BACKEND_SECONDS: u64 = 5;

/// Where a tunnel is in its course.
pub enum Tunnel {
    /// The name of the destination is being resolved. The octets are for the destination.
    Resolving(Vec<u8>),
    /// The destination is being connected to.
    Connecting(Vec<u8>),
    /// The web site is being connected to. The octets are for the web site.
    ConnectingBackend(Vec<u8>),
    /// The octets are being sent.
    Sending,
    /// The tunnel stands, or has failed.
    Settled,
}

/// A [`Tunnel`] as mathematical values.
pub ghost enum TunnelView {
    Resolving(Seq<u8>),
    Connecting(Seq<u8>),
    ConnectingBackend(Seq<u8>),
    Sending,
    Settled,
}

impl View for Tunnel {
    type V = TunnelView;

    open spec fn view(&self) -> TunnelView {
        match self {
            Tunnel::Resolving(data) => TunnelView::Resolving(data@),
            Tunnel::Connecting(data) => TunnelView::Connecting(data@),
            Tunnel::ConnectingBackend(data) => TunnelView::ConnectingBackend(data@),
            Tunnel::Sending => TunnelView::Sending,
            Tunnel::Settled => TunnelView::Settled,
        }
    }
}

/// What to do next about a tunnel.
#[derive(Debug, PartialEq, Eq)]
pub enum TunnelAction {
    /// Resolve the name and port.
    Resolve { target: String, seconds: u64 },
    /// Connect to this address.
    Connect { to: SocketAddress, seconds: u64 },
    /// Connect to the web site.
    ConnectBackend { backend: String, seconds: u64 },
    /// Send these octets to the far end.
    Send(Vec<u8>),
    /// Carry octets in both directions.
    Pipe,
    /// Give up, for this reason.
    Fail(String),
}

/// A [`TunnelAction`] as mathematical values.
pub ghost enum TunnelActionView {
    Resolve { target: Seq<char>, seconds: u64 },
    Connect { to: SocketAddress, seconds: u64 },
    ConnectBackend { backend: Seq<char>, seconds: u64 },
    Send(Seq<u8>),
    Pipe,
    Fail(Seq<char>),
}

impl View for TunnelAction {
    type V = TunnelActionView;

    open spec fn view(&self) -> TunnelActionView {
        match self {
            TunnelAction::Resolve { target, seconds } => TunnelActionView::Resolve {
                target: target@,
                seconds: *seconds,
            },
            TunnelAction::Connect { to, seconds } => TunnelActionView::Connect {
                to: *to,
                seconds: *seconds,
            },
            TunnelAction::ConnectBackend { backend, seconds } => TunnelActionView::ConnectBackend {
                backend: backend@,
                seconds: *seconds,
            },
            TunnelAction::Send(data) => TunnelActionView::Send(data@),
            TunnelAction::Pipe => TunnelActionView::Pipe,
            TunnelAction::Fail(why) => TunnelActionView::Fail(why@),
        }
    }
}

/// What came of an action. A failure comes with what the system said of it.
#[derive(Debug)]
pub enum TunnelEvent {
    /// The name has these addresses.
    Resolved(Vec<SocketAddress>),
    ResolveFailed(String),
    ResolveTimedOut,
    Connected,
    ConnectFailed(String),
    ConnectTimedOut,
    Sent,
    SendFailed(String),
}

/// Whether `event` is something that can come of what a tunnel in `state` asked for.
pub open spec fn is_awaited(state: TunnelView, event: TunnelEvent) -> bool {
    match state {
        TunnelView::Resolving(_) => event is Resolved || event is ResolveFailed
            || event is ResolveTimedOut,
        TunnelView::Connecting(_) | TunnelView::ConnectingBackend(_) => event is Connected
            || event is ConnectFailed || event is ConnectTimedOut,
        TunnelView::Sending => event is Sent || event is SendFailed,
        TunnelView::Settled => false,
    }
}

/// Settles a tunnel that failed.
pub open spec fn failed(why: Seq<char>) -> (TunnelView, TunnelActionView) {
    (TunnelView::Settled, TunnelActionView::Fail(why))
}

/// What follows once the far end is connected: the octets that it gets first, if any.
pub open spec fn connected(data: Seq<u8>) -> (TunnelView, TunnelActionView) {
    if data.len() > 0 {
        (TunnelView::Sending, TunnelActionView::Send(data))
    } else {
        (TunnelView::Settled, TunnelActionView::Pipe)
    }
}

/// The text of a host and a port.
pub open spec fn target_text(addr: Seq<char>, port: u16) -> Seq<char> {
    addr + seq![':'] + text::decimal(port as nat)
}

/// The start of a tunnel to a destination. There is none to port 0.
pub open spec fn connect_start(addr: Seq<char>, port: u16, data: Seq<u8>) -> (
    TunnelView,
    TunnelActionView,
) {
    if port == 0 {
        failed("Blocked port"@)
    } else {
        (
            TunnelView::Resolving(data),
            TunnelActionView::Resolve {
                target: target_text(addr, port),
                seconds: RESOLVE_SECONDS,
            },
        )
    }
}

/// The start of a tunnel to the web site.
pub open spec fn fallback_start(backend: Seq<char>, data: Seq<u8>) -> (
    TunnelView,
    TunnelActionView,
) {
    (
        TunnelView::ConnectingBackend(data),
        TunnelActionView::ConnectBackend { backend, seconds: BACKEND_SECONDS },
    )
}

/// What follows when a name has these addresses: the first one counts, and must not lie in a
/// private range.
pub open spec fn resolved(addresses: Seq<SocketAddress>, data: Seq<u8>) -> (
    TunnelView,
    TunnelActionView,
) {
    if addresses.len() == 0 {
        failed("No addresses resolved"@)
    } else if ranges::is_private(socket::ip_of(addresses[0])) {
        failed("Blocked private address"@)
    } else {
        (
            TunnelView::Connecting(data),
            TunnelActionView::Connect { to: addresses[0], seconds: CONNECT_SECONDS },
        )
    }
}

/// Where a tunnel in `state` goes on `event`, and what to do next.
pub open spec fn tunnel_step(state: TunnelView, event: TunnelEvent) -> (
    TunnelView,
    TunnelActionView,
) {
    match (state, event) {
        (TunnelView::Resolving(data), TunnelEvent::Resolved(addresses)) => resolved(
            addresses@,
            data,
        ),
        (TunnelView::Resolving(_), TunnelEvent::ResolveFailed(why)) => failed(why@),
        (TunnelView::Resolving(_), _) => failed("DNS timeout"@),
        (TunnelView::Connecting(data), TunnelEvent::Connected) => connected(data),
        (TunnelView::Connecting(_), TunnelEvent::ConnectFailed(why)) => failed(why@),
        (TunnelView::Connecting(_), _) => failed("TCP connect timeout"@),
        (TunnelView::ConnectingBackend(data), TunnelEvent::Connected) => connected(data),
        (TunnelView::ConnectingBackend(_), TunnelEvent::ConnectFailed(why)) => failed(why@),
        (TunnelView::ConnectingBackend(_), _) => failed("Backend timeout"@),
        (_, TunnelEvent::SendFailed(why)) => failed(why@),
        _ => (TunnelView::Settled, TunnelActionView::Pipe),
    }
}

/// The text of a host and a port.
pub fn format_target(addr: &str, port: u16) -> (s: String)
    ensures
        s@ == target_text(addr@, port),
{
    let mut s = addr.to_owned();
    s.push(':');
    push_decimal(&mut s, port);
    proof {
        assert(s@ =~= target_text(addr@, port));
    }
    s
}

/// Starts a tunnel to the destination that a client asked for.
pub fn handle_tcp_connect(addr: &str, port: u16, initial_data: Vec<u8>) -> (r: (
    Tunnel,
    TunnelAction,
))
    ensures
        (r.0@, r.1@) == connect_start(addr@, port, initial_data@),
{
    if port == 0 {
        return (Tunnel::Settled, TunnelAction::Fail("Blocked port".to_owned()));
    }
    (
        Tunnel::Resolving(initial_data),
        TunnelAction::Resolve { target: format_target(addr, port), seconds: RESOLVE_SECONDS },
    )
}

/// Starts a tunnel to the web site at `backend`.
pub fn fallback_proxy(backend: &str, initial_data: Vec<u8>) -> (r: (Tunnel, TunnelAction))
    ensures
        (r.0@, r.1@) == fallback_start(backend@, initial_data@),
{
    (
        Tunnel::ConnectingBackend(initial_data),
        TunnelAction::ConnectBackend { backend: backend.to_owned(), seconds: BACKEND_SECONDS },
    )
}

fn after_resolve(addresses: Vec<SocketAddress>, data: Vec<u8>) -> (r: (Tunnel, TunnelAction))
    ensures
        (r.0@, r.1@) == resolved(addresses@, data@),
{
    if addresses.len() == 0 {
        return (Tunnel::Settled, TunnelAction::Fail("No addresses resolved".to_owned()));
    }
    let to = addresses[0];
    if is_private_address(to.ip()) {
        return (Tunnel::Settled, TunnelAction::Fail("Blocked private address".to_owned()));
    }
    (Tunnel::Connecting(data), TunnelAction::Connect { to, seconds: CONNECT_SECONDS })
}

fn after_connect(data: Vec<u8>) -> (r: (Tunnel, TunnelAction))
    ensures
        (r.0@, r.1@) == connected(data@),
{
    if data.len() > 0 {
        (Tunnel::Sending, TunnelAction::Send(data))
    } else {
        (Tunnel::Settled, TunnelAction::Pipe)
    }
}

impl Tunnel {
    /// Takes up what came of the last action, and says what to do next.
    pub fn step(self, event: TunnelEvent) -> (r: (Tunnel, TunnelAction))
        requires
            is_awaited(self@, event),
        ensures
            (r.0@, r.1@) == tunnel_step(self@, event),
    {
        match (self, event) {
            (Tunnel::Resolving(data), TunnelEvent::Resolved(addresses)) => after_resolve(
                addresses,
                data,
            ),
            (Tunnel::Resolving(_), TunnelEvent::ResolveFailed(why)) => (
                Tunnel::Settled,
                TunnelAction::Fail(why),
            ),
            (Tunnel::Resolving(_), _) => (
                Tunnel::Settled,
                TunnelAction::Fail("DNS timeout".to_owned()),
            ),
            (Tunnel::Connecting(data), TunnelEvent::Connected) => after_connect(data),
            (Tunnel::Connecting(_), TunnelEvent::ConnectFailed(why)) => (
                Tunnel::Settled,
                TunnelAction::Fail(why),
            ),
            (Tunnel::Connecting(_), _) => (
                Tunnel::Settled,
                TunnelAction::Fail("TCP connect timeout".to_owned()),
            ),
            (Tunnel::ConnectingBackend(data), TunnelEvent::Connected) => after_connect(data),
            (Tunnel::ConnectingBackend(_), TunnelEvent::ConnectFailed(why)) => (
                Tunnel::Settled,
                TunnelAction::Fail(why),
            ),
            (Tunnel::ConnectingBackend(_), _) => (
                Tunnel::Settled,
                TunnelAction::Fail("Backend timeout".to_owned()),
            ),
            (_, TunnelEvent::SendFailed(why)) => (Tunnel::Settled, TunnelAction::Fail(why)),
            _ => (Tunnel::Settled, TunnelAction::Pipe),
        }
    }
}

/// No client gets a connection to an address in a private range: a tunnel only ever connects
/// to the first address that its destination resolved to, and only where that is public.
pub proof fn law_only_public_destinations(state: TunnelView, event: TunnelEvent)
    ensures
        tunnel_step(state, event).1 matches TunnelActionView::Connect { to, .. } ==> {
            &&& !ranges::is_private(socket::ip_of(to))
            &&& event matches TunnelEvent::Resolved(addresses) && addresses@.len() > 0
                && addresses@[0] == to
        },
{
}

/// The octets that came with a request reach the far end first, whole and unchanged, before
/// anything is piped.
pub proof fn law_initial_data_goes_first(
    addr: Seq<char>,
    port: u16,
    data: Seq<u8>,
    addresses: Vec<SocketAddress>,
)
    requires
        port != 0,
        addresses@.len() > 0,
        !ranges::is_private(socket::ip_of(addresses@[0])),
    ensures
        ({
            let (resolving, _) = connect_start(addr, port, data);
            let (connecting, action) = tunnel_step(resolving, TunnelEvent::Resolved(addresses));
            let (next, first) = tunnel_step(connecting, TunnelEvent::Connected);
            &&& action == TunnelActionView::Connect {
                to: addresses@[0],
                seconds: CONNECT_SECONDS,
            }
            &&& data.len() > 0 ==> first == TunnelActionView::Send(data) && tunnel_step(
                next,
                TunnelEvent::Sent,
            ).1 == TunnelActionView::Pipe
            &&& data.len() == 0 ==> first == TunnelActionView::Pipe
        }),
{
}

/// The web site gets the octets that a client sent first, whole and unchanged, before anything
/// is piped.
pub proof fn law_web_site_gets_initial_data(backend: Seq<char>, data: Seq<u8>)
    ensures
        ({
            let (connecting, action) = fallback_start(backend, data);
            let (next, first) = tunnel_step(connecting, TunnelEvent::Connected);
            &&& action == TunnelActionView::ConnectBackend {
                backend,
                seconds: BACKEND_SECONDS,
            }
            &&& data.len() > 0 ==> first == TunnelActionView::Send(data) && tunnel_step(
                next,
                TunnelEvent::Sent,
            ).1 == TunnelActionView::Pipe
            &&& data.len() == 0 ==> first == TunnelActionView::Pipe
        }),
{
}

/// How a read failed.
#[derive(Clone, Copy, Debug, PartialEq, Eq)]
pub enum ReadFailure {
    ConnectionReset,
    BrokenPipe,
    Other,
}

/// What came of one direction of a tunnel.
#[derive(Debug)]
pub enum PipeEvent {
    /// These octets were read; none at the end of the stream.
    Read(Vec<u8>),
    /// Nothing could be read, for this reason.
    ReadFailed { kind: ReadFailure, detail: String },
    /// What was read has been written.
    Written,
    /// What was read could not be written, for this reason.
    WriteFailed(String),
}

/// What to do next about one direction of a tunnel.
#[derive(Debug, PartialEq, Eq)]
pub enum PipeAction {
    /// Read more.
    Read,
    /// Write these octets.
    Write(Vec<u8>),
    /// The direction is done.
    Finish,
    /// The direction has failed, for this reason.
    Fail(String),
}

/// A [`PipeAction`] as mathematical values.
pub ghost enum PipeActionView {
    Read,
    Write(Seq<u8>),
    Finish,
    Fail(Seq<char>),
}

impl View for PipeAction {
    type V = PipeActionView;

    open spec fn view(&self) -> PipeActionView {
        match self {
            PipeAction::Read => PipeActionView::Read,
            PipeAction::Write(data) => PipeActionView::Write(data@),
            PipeAction::Finish => PipeActionView::Finish,
            PipeAction::Fail(why) => PipeActionView::Fail(why@),
        }
    }
}

/// What to do next about one direction of a tunnel. A peer that goes away ends it like the end
/// of the stream does.
pub open spec fn pipe_step(event: PipeEvent) -> PipeActionView {
    match event {
        PipeEvent::Read(data) => if data@.len() == 0 {
            PipeActionView::Finish
        } else {
            PipeActionView::Write(data@)
        },
        PipeEvent::ReadFailed { kind, detail } => if kind is Other {
            PipeActionView::Fail(detail@)
        } else {
            PipeActionView::Finish
        },
        PipeEvent::Written => PipeActionView::Read,
        PipeEvent::WriteFailed(detail) => PipeActionView::Fail(detail@),
    }
}

/// Carries one direction of a tunnel on.
pub fn pipe_data(event: PipeEvent) -> (action: PipeAction)
    ensures
        action@ == pipe_step(event),
{
    match event {
        PipeEvent::Read(data) => if data.len() == 0 {
            PipeAction::Finish
        } else {
            PipeAction::Write(data)
        },
        PipeEvent::ReadFailed { kind, detail } => match kind {
            ReadFailure::Other => PipeAction::Fail(detail),
            _ => PipeAction::Finish,
        },
        PipeEvent::Written => PipeAction::Read,
        PipeEvent::WriteFailed(detail) => PipeAction::Fail(detail),
    }
}

/// The octets that were read in the course of `events`, one behind the other.
pub open spec fn read_octets(events: Seq<PipeEvent>) -> Seq<u8>
    decreases events.len(),
{
    if events.len() == 0 {
        seq![]
    } else {
        read_octets(events.drop_last()) + match events.last() {
            PipeEvent::Read(data) => data@,
            _ => seq![],
        }
    }
}

/// The octets that one direction of a tunnel writes in the course of `events`, one behind the
/// other.
pub open spec fn written_octets(events: Seq<PipeEvent>) -> Seq<u8>
    decreases events.len(),
{
    if events.len() == 0 {
        seq![]
    } else {
        written_octets(events.drop_last()) + match pipe_step(events.last()) {
            PipeActionView::Write(data) => data,
            _ => seq![],
        }
    }
}

/// One direction of a tunnel writes the octets that were read, all of them, in order and
/// unchanged, and no others.
pub proof fn law_pipe_carries_what_was_read(events: Seq<PipeEvent>)
    ensures
        written_octets(events) == read_octets(events),
    decreases events.len(),
{
    if events.len() > 0 {
        law_pipe_carries_what_was_read(events.drop_last());
        if let PipeEvent::Read(data) = events.last() {
            if data@.len() == 0 {
                assert(data@ =~= seq![]);
            }
        }
    }
}

} // verus!
