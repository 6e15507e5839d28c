//! A client's first octets: when enough of them are there, and where they lead.
//!
//! A request is the hash of the password (56 octets), CR LF, a command, a destination address,
//! its port, CR LF, and the first octets for the destination.

use vstd::prelude::*;
use vstd::slice::{slice_subrange, slice_to_vec};
use vstd::utf8;

use crate::address;
use crate::address::{parse_address, string_from_utf8};
use crate::auth::constant_time_eq;
use crate::packet;
use crate::packet::{is_crlf_at, read_u16};

verus! {

/// The length of the hash of a password.
pub const HASH_LEN: usize = 56;

/// The length of the hash and the CR LF behind it.
pub const HEADER_LEN: usize = 58;

/// How long a client may take to set up TLS.
pub const TLS_SECONDS: u64 = 10;

/// How long a client may take to send enough.
pub const HEADER_SECONDS: u64 = 60;

/// The command that asks for a TCP tunnel.
pub const COMMAND_CONNECT: u8 = 0x01;

/// The command that asks for a UDP relay.
pub const COMMAND_UDP_ASSOCIATE: u8 = 0x03;

/// Why a client is shown the web site.
#[derive(Debug, PartialEq, Eq)]
pub enum Refusal {
    /// It sent less than a header, or took too long.
    Probe,
    /// What stands in place of the hash is not text.
    InvalidEncoding,
    /// The hash is not that of the password, or CR LF does not follow it.
    InvalidPassword,
    /// Nothing follows the header.
    MissingRequest,
    /// There is no destination address, for this reason.
    InvalidAddress(String),
    /// The request ends before the port.
    MissingPort,
    /// CR LF does not follow the port.
    MissingLineBreak,
    /// The command is not one that is offered.
    UnsupportedCommand(u8),
}

/// A [`Refusal`] as mathematical values.
pub ghost enum RefusalView {
    Probe,
    InvalidEncoding,
    InvalidPassword,
    MissingRequest,
    InvalidAddress(Seq<char>),
    MissingPort,
    MissingLineBreak,
    UnsupportedCommand(u8),
}

impl View for Refusal {
    type V = RefusalView;

    open spec fn view(&self) -> RefusalView {
        match self {
            Refusal::Probe => RefusalView::Probe,
            Refusal::InvalidEncoding => RefusalView::InvalidEncoding,
            Refusal::InvalidPassword => RefusalView::InvalidPassword,
            Refusal::MissingRequest => RefusalView::MissingRequest,
            Refusal::InvalidAddress(why) => RefusalView::InvalidAddress(why@),
            Refusal::MissingPort => RefusalView::MissingPort,
            Refusal::MissingLineBreak => RefusalView::MissingLineBreak,
            Refusal::UnsupportedCommand(command) => RefusalView::UnsupportedCommand(*command),
        }
    }
}

/// Where a client is led.
#[derive(Debug, PartialEq, Eq)]
pub enum Route {
    /// To the web site that the server pretends to be, which is sent these octets first.
    Fallback { data: Vec<u8>, reason: Refusal },
    /// To a destination over TCP, which is sent the payload first.
    TcpConnect { addr: String, port: u16, payload: Vec<u8> },
    /// To a UDP relay, whose stream starts with the payload.
    UdpAssociate { payload: Vec<u8> },
}

/// A [`Route`] as mathematical values.
pub ghost enum RouteView {
    Fallback { data: Seq<u8>, reason: RefusalView },
    TcpConnect { addr: Seq<char>, port: u16, payload: Seq<u8> },
    UdpAssociate { payload: Seq<u8> },
}

impl View for Route {
    type V = RouteView;

    open spec fn view(&self) -> RouteView {
        match self {
            Route::Fallback { data, reason } => RouteView::Fallback {
                data: data@,
                reason: reason@,
            },
            Route::TcpConnect { addr, port, payload } => RouteView::TcpConnect {
                addr: addr@,
                port: *port,
                payload: payload@,
            },
            Route::UdpAssociate { payload } => RouteView::UdpAssociate { payload: payload@ },
        }
    }
}

/// Whether `data` starts with the hash and CR LF.
pub open spec fn is_authentic(data: Seq<u8>, hash: Seq<char>) -> bool {
    data.len() >= HEADER_LEN && data.take(HASH_LEN as int) == utf8::encode_utf8(hash)
        && packet::has_crlf_at(data, HASH_LEN as int)
}

/// Where the part of a request behind the header leads. A part that is not a whole request, or
/// asks for what is not offered, leads to the web site, which gets that part.
pub open spec fn requested(request: Seq<u8>) -> RouteView {
    let (address, at) = address::address_at(request, 1);
    if request.len() == 0 {
        RouteView::Fallback { data: request, reason: RefusalView::MissingRequest }
    } else if let Err(why) = address {
        RouteView::Fallback { data: request, reason: RefusalView::InvalidAddress(why) }
    } else if request.len() < at + 2 {
        RouteView::Fallback { data: request, reason: RefusalView::MissingPort }
    } else if !packet::has_crlf_at(request, at + 2) {
        RouteView::Fallback { data: request, reason: RefusalView::MissingLineBreak }
    } else if request[0] == COMMAND_CONNECT {
        RouteView::TcpConnect {
            addr: address->Ok_0,
            port: packet::u16_at(request, at),
            payload: request.skip(at + 4),
        }
    } else if request[0] == COMMAND_UDP_ASSOCIATE {
        RouteView::UdpAssociate { payload: request.skip(at + 4) }
    } else {
        RouteView::Fallback { data: request, reason: RefusalView::UnsupportedCommand(request[0]) }
    }
}

/// Why a client that sent `data` does not get past the header.
pub open spec fn header_refusal(data: Seq<u8>, timed_out: bool) -> RefusalView {
    if timed_out || data.len() < HEADER_LEN {
        RefusalView::Probe
    } else if !utf8::valid_utf8(data.take(HASH_LEN as int)) {
        RefusalView::InvalidEncoding
    } else {
        RefusalView::InvalidPassword
    }
}

/// Where a client leads that sent `data`. One that does not know the password, or took too
/// long, leads to the web site, which gets all that the client sent.
pub open spec fn route_of(data: Seq<u8>, hash: Seq<char>, timed_out: bool) -> RouteView {
    if timed_out || !is_authentic(data, hash) {
        RouteView::Fallback { data, reason: header_refusal(data, timed_out) }
    } else {
        requested(data.skip(HEADER_LEN as int))
    }
}

fn refuse(request: &[u8], reason: Refusal) -> (route: Route)
    ensures
        route@ == (RouteView::Fallback { data: request@, reason: reason@ }),
{
    Route::Fallback { data: slice_to_vec(request), reason }
}

fn route_request(request: &[u8]) -> (route: Route)
    ensures
        route@ == requested(request@),
{
    let count = request.len();
    if count == 0 {
        return refuse(request, Refusal::MissingRequest);
    }
    let command = request[0];
    let mut cursor: usize = 1;
    let addr = match parse_address(request, &mut cursor) {
        Ok(addr) => addr,
        Err(why) => {
            return refuse(request, Refusal::InvalidAddress(why));
        },
    };
    if count - cursor < 2 {
        return refuse(request, Refusal::MissingPort);
    }
    let port = read_u16(request, cursor);
    cursor += 2;
    if !is_crlf_at(request, cursor) {
        return refuse(request, Refusal::MissingLineBreak);
    }
    cursor += 2;
    let payload = slice_to_vec(slice_subrange(request, cursor, count));
    proof {
        assert(payload@ =~= request@.skip(cursor as int));
    }
    if command == COMMAND_CONNECT {
        Route::TcpConnect { addr, port, payload }
    } else if command == COMMAND_UDP_ASSOCIATE {
        Route::UdpAssociate { payload }
    } else {
        refuse(request, Refusal::UnsupportedCommand(command))
    }
}

/// Decides where a client leads that sent `data`.
pub fn route(data: Vec<u8>, expected_hash: &str, timed_out: bool) -> (r: Route)
    ensures
        r@ == route_of(data@, expected_hash@, timed_out),
{
    if timed_out || data.len() < HEADER_LEN {
        return Route::Fallback { data, reason: Refusal::Probe };
    }
    let received = slice_subrange(data.as_slice(), 0, HASH_LEN);
    proof {
        assert(received@ =~= data@.take(HASH_LEN as int));
        utf8::encode_utf8_valid_utf8(expected_hash@);
    }
    if string_from_utf8(slice_to_vec(received)).is_err() {
        return Route::Fallback { data, reason: Refusal::InvalidEncoding };
    }
    if !constant_time_eq(received, expected_hash.as_bytes()) || !is_crlf_at(
        data.as_slice(),
        HASH_LEN,
    ) {
        return Route::Fallback { data, reason: Refusal::InvalidPassword };
    }
    let request = slice_subrange(data.as_slice(), HEADER_LEN, data.len());
    proof {
        assert(request@ =~= data@.skip(HEADER_LEN as int));
    }
    route_request(request)
}

/// Whether an empty line, the end of an HTTP header, stands at `at`.
pub open spec fn is_blank_line_at(data: Seq<u8>, at: int) -> bool {
    packet::has_crlf_at(data, at) && packet::has_crlf_at(data, at + 2)
}

/// Whether a client has sent enough to decide where it leads: a whole header, or the end of an
/// HTTP header.
pub open spec fn is_enough(data: Seq<u8>) -> bool {
    data.len() >= HEADER_LEN || exists|at: int| is_blank_line_at(data, at)
}

fn has_enough(data: &Vec<u8>) -> (b: bool)
    ensures
        b == is_enough(data@),
{
    if data.len() >= HEADER_LEN {
        return true;
    }
    let mut at: usize = 0;
    while at < data.len()
        invariant
            at <= data@.len() < HEADER_LEN,
            forall|k: int| 0 <= k < at ==> !#[trigger] is_blank_line_at(data@, k),
        decreases data@.len() - at,
    {
        if is_crlf_at(data.as_slice(), at) && is_crlf_at(data.as_slice(), at + 2) {
            proof {
                assert(is_blank_line_at(data@, at as int));
            }
            return true;
        }
        at += 1;
    }
    false
}

/// What a client has sent so far, while it is not enough.
pub struct Handshake {
    buffer: Vec<u8>,
}

impl View for Handshake {
    type V = Seq<u8>;

    closed spec fn view(&self) -> Seq<u8> {
        self.buffer@
    }
}

impl Handshake {
    /// A client that has sent nothing yet.
    pub fn new() -> (handshake: Handshake)
        ensures
            handshake@ == Seq::<u8>::empty(),
    {
        Handshake { buffer: Vec::new() }
    }
}

/// What came of setting up TLS with a client.
#[derive(Debug)]
pub enum TlsEvent {
    Accepted,
    /// TLS could not be set up, for this reason.
    Failed(String),
    TimedOut,
}

/// Starts to wait for a client's first octets, once TLS is set up, or says why it is not.
pub fn begin_client(event: TlsEvent) -> (r: Result<Handshake, String>)
    ensures
        match event {
            TlsEvent::Accepted => r matches Ok(handshake) && handshake@ == Seq::<u8>::empty(),
            TlsEvent::Failed(why) => r matches Err(said) && said@ == why@,
            TlsEvent::TimedOut => r matches Err(said) && said@ == "TLS handshake timeout"@,
        },
{
    match event {
        TlsEvent::Accepted => Ok(Handshake::new()),
        TlsEvent::Failed(why) => Err(why),
        TlsEvent::TimedOut => Err("TLS handshake timeout".to_owned()),
    }
}

/// What came of waiting for a client.
#[derive(Debug)]
pub enum ClientEvent {
    /// These octets, or, where there are none, the end of its stream.
    Data(Vec<u8>),
    /// A failure to read.
    ReadFailed,
    /// Nothing, until the time was up.
    TimedOut,
}

/// What to do about a client.
pub enum ClientStep {
    /// Wait for more of it.
    More(Handshake),
    /// Lead it there.
    Lead(Route),
}

/// A [`ClientStep`] as mathematical values.
pub ghost enum ClientStepView {
    More(Seq<u8>),
    Lead(RouteView),
}

impl View for ClientStep {
    type V = ClientStepView;

    open spec fn view(&self) -> ClientStepView {
        match self {
            ClientStep::More(handshake) => ClientStepView::More(handshake@),
            ClientStep::Lead(route) => ClientStepView::Lead(route@),
        }
    }
}

/// What to do about a client that had sent `sent` when `event` came.
pub open spec fn client_step(sent: Seq<u8>, event: ClientEvent, hash: Seq<char>) -> ClientStepView {
    match event {
        ClientEvent::Data(data) => if data@.len() > 0 && !is_enough(sent + data@) {
            ClientStepView::More(sent + data@)
        } else {
            ClientStepView::Lead(route_of(sent + data@, hash, false))
        },
        ClientEvent::ReadFailed => ClientStepView::Lead(route_of(sent, hash, false)),
        ClientEvent::TimedOut => ClientStepView::Lead(route_of(sent, hash, true)),
    }
}

/// Takes up what came of waiting for a client, and says whether to wait for more or where to
/// lead it.
pub fn handle_client(handshake: Handshake, event: ClientEvent, expected_hash: &str) -> (step:
    ClientStep)
    ensures
        step@ == client_step(handshake@, event, expected_hash@),
        step matches ClientStep::More(next) ==> !is_enough(next@),
{
    let mut buffer = handshake.buffer;
    match event {
        ClientEvent::Data(data) => {
            let ghost sent = buffer@;
            buffer.extend_from_slice(data.as_slice());
            proof {
                assert(buffer@ =~= sent + data@);
            }
            if data.len() > 0 && !has_enough(&buffer) {
                ClientStep::More(Handshake { buffer })
            } else {
                ClientStep::Lead(route(buffer, expected_hash, false))
            }
        },
        ClientEvent::ReadFailed => ClientStep::Lead(route(buffer, expected_hash, false)),
        ClientEvent::TimedOut => ClientStep::Lead(route(buffer, expected_hash, true)),
    }
}

/// A client that does not send the hash of the password, with CR LF behind it, leads to the web
/// site, which gets every octet that the client sent.
pub proof fn law_stranger_sees_web_site(data: Seq<u8>, hash: Seq<char>, timed_out: bool)
    requires
        !is_authentic(data, hash),
    ensures
        route_of(data, hash, timed_out) matches RouteView::Fallback { data: given, .. } && given
            == data,
{
}

/// The web site never gets the hash of the password: where a client that sent it leads there
/// after all, the header is taken off.
pub proof fn law_hash_is_not_leaked(data: Seq<u8>, hash: Seq<char>)
    requires
        is_authentic(data, hash),
    ensures
        route_of(data, hash, false) matches RouteView::Fallback { data: given, .. } ==> data
            == data.take(HEADER_LEN as int) + given,
{
    assert(data =~= data.take(HEADER_LEN as int) + data.skip(HEADER_LEN as int));
}

/// The same at every step of a handshake: whatever comes while a client has not sent enough
/// yet, the web site does not get the hash of the password.
pub proof fn law_handshake_keeps_hash(sent: Seq<u8>, event: ClientEvent, hash: Seq<char>)
    requires
        !is_enough(sent),
    ensures
        client_step(sent, event, hash) matches ClientStepView::Lead(
            RouteView::Fallback { data: given, .. },
        ) ==> ({
            let all = match event {
                ClientEvent::Data(data) => sent + data@,
                _ => sent,
            };
            given == if is_authentic(all, hash) {
                all.skip(HEADER_LEN as int)
            } else {
                all
            }
        }),
{
}

/// Nobody gets past the header without the hash of the password.
pub proof fn law_only_the_password_opens(data: Seq<u8>, hash: Seq<char>, timed_out: bool)
    ensures
        !(route_of(data, hash, timed_out) is Fallback) ==> data.take(HASH_LEN as int)
            == utf8::encode_utf8(hash) && !timed_out,
{
}

/// The octets of a request: `wire` is the destination address as it stands on the wire.
pub open spec fn request_octets(
    hash: Seq<char>,
    command: u8,
    wire: Seq<u8>,
    port: u16,
    payload: Seq<u8>,
) -> Seq<u8> {
    utf8::encode_utf8(hash) + seq![13u8, 10u8] + (seq![command] + wire + (packet::be_octets(port)
        + seq![13u8, 10u8] + payload))
}

/// A client that sends the right hash and a whole request is led where it asks to be led, with
/// the payload that it sent.
#[verifier::spinoff_prover]
#[verifier::rlimit(40)]
pub proof fn law_request_is_served(
    hash: Seq<char>,
    command: u8,
    wire: Seq<u8>,
    port: u16,
    payload: Seq<u8>,
)
    requires
        utf8::encode_utf8(hash).len() == HASH_LEN,
        address::address_at(wire, 0).0 is Ok,
        address::address_at(wire, 0).1 == wire.len(),
    ensures
        ({
            let route = route_of(request_octets(hash, command, wire, port, payload), hash, false);
            &&& command == COMMAND_CONNECT ==> route == RouteView::TcpConnect {
                addr: address::address_at(wire, 0).0->Ok_0,
                port,
                payload,
            }
            &&& command == COMMAND_UDP_ASSOCIATE ==> route == RouteView::UdpAssociate { payload }
        }),
{
    let data = request_octets(hash, command, wire, port, payload);
    let after = packet::be_octets(port) + seq![13u8, 10u8] + payload;
    let request = seq![command] + wire + after;
    assert(data.take(HASH_LEN as int) =~= utf8::encode_utf8(hash));
    assert(data[56] == 13 && data[57] == 10);
    assert(data.skip(HEADER_LEN as int) =~= request);
    address::law_address_stands_alone(seq![command], wire, 0, after);
    let at = 1 + wire.len() as int;
    assert(request[0] == command);
    assert(request[at] == after[0]);
    assert(request[at + 1] == after[1]);
    assert(request[at + 2] == after[2]);
    assert(request[at + 3] == after[3]);
    assert(request.skip(at + 4) =~= payload);
}

/// A client whose request is whole once `data` has come behind what it had sent before is led
/// where it asks to be led.
pub proof fn law_handshake_serves_request(
    sent: Seq<u8>,
    data: Vec<u8>,
    hash: Seq<char>,
    command: u8,
    wire: Seq<u8>,
    port: u16,
    payload: Seq<u8>,
)
    requires
        sent + data@ == request_octets(hash, command, wire, port, payload),
        utf8::encode_utf8(hash).len() == HASH_LEN,
        address::address_at(wire, 0).0 is Ok,
        address::address_at(wire, 0).1 == wire.len(),
    ensures
        ({
            let step = client_step(sent, ClientEvent::Data(data), hash);
            &&& command == COMMAND_CONNECT ==> step == ClientStepView::Lead(
                RouteView::TcpConnect {
                    addr: address::address_at(wire, 0).0->Ok_0,
                    port,
                    payload,
                },
            )
            &&& command == COMMAND_UDP_ASSOCIATE ==> step == ClientStepView::Lead(
                RouteView::UdpAssociate { payload },
            )
        }),
{
    law_request_is_served(hash, command, wire, port, payload);
}

/// What a client has sent in a number of reads.
pub open spec fn joined(reads: Seq<Vec<u8>>) -> Seq<u8>
    decreases reads.len(),
{
    if reads.len() == 0 {
        seq![]
    } else {
        joined(reads.drop_last()) + reads.last()@
    }
}

/// What a handshake comes to over a number of reads.
pub open spec fn handshake_over(reads: Seq<Vec<u8>>, hash: Seq<char>) -> ClientStepView
    decreases reads.len(),
{
    if reads.len() == 0 {
        ClientStepView::More(seq![])
    } else {
        match handshake_over(reads.drop_last(), hash) {
            ClientStepView::More(sent) => client_step(sent, ClientEvent::Data(reads.last()), hash),
            ClientStepView::Lead(route) => ClientStepView::Lead(route),
        }
    }
}

/// What is enough stays enough.
proof fn lemma_enough_extends(data: Seq<u8>, more: Seq<u8>)
    requires
        is_enough(data),
    ensures
        is_enough(data + more),
{
    if data.len() < HEADER_LEN {
        let at = choose|at: int| is_blank_line_at(data, at);
        assert(is_blank_line_at(data + more, at));
    }
}

/// How a client's first octets are cut into reads does not matter. As long as they are not
/// enough, they are kept, all of them and in order; the read that makes them enough, or the end
/// of the stream, leads where all the octets together lead.
pub proof fn law_handshake_joins_reads(reads: Seq<Vec<u8>>, last: Vec<u8>, hash: Seq<char>)
    requires
        forall|i: int| 0 <= i < reads.len() ==> (#[trigger] reads[i])@.len() > 0,
        !is_enough(joined(reads)),
    ensures
        handshake_over(reads, hash) == ClientStepView::More(joined(reads)),
        handshake_over(reads.push(last), hash) == if last@.len() > 0 && !is_enough(
            joined(reads.push(last)),
        ) {
            ClientStepView::More(joined(reads.push(last)))
        } else {
            ClientStepView::Lead(route_of(joined(reads.push(last)), hash, false))
        },
    decreases reads.len(),
{
    if reads.len() > 0 {
        let before = reads.drop_last();
        if is_enough(joined(before)) {
            lemma_enough_extends(joined(before), reads.last()@);
        }
        assert forall|i: int| 0 <= i < before.len() implies (#[trigger] before[i])@.len() > 0 by {
            assert(before[i] == reads[i]);
        }
        law_handshake_joins_reads(before, reads.last(), hash);
        assert(before.push(reads.last()) =~= reads);
        assert(reads[reads.len() - 1]@.len() > 0);
    }
    assert(reads.push(last).drop_last() =~= reads);
}

} // verus!
