//! What holds of clients: which of their octets open the server, when enough of them are there,
//! and where they lead.

use vstd::prelude::*;
use vstd::utf8;

use crate::address_laws::Destination;
use crate::request::{ClientEvent, ClientStepView, RefusalView, Route, RouteView};
use crate::{address, address_laws, request};

verus! {

/// A client is let in for the octets of the hash, 56 of them, with CR LF behind them, whatever
/// follows; and for nothing else.
pub proof fn law_header_opens(data: Seq<u8>, hash: Seq<char>, rest: Seq<u8>)
    ensures
        utf8::encode_utf8(hash).len() == 56 ==> request::is_authentic(
            utf8::encode_utf8(hash) + seq![13u8, 10u8] + rest,
            hash,
        ),
        request::is_authentic(data, hash) ==> utf8::encode_utf8(hash).len() == 56 && data.len() >= 58
            && data == utf8::encode_utf8(hash) + seq![13u8, 10u8] + data.skip(58),
{
    let header = utf8::encode_utf8(hash) + seq![13u8, 10u8];
    if utf8::encode_utf8(hash).len() == 56 {
        let whole = header + rest;
        assert(whole.take(56) =~= utf8::encode_utf8(hash));
        assert(whole[56] == 13 && whole[57] == 10);
    }
    if request::is_authentic(data, hash) {
        assert(data.take(56).len() == 56);
        assert(data =~= header + data.skip(58));
    }
}

/// What a client sends to be let in: the hash and CR LF, and then `rest`.
pub open spec fn opened_with(hash: Seq<char>, rest: Seq<u8>) -> Seq<u8> {
    utf8::encode_utf8(hash) + seq![13u8, 10u8] + rest
}

/// Once a client is let in, only what follows the header counts.
pub proof fn law_header_is_taken_off(hash: Seq<char>, rest: Seq<u8>)
    requires
        utf8::encode_utf8(hash).len() == 56,
    ensures
        request::route_of(opened_with(hash, rest), hash, false) == request::requested(rest),
{
    law_header_opens(seq![], hash, rest);
    assert(opened_with(hash, rest).skip(58) =~= rest);
}

/// Every whole request is served, for every destination and port: a tunnel to the destination,
/// or a relay, with the payload that came with it. Any other command leads to the web site,
/// which gets the request without the header.
pub proof fn law_request_for_destination(
    hash: Seq<char>,
    command: u8,
    d: Destination,
    port: u16,
    payload: Seq<u8>,
)
    requires
        utf8::encode_utf8(hash).len() == 56,
        address_laws::is_destination(d),
    ensures
        ({
            let rest = seq![command] + address_laws::wire_of(d) + seq![
                (port / 256) as u8,
                (port % 256) as u8,
                13u8,
                10u8,
            ] + payload;
            request::route_of(opened_with(hash, rest), hash, false) == if command == 1 {
                RouteView::TcpConnect { addr: address_laws::text_of(d), port, payload }
            } else if command == 3 {
                RouteView::UdpAssociate { payload }
            } else {
                RouteView::Fallback {
                    data: rest,
                    reason: RefusalView::UnsupportedCommand(command),
                }
            }
        }),
{
    let wire = address_laws::wire_of(d);
    let tail = seq![(port / 256) as u8, (port % 256) as u8, 13u8, 10u8];
    let rest = seq![command] + wire + tail + payload;
    law_header_is_taken_off(hash, rest);
    address_laws::law_destination_is_read(seq![command], d, tail + payload);
    assert(seq![command] + wire + (tail + payload) =~= rest);
    let at = 1 + wire.len() as int;
    assert(rest[0] == command);
    assert(rest[at] == tail[0] && rest[at + 1] == tail[1]);
    assert(rest[at + 2] == 13 && rest[at + 3] == 10);
    assert(rest.skip(at + 4) =~= payload);
}

/// A request that is not whole leads to the web site, which gets it without the header: one
/// that is empty, one whose address cannot be read, one that ends before the port, and one
/// without CR LF behind the port.
pub proof fn law_broken_requests_are_refused(
    hash: Seq<char>,
    command: u8,
    d: Destination,
    octets: Seq<u8>,
    tail: Seq<u8>,
)
    requires
        utf8::encode_utf8(hash).len() == 56,
        address_laws::is_destination(d),
    ensures
        request::route_of(opened_with(hash, seq![]), hash, false) == (RouteView::Fallback {
            data: seq![],
            reason: RefusalView::MissingRequest,
        }),
        address::address_at(seq![command] + octets, 1).0 matches Err(why)
            ==> request::route_of(opened_with(hash, seq![command] + octets), hash, false) == (
        RouteView::Fallback {
            data: seq![command] + octets,
            reason: RefusalView::InvalidAddress(why),
        }),
        tail.len() < 2 ==> request::route_of(
            opened_with(hash, seq![command] + address_laws::wire_of(d) + tail),
            hash,
            false,
        ) == (RouteView::Fallback {
            data: seq![command] + address_laws::wire_of(d) + tail,
            reason: RefusalView::MissingPort,
        }),
        tail.len() >= 2 && !(tail.len() >= 4 && tail[2] == 13 && tail[3] == 10)
            ==> request::route_of(
            opened_with(hash, seq![command] + address_laws::wire_of(d) + tail),
            hash,
            false,
        ) == (RouteView::Fallback {
            data: seq![command] + address_laws::wire_of(d) + tail,
            reason: RefusalView::MissingLineBreak,
        }),
{
    let rest = seq![command] + address_laws::wire_of(d) + tail;
    law_header_is_taken_off(hash, seq![]);
    law_header_is_taken_off(hash, seq![command] + octets);
    law_header_is_taken_off(hash, rest);
    address_laws::law_destination_is_read(seq![command], d, tail);
    let at = 1 + address_laws::wire_of(d).len() as int;
    if tail.len() >= 4 {
        assert(rest[at + 2] == tail[2] && rest[at + 3] == tail[3]);
    }
}

/// A client that is not let in leads to the web site, with all its octets: one that sent less
/// than a header or took too long, one whose first 56 octets are not text, and one whose are
/// not the hash with CR LF behind it.
pub proof fn law_strangers_are_refused(data: Seq<u8>, hash: Seq<char>, timed_out: bool)
    ensures
        timed_out || data.len() < 58 ==> request::route_of(data, hash, timed_out) == (
        RouteView::Fallback { data, reason: RefusalView::Probe }),
        !timed_out && data.len() >= 58 && !utf8::valid_utf8(data.take(56)) ==> request::route_of(
            data,
            hash,
            timed_out,
        ) == (RouteView::Fallback { data, reason: RefusalView::InvalidEncoding }),
        !timed_out && data.len() >= 58 && utf8::valid_utf8(data.take(56)) && !(data.take(56)
            == utf8::encode_utf8(hash) && data[56] == 13 && data[57] == 10) ==> request::route_of(
            data,
            hash,
            timed_out,
        ) == (RouteView::Fallback { data, reason: RefusalView::InvalidPassword }),
{
    utf8::encode_utf8_valid_utf8(hash);
}

/// A client that has sent 58 octets, or CR LF CR LF anywhere among them, is not waited for any
/// longer.
pub proof fn law_enough_is_enough(
    sent: Seq<u8>,
    data: Vec<u8>,
    before: Seq<u8>,
    after: Seq<u8>,
    hash: Seq<char>,
)
    ensures
        (sent + data@).len() >= 58 ==> request::client_step(
            sent,
            ClientEvent::Data(data),
            hash,
        ) == ClientStepView::Lead(request::route_of(sent + data@, hash, false)),
        sent + data@ == before + seq![13u8, 10, 13, 10] + after ==> request::client_step(
            sent,
            ClientEvent::Data(data),
            hash,
        ) == ClientStepView::Lead(request::route_of(sent + data@, hash, false)),
{
    let all = sent + data@;
    if all == before + seq![13u8, 10, 13, 10] + after {
        let at = before.len() as int;
        assert(all[at] == 13 && all[at + 1] == 10 && all[at + 2] == 13 && all[at + 3] == 10);
        assert(request::is_blank_line_at(all, at));
    }
}

/// A client that has sent less than 58 octets, and nowhere CR LF CR LF among them, is waited for,
/// and nothing of what it sent is lost.
pub proof fn law_too_little_is_kept(sent: Seq<u8>, data: Vec<u8>, hash: Seq<char>)
    requires
        data@.len() > 0,
        (sent + data@).len() < 58,
        forall|i: int|
            0 <= i && i + 4 <= (sent + data@).len() ==> #[trigger] (sent + data@).subrange(i, i + 4)
                != seq![13u8, 10, 13, 10],
    ensures
        request::client_step(sent, ClientEvent::Data(data), hash) == ClientStepView::More(
            sent + data@,
        ),
{
    let all = sent + data@;
    if request::is_enough(all) {
        let at = choose|at: int| request::is_blank_line_at(all, at);
        assert(all.subrange(at, at + 4) =~= seq![13u8, 10, 13, 10]);
    }
}

/// A client that ends its stream, cannot be read any more or takes too long is not waited for
/// either.
pub proof fn law_gone_clients_are_led(sent: Seq<u8>, data: Vec<u8>, hash: Seq<char>)
    ensures
        data@.len() == 0 ==> request::client_step(sent, ClientEvent::Data(data), hash)
            == ClientStepView::Lead(request::route_of(sent, hash, false)),
        request::client_step(sent, ClientEvent::ReadFailed, hash) == ClientStepView::Lead(
            request::route_of(sent, hash, false),
        ),
        request::client_step(sent, ClientEvent::TimedOut, hash) == ClientStepView::Lead(
            RouteView::Fallback { data: sent, reason: RefusalView::Probe },
        ),
{
    if data@.len() == 0 {
        assert(sent + data@ =~= sent);
    }
}

/// A route as mathematical values is that route.
pub proof fn law_route_is_viewed(route: Route)
    ensures
        match route {
            Route::Fallback { data, reason } => route@ == (RouteView::Fallback {
                data: data@,
                reason: reason@,
            }),
            Route::TcpConnect { addr, port, payload } => route@ == (RouteView::TcpConnect {
                addr: addr@,
                port,
                payload: payload@,
            }),
            Route::UdpAssociate { payload } => route@ == (RouteView::UdpAssociate {
                payload: payload@,
            }),
        },
{
}

/// A reason as mathematical values is that reason.
pub proof fn law_refusal_is_viewed(reason: request::Refusal)
    ensures
        reason is Probe <==> reason@ is Probe,
        reason is InvalidEncoding <==> reason@ is InvalidEncoding,
        reason is InvalidPassword <==> reason@ is InvalidPassword,
        reason is MissingRequest <==> reason@ is MissingRequest,
        reason is MissingPort <==> reason@ is MissingPort,
        reason is MissingLineBreak <==> reason@ is MissingLineBreak,
        reason matches request::Refusal::InvalidAddress(why) ==> reason@
            == RefusalView::InvalidAddress(why@),
        reason matches request::Refusal::UnsupportedCommand(command) ==> reason@
            == RefusalView::UnsupportedCommand(command),
{
}

/// What to do about a client, as mathematical values, is what to do about it.
pub proof fn law_step_is_viewed(step: request::ClientStep)
    ensures
        match step {
            request::ClientStep::More(handshake) => step@ == ClientStepView::More(handshake@),
            request::ClientStep::Lead(route) => step@ == ClientStepView::Lead(route@),
        },
{
}

/// A client has ten seconds for TLS, and then a minute for its first octets.
pub proof fn law_time_limits()
    ensures
        request::TLS_SECONDS == 10,
        request::HEADER_SECONDS == 60,
{
}

} // verus!
