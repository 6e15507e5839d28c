use trojan_server::socket::SocketAddress;
use trojan_server::tunnel::{
    fallback_proxy, handle_tcp_connect, pipe_data, PipeAction, PipeEvent, ReadFailure, TunnelAction,
    TunnelEvent, DEFAULT_BACKEND,
};

fn public() -> SocketAddress {
    SocketAddress::V4 { ip: [8, 8, 8, 8], port: 443 }
}

fn private() -> SocketAddress {
    SocketAddress::V4 { ip: [127, 0, 0, 1], port: 443 }
}

fn fail(s: &str) -> TunnelAction {
    TunnelAction::Fail(s.to_string())
}

#[test]
fn a_tunnel_resolves_connects_sends_and_pipes() {
    let (t, a) = handle_tcp_connect("example.com", 443, b"hello".to_vec());
    assert_eq!(a, TunnelAction::Resolve { target: "example.com:443".to_string(), seconds: 5 });
    let (t, a) = t.step(TunnelEvent::Resolved(vec![public(), private()]));
    assert_eq!(a, TunnelAction::Connect { to: public(), seconds: 10 });
    let (t, a) = t.step(TunnelEvent::Connected);
    assert_eq!(a, TunnelAction::Send(b"hello".to_vec()));
    let (_, a) = t.step(TunnelEvent::Sent);
    assert_eq!(a, TunnelAction::Pipe);
}

#[test]
fn a_tunnel_without_octets_pipes_at_once() {
    let (t, _) = handle_tcp_connect("1.2.3.4", 65535, vec![]);
    let (t, _) = t.step(TunnelEvent::Resolved(vec![public()]));
    let (_, a) = t.step(TunnelEvent::Connected);
    assert_eq!(a, TunnelAction::Pipe);
}

#[test]
fn each_refusal_of_a_tunnel_is_given() {
    assert_eq!(handle_tcp_connect("example.com", 0, vec![]).1, fail("Blocked port"));
    let start = || handle_tcp_connect("example.com", 80, b"x".to_vec()).0;
    assert_eq!(start().step(TunnelEvent::ResolveFailed("gone".to_string())).1, fail("gone"));
    assert_eq!(start().step(TunnelEvent::ResolveTimedOut).1, fail("DNS timeout"));
    assert_eq!(start().step(TunnelEvent::Resolved(vec![])).1, fail("No addresses resolved"));
    assert_eq!(
        start().step(TunnelEvent::Resolved(vec![private(), public()])).1,
        fail("Blocked private address")
    );
    let mut loopback = [0u8; 16];
    loopback[15] = 1;
    let v6 = SocketAddress::V6 { ip: loopback, port: 80, flow_info: 0, scope_id: 0 };
    assert_eq!(start().step(TunnelEvent::Resolved(vec![v6])).1, fail("Blocked private address"));
    let connecting = || start().step(TunnelEvent::Resolved(vec![public()])).0;
    assert_eq!(connecting().step(TunnelEvent::ConnectFailed("no".to_string())).1, fail("no"));
    assert_eq!(connecting().step(TunnelEvent::ConnectTimedOut).1, fail("TCP connect timeout"));
    let sending = connecting().step(TunnelEvent::Connected).0;
    assert_eq!(sending.step(TunnelEvent::SendFailed("cut".to_string())).1, fail("cut"));
}

#[test]
fn the_web_site_gets_the_octets_first() {
    let (t, a) = fallback_proxy(DEFAULT_BACKEND, b"GET /".to_vec());
    assert_eq!(a, TunnelAction::ConnectBackend { backend: "google.com:80".to_string(), seconds: 5 });
    let (t, a) = t.step(TunnelEvent::Connected);
    assert_eq!(a, TunnelAction::Send(b"GET /".to_vec()));
    assert_eq!(t.step(TunnelEvent::Sent).1, TunnelAction::Pipe);
    let start = || fallback_proxy("127.0.0.1:80", vec![]).0;
    assert_eq!(start().step(TunnelEvent::Connected).1, TunnelAction::Pipe);
    assert_eq!(start().step(TunnelEvent::ConnectTimedOut).1, fail("Backend timeout"));
    assert_eq!(start().step(TunnelEvent::ConnectFailed("refused".to_string())).1, fail("refused"));
}

#[test]
fn one_direction_is_piped() {
    assert_eq!(pipe_data(PipeEvent::Read(b"ab".to_vec())), PipeAction::Write(b"ab".to_vec()));
    assert_eq!(pipe_data(PipeEvent::Written), PipeAction::Read);
    assert_eq!(pipe_data(PipeEvent::Read(vec![])), PipeAction::Finish);
    for kind in [ReadFailure::ConnectionReset, ReadFailure::BrokenPipe] {
        let event = PipeEvent::ReadFailed { kind, detail: "gone".to_string() };
        assert_eq!(pipe_data(event), PipeAction::Finish);
    }
    let event = PipeEvent::ReadFailed { kind: ReadFailure::Other, detail: "bad".to_string() };
    assert_eq!(pipe_data(event), PipeAction::Fail("bad".to_string()));
    assert_eq!(
        pipe_data(PipeEvent::WriteFailed("full".to_string())),
        PipeAction::Fail("full".to_string())
    );
}

#[test]
fn a_pipe_writes_what_it_read() {
    let mut source = vec![b"one".to_vec(), b"two".to_vec(), b"three".to_vec()].into_iter();
    let mut sink = Vec::new();
    let mut action = PipeAction::Read;
    loop {
        let event = match action {
            PipeAction::Read => PipeEvent::Read(source.next().unwrap_or_default()),
            PipeAction::Write(data) => {
                sink.extend(data);
                PipeEvent::Written
            }
            PipeAction::Finish => break,
            PipeAction::Fail(why) => panic!("{}", why),
        };
        action = pipe_data(event);
    }
    assert_eq!(sink, b"onetwothree");
}
