use trojan_server::packet::{encode_udp_response, parse_udp_packet};
use trojan_server::session::{handle_udp_associate, UdpAction, UdpEvent, UdpSession};
use trojan_server::socket::{PeerSet, SocketAddress};

fn peer(last: u8) -> SocketAddress {
    SocketAddress::V4 { ip: [9, 9, 9, last], port: 53 }
}

fn udp(host: u8, payload: &[u8]) -> Vec<u8> {
    let addr = format!("9.9.9.{}", host);
    encode_udp_response(&addr, 53, payload).unwrap()
}

fn resolve(host: u8) -> UdpAction {
    UdpAction::Resolve { target: format!("9.9.9.{}:53", host) }
}

fn send(session: UdpSession, host: u8, payload: &[u8]) -> (UdpSession, UdpAction) {
    let (s, a) = session.step(UdpEvent::Resolved(vec![peer(host), peer(99)]));
    assert_eq!(a, UdpAction::SendTo { payload: payload.to_vec(), to: peer(host) });
    s.step(UdpEvent::SendDone)
}

#[test]
fn every_packet_is_forwarded_in_order() {
    let (s, a) = handle_udp_associate(vec![]);
    assert_eq!(a, UdpAction::Wait);
    let mut stream = udp(1, b"one");
    stream.extend(udp(2, b"two"));
    stream.extend(udp(3, b"three"));
    stream.extend_from_slice(&udp(4, b"four")[..5]);
    let (s, a) = s.step(UdpEvent::ClientData(stream));
    assert_eq!(a, resolve(1));
    let (s, a) = send(s, 1, b"one");
    assert_eq!(a, resolve(2));
    let (s, a) = s.step(UdpEvent::Resolved(vec![]));
    assert_eq!(a, resolve(3));
    let (s, a) = send(s, 3, b"three");
    assert_eq!(a, UdpAction::Wait);
    let (s, a) = s.step(UdpEvent::ClientData(udp(4, b"four")[5..].to_vec()));
    assert_eq!(a, resolve(4));
    let (_, a) = send(s, 4, b"four");
    assert_eq!(a, UdpAction::Wait);
}

#[test]
fn a_packet_that_came_with_the_request_goes_out_at_once() {
    let (s, a) = handle_udp_associate(udp(1, b"early"));
    assert_eq!(a, resolve(1));
    let (s, a) = send(s, 1, b"early");
    assert_eq!(a, UdpAction::Wait);
    let (s, a) = s.step(UdpEvent::ClientData(udp(2, b"late")));
    assert_eq!(a, resolve(2));
    let (_, a) = send(s, 2, b"late");
    assert_eq!(a, UdpAction::Wait);
}

/// Runs a session over the reads, with a datagram from a stranger and one from a peer behind
/// each, and returns what it sends.
fn run(initial: &[u8], reads: &[&[u8]]) -> Vec<(Vec<u8>, SocketAddress)> {
    let mut sent = Vec::new();
    let mut queue = Vec::new();
    for read in reads {
        queue.push(UdpEvent::ClientData(read.to_vec()));
        queue.push(UdpEvent::Datagram { from: peer(99), payload: b"spam".to_vec() });
        queue.push(UdpEvent::Datagram { from: peer(1), payload: b"answer".to_vec() });
    }
    queue.reverse();
    let (mut session, mut action) = handle_udp_associate(initial.to_vec());
    loop {
        let event = match action {
            UdpAction::Wait | UdpAction::WaitMalformed | UdpAction::Ignore { .. } => match queue.pop() {
                Some(event) => event,
                None => return sent,
            },
            UdpAction::Resolve { target } => {
                let host: u8 = target["9.9.9.".len()..target.len() - ":53".len()].parse().unwrap();
                UdpEvent::Resolved(if host == 2 { vec![] } else { vec![peer(host)] })
            }
            UdpAction::SendTo { payload, to } => {
                sent.push((payload, to));
                UdpEvent::SendDone
            }
            UdpAction::Reply(data) => {
                assert_eq!(data, udp(1, b"answer"));
                UdpEvent::ReplyDone { written: true }
            }
            UdpAction::Close => return sent,
        };
        (session, action) = session.step(event);
    }
}

#[test]
fn a_stream_may_be_cut_anywhere() {
    let mut stream = Vec::new();
    for (host, payload, trailer) in [
        (1u8, &b"one"[..], &b"\r\n"[..]),
        (2, b"two\r\n", b"\r\n"),
        (3, b"", b""),
        (4, b"\r\nfour\r", b"\r\n"),
        (5, b"five", b""),
    ] {
        stream.extend(udp(host, payload));
        stream.extend_from_slice(trailer);
    }
    let expected = vec![
        (b"one".to_vec(), peer(1)),
        (b"".to_vec(), peer(3)),
        (b"\r\nfour\r".to_vec(), peer(4)),
        (b"five".to_vec(), peer(5)),
    ];
    assert_eq!(run(&stream, &[]), expected);
    assert_eq!(run(b"", &[&stream]), expected);
    for i in 0..stream.len() {
        assert_eq!(run(&stream[..i], &[&stream[i..]]), expected, "{}", i);
        for j in i + 1..stream.len() {
            let reads = [&stream[i..j], &stream[j..]];
            assert_eq!(run(&stream[..i], &reads), expected, "{} {}", i, j);
        }
    }
    let octets: Vec<&[u8]> = stream.chunks(1).collect();
    assert_eq!(run(b"", &octets), expected);
}

#[test]
fn only_one_line_break_belongs_to_a_packet() {
    let mut stream = udp(1, b"one");
    stream.extend_from_slice(b"\r\n\r\n");
    stream.extend(udp(3, b"three"));
    for i in 0..stream.len() {
        assert_eq!(run(&stream[..i], &[&stream[i..]]), vec![(b"one".to_vec(), peer(1))]);
    }
}

#[test]
fn only_known_peers_answer() {
    let (s, _) = handle_udp_associate(vec![]);
    let (s, a) = s.step(UdpEvent::Datagram { from: peer(1), payload: b"spam".to_vec() });
    assert_eq!(a, UdpAction::Ignore { from: peer(1) });
    let (s, _) = s.step(UdpEvent::ClientData(udp(1, b"q")));
    let (s, a) = send(s, 1, b"q");
    assert_eq!(a, UdpAction::Wait);
    let other_port = SocketAddress::V4 { ip: [9, 9, 9, 1], port: 54 };
    let (s, a) = s.step(UdpEvent::Datagram { from: other_port, payload: b"spam".to_vec() });
    assert_eq!(a, UdpAction::Ignore { from: other_port });
    let (s, a) = s.step(UdpEvent::Datagram { from: peer(1), payload: b"answer".to_vec() });
    let written = udp(1, b"answer");
    assert_eq!(a, UdpAction::Reply(written.clone()));
    assert_eq!(
        parse_udp_packet(&written),
        Some(("9.9.9.1".to_string(), 53, b"answer".to_vec(), written.len()))
    );
    let (s, a) = s.step(UdpEvent::ReplyDone { written: true });
    assert_eq!(a, UdpAction::Wait);
    let (s, a) = s.step(UdpEvent::Datagram { from: peer(1), payload: vec![] });
    assert_eq!(a, UdpAction::Reply(udp(1, b"")));
    let (_, a) = s.step(UdpEvent::ReplyDone { written: false });
    assert_eq!(a, UdpAction::Close);
}

#[test]
fn an_ipv6_peer_answers() {
    let mut ip = [0u8; 16];
    ip[0] = 0x20;
    ip[15] = 5;
    let from = SocketAddress::V6 { ip, port: 9, flow_info: 0, scope_id: 0 };
    let (s, _) = handle_udp_associate(vec![]);
    let (s, _) = s.step(UdpEvent::ClientData(encode_udp_response("2000::5", 9, b"q").unwrap()));
    let (s, _) = s.step(UdpEvent::Resolved(vec![from]));
    let (s, _) = s.step(UdpEvent::SendDone);
    let scoped = SocketAddress::V6 { ip, port: 9, flow_info: 0, scope_id: 1 };
    let (s, a) = s.step(UdpEvent::Datagram { from: scoped, payload: b"a".to_vec() });
    assert_eq!(a, UdpAction::Ignore { from: scoped });
    let (_, a) = s.step(UdpEvent::Datagram { from, payload: b"a".to_vec() });
    assert_eq!(a, UdpAction::Reply(encode_udp_response("2000::5", 9, b"a").unwrap()));
}

#[test]
fn a_session_ends() {
    for event in [
        UdpEvent::ClientData(vec![]),
        UdpEvent::ClientFailed,
        UdpEvent::SocketFailed,
        UdpEvent::IdleTimeout,
    ] {
        let (s, _) = handle_udp_associate(b"left".to_vec());
        assert_eq!(s.step(event).1, UdpAction::Close);
    }
}

#[test]
fn a_peer_is_held_once() {
    let mut set = PeerSet::new();
    assert!(!set.contains(&peer(1)));
    set.insert(peer(1));
    set.insert(peer(1));
    assert!(set.contains(&peer(1)));
    assert!(!set.contains(&peer(2)));
}

#[test]
fn a_missing_line_break_is_reported() {
    let mut broken = udp(1, b"one");
    broken[9] = b'x';
    let (s, a) = handle_udp_associate(broken[..8].to_vec());
    assert_eq!(a, UdpAction::Wait);
    let (s, a) = s.step(UdpEvent::ClientData(broken[8..].to_vec()));
    assert_eq!(a, UdpAction::WaitMalformed);
    let (_, a) = s.step(UdpEvent::Datagram { from: peer(1), payload: vec![] });
    assert_eq!(a, UdpAction::Ignore { from: peer(1) });
}

#[test]
fn answers_are_written_once_their_sender_is_known() {
    let datagram = |host, payload: &[u8]| UdpEvent::Datagram {
        from: peer(host),
        payload: payload.to_vec(),
    };
    let (s, _) = handle_udp_associate(udp(1, b"q"));
    let (mut s, _) = send(s, 1, b"q");
    let mut written = Vec::new();
    for (host, payload) in [(2u8, &b"no"[..]), (1, b"a"), (1, b""), (3, b"no"), (1, b"b")] {
        let (next, action) = s.step(datagram(host, payload));
        s = next;
        if let UdpAction::Reply(data) = action {
            written.extend(data);
            s = s.step(UdpEvent::ReplyDone { written: true }).0;
        }
    }
    let mut expected = udp(1, b"a");
    expected.extend(udp(1, b""));
    expected.extend(udp(1, b"b"));
    assert_eq!(written, expected);
}
