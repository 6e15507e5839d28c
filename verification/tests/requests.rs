use trojan_server::auth::sha224_hex;
use trojan_server::request::{
    begin_client, handle_client, route, ClientEvent, ClientStep, Handshake, Refusal, Route,
    TlsEvent, HEADER_SECONDS, TLS_SECONDS,
};

fn request(command: u8, tail: &[u8]) -> Vec<u8> {
    let mut v = sha224_hex("pw").into_bytes();
    v.extend_from_slice(b"\r\n");
    v.push(command);
    v.extend_from_slice(tail);
    v
}

fn decide(data: Vec<u8>) -> Route {
    route(data, &sha224_hex("pw"), false)
}

fn fallback(reason: Refusal, data: &[u8]) -> Route {
    Route::Fallback { data: data.to_vec(), reason }
}

const TAIL: &[u8] = b"\x03\x0bexample.com\x01\xbb\r\nGET /";

#[test]
fn a_whole_request_is_served() {
    assert_eq!(
        decide(request(1, TAIL)),
        Route::TcpConnect {
            addr: "example.com".to_string(),
            port: 443,
            payload: b"GET /".to_vec()
        }
    );
    assert_eq!(decide(request(3, TAIL)), Route::UdpAssociate { payload: b"GET /".to_vec() });
    assert_eq!(
        decide(request(1, &[1, 9, 8, 7, 6, 0, 80, 13, 10])),
        Route::TcpConnect { addr: "9.8.7.6".to_string(), port: 80, payload: vec![] }
    );
}

#[test]
fn a_wrong_password_leads_to_the_web_site_with_all_octets() {
    let mut data = request(1, TAIL);
    data[0] ^= 1;
    assert_eq!(decide(data.clone()), fallback(Refusal::InvalidPassword, &data));
    let mut data = request(1, TAIL);
    data[57] = b' ';
    assert_eq!(decide(data.clone()), fallback(Refusal::InvalidPassword, &data));
    let data = vec![0xff; 80];
    assert_eq!(decide(data.clone()), fallback(Refusal::InvalidEncoding, &data));
    let data = b"GET / HTTP/1.1\r\n\r\n".to_vec();
    assert_eq!(decide(data.clone()), fallback(Refusal::Probe, &data));
    let data = request(1, TAIL);
    assert_eq!(
        route(data.clone(), &sha224_hex("other"), false),
        fallback(Refusal::InvalidPassword, &data)
    );
}

#[test]
fn the_hash_does_not_reach_the_web_site() {
    let header = request(1, &[]).len() - 1;
    let mut only_header = request(1, &[]);
    only_header.truncate(header);
    assert_eq!(decide(only_header), fallback(Refusal::MissingRequest, &[]));
    let invalid = |s: &str| Refusal::InvalidAddress(s.to_string());
    for (command, tail, reason) in [
        (2u8, TAIL, Refusal::UnsupportedCommand(2)),
        (1, &b""[..], invalid("Insufficient data for address type")),
        (1, &b"\x09"[..], invalid("Invalid address type: 9")),
        (1, &b"\x03\x01q\x00"[..], Refusal::MissingPort),
        (1, &b"\x03\x01q\x00\x50"[..], Refusal::MissingLineBreak),
        (3, &b"\x03\x01q\x00\x50\r"[..], Refusal::MissingLineBreak),
        (3, &b"\x03\x01q\x00\x50\n\r"[..], Refusal::MissingLineBreak),
    ] {
        let data = request(command, tail);
        let rest = data[header..].to_vec();
        assert_eq!(decide(data), fallback(reason, &rest));
    }
}

#[test]
fn a_client_that_took_too_long_leads_to_the_web_site() {
    let data = request(1, TAIL);
    assert_eq!(
        route(data.clone(), &sha224_hex("pw"), true),
        fallback(Refusal::Probe, &data)
    );
}

fn feed(handshake: Handshake, data: &[u8]) -> ClientStep {
    handle_client(handshake, ClientEvent::Data(data.to_vec()), &sha224_hex("pw"))
}

fn more(step: ClientStep) -> Handshake {
    match step {
        ClientStep::More(handshake) => handshake,
        ClientStep::Lead(route) => panic!("{:?}", route),
    }
}

fn lead(step: ClientStep) -> Route {
    match step {
        ClientStep::More(_) => panic!("waits for more"),
        ClientStep::Lead(route) => route,
    }
}

#[test]
fn a_client_is_read_until_a_header_is_there() {
    let data = request(3, TAIL);
    let h = more(feed(Handshake::new(), &data[..1]));
    let h = more(feed(h, &data[1..57]));
    assert_eq!(lead(feed(h, &data[57..])), Route::UdpAssociate { payload: b"GET /".to_vec() });
}

#[test]
fn a_client_is_read_until_a_blank_line() {
    let h = more(feed(Handshake::new(), b"GET /\r\n"));
    let h = more(feed(h, b"\r"));
    assert_eq!(lead(feed(h, b"\n")), fallback(Refusal::Probe, b"GET /\r\n\r\n"));
}

#[test]
fn a_client_that_ends_or_fails_leads_to_the_web_site() {
    let hash = sha224_hex("pw");
    let h = more(feed(Handshake::new(), b"abc"));
    assert_eq!(lead(feed(h, b"")), fallback(Refusal::Probe, b"abc"));
    let h = more(feed(Handshake::new(), b"abc"));
    assert_eq!(
        lead(handle_client(h, ClientEvent::ReadFailed, &hash)),
        fallback(Refusal::Probe, b"abc")
    );
    let h = more(feed(Handshake::new(), b"abc"));
    assert_eq!(
        lead(handle_client(h, ClientEvent::TimedOut, &hash)),
        fallback(Refusal::Probe, b"abc")
    );
    assert_eq!(
        lead(handle_client(Handshake::new(), ClientEvent::TimedOut, &hash)),
        fallback(Refusal::Probe, b"")
    );
}

#[test]
fn a_request_may_be_cut_inside_the_header() {
    let data = request(1, TAIL);
    for cut in 1..58 {
        let h = more(feed(Handshake::new(), &data[..cut]));
        assert_eq!(
            lead(feed(h, &data[cut..])),
            Route::TcpConnect {
                addr: "example.com".to_string(),
                port: 443,
                payload: b"GET /".to_vec()
            }
        );
    }
    assert_eq!(
        lead(feed(Handshake::new(), &data[..58])),
        fallback(Refusal::MissingRequest, b"")
    );
    assert_eq!(
        lead(feed(Handshake::new(), &data[..60])),
        fallback(
            Refusal::InvalidAddress("Insufficient data for domain length".to_string()),
            &data[58..60]
        )
    );
}

#[test]
fn a_request_may_come_in_any_number_of_reads() {
    let data = request(1, TAIL);
    let whole = route(data.clone(), &sha224_hex("pw"), false);
    for size in 1..58 {
        let mut h = Handshake::new();
        let mut at = 0;
        while at + size < 58 {
            h = more(feed(h, &data[at..at + size]));
            at += size;
        }
        assert_eq!(lead(feed(h, &data[at..])), whole);
    }
}

#[test]
fn tls_comes_first() {
    assert_eq!((TLS_SECONDS, HEADER_SECONDS), (10, 60));
    let h = begin_client(TlsEvent::Accepted).ok().unwrap();
    assert_eq!(lead(feed(h, b"")), fallback(Refusal::Probe, b""));
    assert_eq!(begin_client(TlsEvent::Failed("bad".to_string())).err(), Some("bad".to_string()));
    assert_eq!(
        begin_client(TlsEvent::TimedOut).err(),
        Some("TLS handshake timeout".to_string())
    );
}
