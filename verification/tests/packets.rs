use trojan_server::address::{invalid_domain, parse_address};
use trojan_server::packet::{encode_udp_response, parse_udp_packet, read_packet};
use trojan_server::stream::settle;

fn address(data: &[u8]) -> (Result<String, String>, usize) {
    let mut cursor = 0;
    let r = parse_address(data, &mut cursor);
    (r, cursor)
}

#[test]
fn addresses_are_read() {
    assert_eq!(address(&[1, 10, 0, 0, 255, 9]), (Ok("10.0.0.255".to_string()), 5));
    assert_eq!(address(b"\x03\x0bexample.com\x00"), (Ok("example.com".to_string()), 13));
    assert_eq!(address(b"\x03\x00"), (Ok("".to_string()), 2));
    assert_eq!(address(b"\x03\x02\xc3\xa9"), (Ok("\u{e9}".to_string()), 4));
    let mut v6 = vec![4u8];
    v6.extend_from_slice(&[0; 15]);
    v6.push(1);
    assert_eq!(address(&v6), (Ok("::1".to_string()), 17));
}

#[test]
fn addresses_are_read_at_the_cursor() {
    let mut cursor = 2;
    assert_eq!(parse_address(&[9, 9, 1, 1, 2, 3, 4], &mut cursor), Ok("1.2.3.4".to_string()));
    assert_eq!(cursor, 7);
    assert_eq!(
        parse_address(&[9, 9, 1, 1, 2, 3, 4], &mut cursor),
        Err("Insufficient data for address type".to_string())
    );
    assert_eq!(cursor, 7);
}

#[test]
fn each_address_error_is_given() {
    let err = |s: &str| Err(s.to_string());
    assert_eq!(address(&[]), (err("Insufficient data for address type"), 0));
    assert_eq!(address(&[1, 1, 2, 3]), (err("Insufficient data for IPv4"), 1));
    assert_eq!(address(&[3]), (err("Insufficient data for domain length"), 1));
    assert_eq!(address(&[3, 4, 97, 98, 99]), (err("Insufficient data for domain"), 2));
    assert_eq!(address(&[4, 0, 0, 0, 0, 0, 0, 0, 0, 0, 0, 0, 0, 0, 0, 0]), (err("Insufficient data for IPv6"), 1));
    assert_eq!(address(&[2, 0, 0]), (err("Invalid address type: 2"), 1));
    assert_eq!(address(&[255]), (err("Invalid address type: 255"), 1));
    assert_eq!(
        address(&[3, 2, 97, 0xff]),
        (err("Invalid UTF-8 in domain: invalid utf-8 sequence of 1 bytes from index 1"), 2)
    );
    assert_eq!(
        address(&[3, 2, 97, 0xe2]),
        (err("Invalid UTF-8 in domain: incomplete utf-8 byte sequence from index 1"), 2)
    );
    assert_eq!(invalid_domain("x"), "Invalid UTF-8 in domain: x");
}

fn sample(trailer: &[u8]) -> Vec<u8> {
    let mut v = vec![1u8, 8, 8, 4, 4, 0, 53, 0, 3, 13, 10, b'a', b'b', b'c'];
    v.extend_from_slice(trailer);
    v
}

#[test]
fn packets_are_read() {
    let expected = |size| Some(("8.8.4.4".to_string(), 53, b"abc".to_vec(), size));
    assert_eq!(parse_udp_packet(&sample(b"")), expected(14));
    assert_eq!(parse_udp_packet(&sample(b"xyz")), expected(14));
    assert_eq!(parse_udp_packet(&sample(b"\r\n")), expected(16));
    assert_eq!(parse_udp_packet(&sample(b"\r\nmore")), expected(16));
    assert_eq!(parse_udp_packet(&sample(b"\r")), expected(14));
    let mut domain = b"\x03\x03a.b\x12\x34\x00\x00\r\n".to_vec();
    assert_eq!(parse_udp_packet(&domain), Some(("a.b".to_string(), 0x1234, vec![], 11)));
    domain[0] = 7;
    assert_eq!(parse_udp_packet(&domain), None);
}

#[test]
fn packets_that_are_not_whole_are_not_read() {
    let whole = sample(b"");
    for n in 0..whole.len() {
        assert_eq!(parse_udp_packet(&whole[..n]), None, "{}", n);
    }
    let mut broken = whole.clone();
    broken[9] = 10;
    assert_eq!(parse_udp_packet(&broken), None);
    assert_eq!(parse_udp_packet(b"\x03\x00\x00"), None);
}

#[test]
fn responses_are_written() {
    assert_eq!(
        encode_udp_response("8.8.4.4", 53, b"abc"),
        Ok(sample(b""))
    );
    let mut v6 = vec![4u8, 0x20, 0x01, 0x0d, 0xb8];
    v6.extend_from_slice(&[0; 11]);
    v6.extend_from_slice(&[1, 0xff, 0x01, 0, 0, 13, 10]);
    assert_eq!(encode_udp_response("2001:db8::1", 0xff01, b""), Ok(v6));
    for bad in ["example.com", "", "1.2.3", "1.2.3.4:5", "01.2.3.4"] {
        assert_eq!(
            encode_udp_response(bad, 1, b""),
            Err("Invalid IP address format".to_string())
        );
    }
}

#[test]
fn responses_are_read_back() {
    for addr in ["1.2.3.4", "::1", "2001:db8:0:1:1::42", "::ffff:1.2.3.4"] {
        for payload in [&b""[..], &b"x"[..], &[7u8; 4096][..], &[1u8; 65535][..]] {
            let written = encode_udp_response(addr, 4711, payload).unwrap();
            let n = written.len();
            let read = parse_udp_packet(&written);
            assert_eq!(read, Some((addr.to_string(), 4711, payload.to_vec(), n)));
        }
    }
    let canonical = encode_udp_response("0:0::0001", 1, b"p").unwrap();
    assert_eq!(parse_udp_packet(&canonical).unwrap().0, "::1");
}

#[test]
fn a_payload_whose_length_does_not_fit_is_not_read_back() {
    let written = encode_udp_response("1.2.3.4", 1, &[9u8; 65536]).unwrap();
    assert_eq!(written.len(), 1 + 4 + 6 + 65536);
    assert_eq!(&written[7..9], &[0, 0]);
    assert_eq!(parse_udp_packet(&written), Some(("1.2.3.4".to_string(), 1, vec![], 11)));
}

#[test]
fn a_packet_is_read_up_to_the_end_of_its_payload() {
    let expected = Some(("8.8.4.4".to_string(), 53, b"abc".to_vec(), 14));
    assert_eq!(read_packet(&sample(b"")), expected);
    assert_eq!(read_packet(&sample(b"\r\n")), expected);
    assert_eq!(read_packet(&sample(b"")[..13]), None);
}

#[test]
fn the_line_break_of_the_packet_before_is_taken_off() {
    let settled = |open, octets: &[u8]| settle(open, octets.to_vec());
    assert_eq!(settled(true, b"\r\nrest"), (false, b"rest".to_vec()));
    assert_eq!(settled(true, b"\r\n\r\n"), (false, b"\r\n".to_vec()));
    assert_eq!(settled(true, b"\r"), (true, b"\r".to_vec()));
    assert_eq!(settled(true, b""), (true, vec![]));
    assert_eq!(settled(true, b"\rx"), (false, b"\rx".to_vec()));
    assert_eq!(settled(true, b"x"), (false, b"x".to_vec()));
    assert_eq!(settled(false, b"\r\nrest"), (false, b"\r\nrest".to_vec()));
}
