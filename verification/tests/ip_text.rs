use trojan_server::ip::{parse_ip, IpAddress};

fn v6(segments: [u16; 8]) -> IpAddress {
    let mut octets = [0u8; 16];
    for (i, s) in segments.iter().enumerate() {
        octets[2 * i] = (s >> 8) as u8;
        octets[2 * i + 1] = (s & 0xff) as u8;
    }
    IpAddress::V6(octets)
}

#[test]
fn ipv4_text_is_dotted_decimal() {
    assert_eq!(IpAddress::V4([192, 168, 0, 1]).to_text(), "192.168.0.1");
    assert_eq!(IpAddress::V4([0, 0, 0, 0]).to_text(), "0.0.0.0");
    assert_eq!(IpAddress::V4([255, 10, 100, 99]).to_text(), "255.10.100.99");
}

#[test]
fn ipv6_text_is_canonical() {
    assert_eq!(v6([0, 0, 0, 0, 0, 0, 0, 0]).to_text(), "::");
    assert_eq!(v6([0, 0, 0, 0, 0, 0, 0, 1]).to_text(), "::1");
    assert_eq!(v6([1, 0, 0, 0, 0, 0, 0, 0]).to_text(), "1::");
    assert_eq!(v6([0x2001, 0xdb8, 0, 0, 1, 0, 0, 0x42]).to_text(), "2001:db8::1:0:0:42");
    assert_eq!(v6([0x2001, 0xdb8, 0, 1, 1, 0, 0, 0x42]).to_text(), "2001:db8:0:1:1::42");
    assert_eq!(v6([1, 0, 3, 4, 5, 6, 7, 8]).to_text(), "1:0:3:4:5:6:7:8");
    assert_eq!(v6([0xabcd, 0xef01, 2, 3, 4, 5, 6, 0xffff]).to_text(), "abcd:ef01:2:3:4:5:6:ffff");
    assert_eq!(v6([0, 0, 0, 0, 0, 0xffff, 0x0102, 0x0304]).to_text(), "::ffff:1.2.3.4");
    assert_eq!(v6([0, 0, 0, 0, 0, 0, 0x0102, 0x0304]).to_text(), "::102:304");
}

#[test]
fn ipv6_texts_are_written_and_read_back() {
    let table: [([u16; 8], &str); 40] = [
        ([0xabcd, 1, 1, 0xabcd, 0, 0xff, 0, 0], "abcd:1:1:abcd:0:ff::"),
        ([0, 0, 1, 0xff, 0, 0xff, 0xabcd, 0], "::1:ff:0:ff:abcd:0"),
        ([0xabcd, 0, 0, 0, 0xff, 1, 0, 0xff], "abcd::ff:1:0:ff"),
        ([0, 0, 0, 0xabcd, 0xabcd, 0xff, 0, 0], "::abcd:abcd:ff:0:0"),
        ([0, 0, 0, 0, 0, 0, 1, 1], "::1:1"),
        ([0, 0xabcd, 0, 0, 0, 0xff, 1, 0], "0:abcd::ff:1:0"),
        ([1, 0xff, 0, 0, 1, 0, 1, 1], "1:ff::1:0:1:1"),
        ([0xabcd, 0xabcd, 0, 0xabcd, 1, 0, 1, 1], "abcd:abcd:0:abcd:1:0:1:1"),
        ([1, 0xff, 1, 0, 0xff, 0xff, 0, 0], "1:ff:1:0:ff:ff::"),
        ([1, 0, 1, 0xff, 0, 0xabcd, 0xff, 1], "1:0:1:ff:0:abcd:ff:1"),
        ([0xff, 0xabcd, 0, 0xff, 0, 0, 0xabcd, 0], "ff:abcd:0:ff::abcd:0"),
        ([0, 0, 0xff, 1, 0xabcd, 1, 0xabcd, 1], "::ff:1:abcd:1:abcd:1"),
        ([0xff, 0, 0xabcd, 1, 1, 0, 0xff, 0], "ff:0:abcd:1:1:0:ff:0"),
        ([0, 1, 0xabcd, 0xabcd, 1, 0, 1, 1], "0:1:abcd:abcd:1:0:1:1"),
        ([0xabcd, 0, 1, 1, 1, 0, 0, 0], "abcd:0:1:1:1::"),
        ([1, 0xff, 0, 0, 0, 0xabcd, 0xabcd, 0xff], "1:ff::abcd:abcd:ff"),
        ([0, 0, 0xabcd, 1, 1, 0xff, 0xff, 0], "::abcd:1:1:ff:ff:0"),
        ([0, 0, 0xff, 1, 0, 0, 0xabcd, 0], "::ff:1:0:0:abcd:0"),
        ([0xff, 0, 0, 0xff, 1, 0, 0, 0xff], "ff::ff:1:0:0:ff"),
        ([1, 0, 0xff, 0xabcd, 0, 0xabcd, 0xff, 0xff], "1:0:ff:abcd:0:abcd:ff:ff"),
        ([1, 0xff, 1, 1, 0xff, 0xff, 0, 0], "1:ff:1:1:ff:ff::"),
        ([0xff, 0xabcd, 0, 0xff, 1, 0, 0, 0xff], "ff:abcd:0:ff:1::ff"),
        ([1, 0xabcd, 0xabcd, 0xabcd, 1, 0, 1, 0xabcd], "1:abcd:abcd:abcd:1:0:1:abcd"),
        ([0, 1, 1, 0xabcd, 1, 0xff, 1, 1], "0:1:1:abcd:1:ff:1:1"),
        ([1, 0, 0xabcd, 0, 0xff, 0xabcd, 1, 1], "1:0:abcd:0:ff:abcd:1:1"),
        ([1, 0xff, 1, 0xabcd, 1, 1, 1, 1], "1:ff:1:abcd:1:1:1:1"),
        ([0xff, 1, 0, 0xff, 1, 1, 0xabcd, 0], "ff:1:0:ff:1:1:abcd:0"),
        ([0xabcd, 0, 0, 1, 0xff, 1, 0, 0xff], "abcd::1:ff:1:0:ff"),
        ([0, 0xabcd, 0xabcd, 0xabcd, 0xff, 1, 0xabcd, 0xabcd], "0:abcd:abcd:abcd:ff:1:abcd:abcd"),
        ([1, 0, 0, 0, 0xabcd, 0xff, 0xabcd, 0], "1::abcd:ff:abcd:0"),
        ([0, 0, 0, 0xff, 0, 0, 0, 0], "0:0:0:ff::"),
        ([0, 1, 0, 0xff, 0, 0xabcd, 0, 0xff], "0:1:0:ff:0:abcd:0:ff"),
        ([0xff, 1, 0xff, 0xabcd, 0, 0xabcd, 0, 0], "ff:1:ff:abcd:0:abcd::"),
        ([1, 0, 1, 0xff, 1, 0xff, 0, 0xabcd], "1:0:1:ff:1:ff:0:abcd"),
        ([1, 0, 0xabcd, 0xabcd, 1, 0, 1, 0xabcd], "1:0:abcd:abcd:1:0:1:abcd"),
        ([0xabcd, 1, 0xabcd, 1, 1, 0, 0xff, 0xff], "abcd:1:abcd:1:1:0:ff:ff"),
        ([0xabcd, 0xabcd, 1, 0xff, 0, 0, 0xabcd, 0xff], "abcd:abcd:1:ff::abcd:ff"),
        ([0xabcd, 0xff, 0, 0, 0xabcd, 0, 1, 0], "abcd:ff::abcd:0:1:0"),
        ([0xff, 0, 1, 0xabcd, 0xabcd, 0xabcd, 0, 1], "ff:0:1:abcd:abcd:abcd:0:1"),
        ([0xabcd, 0xff, 0xff, 0xff, 0, 0xff, 1, 0xff], "abcd:ff:ff:ff:0:ff:1:ff"),
    ];
    for (segments, text) in table {
        assert_eq!(v6(segments).to_text(), text);
        assert_eq!(parse_ip(text), Some(v6(segments)));
    }
}

#[test]
fn ipv4_texts_are_read_back() {
    for a in 0..=255u8 {
        let ip = IpAddress::V4([a, 255 - a, 0, a]);
        assert_eq!(ip.to_text(), format!("{}.{}.0.{}", a, 255 - a, a));
        assert_eq!(parse_ip(&ip.to_text()), Some(ip));
    }
}

#[test]
fn what_is_no_address_is_not_read() {
    let texts = [
        "", ".", ":", ":::", "1", "1.2.3", "1.2.3.4.5", "01.2.3.4", "1.2.3.04", "1.2.3.256",
        "1.2.3.1000", "1..2.3", "1.2.3.4 ", " 1.2.3.4", "a.b.c.d", "1::2::3", "1:2:3:4:5:6:7",
        "1:2:3:4:5:6:7:8:9", "::1:2:3:4:5:6:7:8", "1:2:3:4::5:6:7:8", "1:2:3:4:5:6:7:8::",
        "12345::", "g::", "1.2.3.4::", "1:2:3:4:5:6:7:1.2.3.4", "1::2:3:4:5:6:1.2.3.4",
        "::1.2.3.4:5", "::1.2.3", "::1.2.3.4.5", "::01.2.3.4", "1:", ":1", ":1::2", "1::2:",
        "example.com", "1:2:3:4:5:6::1.2.3.4", "\u{e9}::", "::%1", "[::1]",
    ];
    for t in texts {
        assert_eq!(parse_ip(t), None, "{}", t);
    }
}

#[test]
fn every_form_of_an_ipv6_address_is_read() {
    let forms = [
        ("::", [0, 0, 0, 0, 0, 0, 0, 0]),
        ("1::2", [1, 0, 0, 0, 0, 0, 0, 2]),
        ("1:2:3:4:5:6:7:8", [1, 2, 3, 4, 5, 6, 7, 8]),
        ("1:2:3:4:5:6:7::", [1, 2, 3, 4, 5, 6, 7, 0]),
        ("::2:3:4:5:6:7:8", [0, 2, 3, 4, 5, 6, 7, 8]),
        ("ABCD::eF", [0xabcd, 0, 0, 0, 0, 0, 0, 0xef]),
        ("::ffff:1.2.3.4", [0, 0, 0, 0, 0, 0xffff, 0x102, 0x304]),
        ("::1.2.3.4", [0, 0, 0, 0, 0, 0, 0x102, 0x304]),
        ("1:2:3:4:5:6:1.2.3.4", [1, 2, 3, 4, 5, 6, 0x102, 0x304]),
        ("1::2:3:4:5:1.2.3.4", [1, 0, 2, 3, 4, 5, 0x102, 0x304]),
        ("1:2:3:4:5::1.2.3.4", [1, 2, 3, 4, 5, 0, 0x102, 0x304]),
        ("0000:0::00:000", [0, 0, 0, 0, 0, 0, 0, 0]),
    ];
    for (text, segments) in forms {
        assert_eq!(parse_ip(text), Some(v6(segments)), "{}", text);
    }
}

#[test]
fn leading_zeros_are_dropped_when_an_address_is_read_and_written() {
    assert_eq!(parse_ip("2001:0DB8::0001").unwrap().to_text(), "2001:db8::1");
    assert_eq!(parse_ip("0:0:0:0:0:FFFF:1.2.3.4").unwrap().to_text(), "::ffff:1.2.3.4");
}
