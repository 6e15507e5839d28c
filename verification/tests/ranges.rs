use trojan_server::ip::parse_ip;
use trojan_server::ranges::is_private_address;

fn private(s: &str) -> bool {
    is_private_address(parse_ip(s).unwrap())
}

#[test]
fn private_ipv4_ranges_are_told() {
    for s in [
        "127.0.0.1", "127.255.255.255", "10.0.0.0", "10.255.0.1", "172.16.0.0", "172.31.255.255",
        "192.168.1.1", "169.254.169.254", "255.255.255.255", "192.0.2.1", "198.51.100.7",
        "203.0.113.9", "0.0.0.0",
    ] {
        assert!(private(s), "{}", s);
    }
    for s in [
        "128.0.0.1", "11.0.0.1", "172.15.255.255", "172.32.0.0", "192.167.1.1", "169.253.0.1",
        "255.255.255.254", "192.0.3.1", "198.51.101.1", "203.0.114.1", "0.0.0.1", "8.8.8.8",
    ] {
        assert!(!private(s), "{}", s);
    }
}

#[test]
fn private_ipv6_ranges_are_told() {
    for s in ["::1", "::", "fc00::", "fdff::1", "fe80::1", "febf::1"] {
        assert!(private(s), "{}", s);
    }
    for s in ["::2", "1::", "fbff::1", "fe00::1", "fe7f::1", "fec0::1", "2001:db8::1", "::ffff:127.0.0.1"] {
        assert!(!private(s), "{}", s);
    }
}
