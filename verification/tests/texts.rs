use trojan_server::pieces::{find_pair, split_chars};
use trojan_server::text::{chars_of, push_decimal, push_lower_hex, read_digit, read_numeral};

fn pieces(s: &str) -> Vec<String> {
    split_chars(&chars_of(s), ',').into_iter().map(|p| p.into_iter().collect()).collect()
}

#[test]
fn numerals_are_written() {
    let mut s = "n=".to_string();
    push_decimal(&mut s, 0);
    push_decimal(&mut s, 65535);
    s.push(' ');
    push_lower_hex(&mut s, 0);
    push_lower_hex(&mut s, 0xbeef);
    assert_eq!(s, "n=065535 0beef");
}

#[test]
fn numerals_are_read() {
    assert_eq!(read_digit('7'), Some(7));
    assert_eq!(read_digit('b'), Some(11));
    assert_eq!(read_digit('F'), Some(15));
    assert_eq!(read_digit('g'), None);
    assert_eq!(read_numeral(&chars_of("0042"), 10), Some(42));
    assert_eq!(read_numeral(&chars_of("9999"), 10), Some(9999));
    assert_eq!(read_numeral(&chars_of("fFfF"), 16), Some(65535));
    assert_eq!(read_numeral(&chars_of("1a"), 10), None);
    assert_eq!(read_numeral(&chars_of(""), 16), None);
    assert_eq!(read_numeral(&chars_of("12345"), 10), None);
}

#[test]
fn texts_are_split_and_joined() {
    for s in ["", ",", "a", "a,b", ",a,,b,", "\u{e9},x"] {
        assert_eq!(pieces(s).join(","), s);
    }
    assert_eq!(pieces(",a,,b"), ["", "a", "", "b"]);
    assert_eq!(pieces(""), [""]);
}

#[test]
fn pairs_are_found() {
    assert_eq!(find_pair(&chars_of("a::b::c"), ':'), 1);
    assert_eq!(find_pair(&chars_of(":a:"), ':'), 3);
    assert_eq!(find_pair(&chars_of(":::"), ':'), 0);
}
