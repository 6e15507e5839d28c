use trojan_server::auth::{
    constant_time_eq, get_password_hash, init_password_hash, sha224_hex, PasswordCell,
};

#[test]
fn hash_is_the_hexadecimal_digest() {
    assert_eq!(
        sha224_hex("password"),
        "d63dc919e201d7bc4c825630d2cf25fdc93d4b2f0d46706d29038d01"
    );
    assert_eq!(sha224_hex(""), "d14a028c2a3a2bc9476102bb288234c415a2b01f828ea62ac5b3e42f");
    assert_eq!(sha224_hex("secret").len(), 56);
}

#[test]
fn the_first_password_is_kept() {
    let mut cell = PasswordCell::new();
    assert!(!cell.is_set());
    init_password_hash(&mut cell, "password");
    assert!(cell.is_set());
    for later in ["another", "", "password "] {
        init_password_hash(&mut cell, later);
    }
    assert_eq!(get_password_hash(&cell), sha224_hex("password"));
}

#[test]
fn comparison_is_equality() {
    assert!(constant_time_eq(b"", b""));
    assert!(constant_time_eq(b"abc", b"abc"));
    assert!(!constant_time_eq(b"abc", b"abd"));
    assert!(!constant_time_eq(b"\x80bc", b"\x00bc"));
    assert!(!constant_time_eq(b"abc", b"ab"));
    assert!(!constant_time_eq(b"\x01\x01", b"\x00\x00"));
}
