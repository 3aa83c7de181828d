use wsrx::error::Status;
use wsrx::headers::{
    authorize_management, client_of_entry, constant_time_eq, forwarded_client, forwarded_for, header_is_text,
};
use wsrx::net::{
    bracketed, listen_address, literal_of, parse_ipv4, parse_ipv4_socket, text_of_address, IpAddress,
    SocketAddress,
};

const SECRET: &str = "0123456789abcdef0123456789abcdef";

#[test]
fn comparison_of_secrets() {
    assert!(constant_time_eq(b"", b""));
    assert!(constant_time_eq(b"abc", b"abc"));
    assert!(!constant_time_eq(b"abc", b"abd"));
    assert!(!constant_time_eq(b"abc", b"ab"));
    assert!(!constant_time_eq(b"ab", b"abc"));
}

#[test]
fn management_needs_the_secret() {
    let bearer = format!("Bearer {SECRET}");
    assert_eq!(authorize_management(Some(bearer.as_bytes()), SECRET), Ok(()));
    assert_eq!(authorize_management(Some(SECRET.as_bytes()), SECRET), Ok(()));
    let refused = Err(Status::Unauthorized);
    assert_eq!(authorize_management(None, SECRET), refused);
    assert_eq!(authorize_management(Some(b""), SECRET), refused);
    assert_eq!(authorize_management(Some(b"Bearer"), SECRET), refused);
    assert_eq!(authorize_management(Some(b"Bearer "), SECRET), refused);
    let lower = format!("bearer {SECRET}");
    assert_eq!(authorize_management(Some(lower.as_bytes()), SECRET), refused);
    let twice = format!("Bearer Bearer {SECRET}");
    assert_eq!(authorize_management(Some(twice.as_bytes()), SECRET), refused);
    let longer = format!("{SECRET}0");
    assert_eq!(authorize_management(Some(longer.as_bytes()), SECRET), refused);
}

#[test]
fn headers_that_are_no_text_are_refused() {
    assert!(header_is_text(b"a b\t~"));
    assert!(!header_is_text(b"a\n"));
    assert!(!header_is_text(&[0x7f]));
    let secret = "ß123456789abcdef0123456789abcdef";
    assert_eq!(
        authorize_management(Some(secret.as_bytes()), secret),
        Err(Status::Unauthorized)
    );
}

#[test]
fn first_forwarded_entry_names_the_client() {
    assert_eq!(forwarded_for(Some(b"203.0.113.9")), Some("203.0.113.9".to_string()));
    assert_eq!(forwarded_for(Some(b" 203.0.113.9\t, 10.0.0.1")), Some("203.0.113.9".to_string()));
    assert_eq!(forwarded_for(Some(b",10.0.0.1")), Some(String::new()));
    assert_eq!(forwarded_for(Some(b"")), Some(String::new()));
    assert_eq!(forwarded_for(Some(&[0x80])), None);
    assert_eq!(forwarded_for(None), None);
}

#[test]
fn forwarded_address_keeps_the_port_of_the_peer() {
    let peer = SocketAddress {
        ip: IpAddress::V4([10, 0, 0, 1]),
        port: 4000,
    };
    let at = |ip: IpAddress| SocketAddress { ip, port: 4000 };
    let client = IpAddress::V4([203, 0, 113, 9]);
    let six = [0x20, 1, 0x0d, 0xb8, 0, 0, 0, 0, 0, 0, 0, 0, 0, 0, 0, 1];
    assert_eq!(forwarded_client(Some(b" 203.0.113.9, 10.0.0.7"), peer), at(client));
    assert_eq!(forwarded_client(Some(b"2001:DB8::1, 10.0.0.7"), peer), at(IpAddress::V6(six)));
    for header in [&b"203.0.113.09"[..], b"203.0.113", b"unknown", b"", b"[::1]", b"fe80::1%3", &[0x80]] {
        assert_eq!(forwarded_client(Some(header), peer), peer);
    }
    assert_eq!(forwarded_client(None, peer), peer);
    assert_eq!(client_of_entry(Some("203.0.113.9"), Some(six), peer), at(client));
    assert_eq!(client_of_entry(Some("six"), Some(six), peer), at(IpAddress::V6(six)));
    assert_eq!(client_of_entry(Some("six"), None, peer), peer);
    assert_eq!(client_of_entry(None, Some(six), peer), peer);
}

#[test]
fn ipv4_addresses_in_dotted_decimal() {
    assert_eq!(parse_ipv4("0.0.0.0"), Some([0, 0, 0, 0]));
    assert_eq!(parse_ipv4("255.20.3.104"), Some([255, 20, 3, 104]));
    for text in [
        "", "1.2.3", "1.2.3.4.5", "1.2.3.256", "1.2.3.04", "1.2.3.+4", " 1.2.3.4", "1.2.3.", "a.b.c.d",
        "1..2.3", "::ffff:1.2.3.4",
    ] {
        assert_eq!(parse_ipv4(text), None);
    }
    assert_eq!(text_of_address(IpAddress::V4([255, 20, 3, 104])), "255.20.3.104");
}

#[test]
fn ipv6_addresses_in_canonical_form() {
    let six = [0x20, 1, 0x0d, 0xb8, 0, 0, 0, 0, 0, 0, 0, 0, 0, 0, 0, 1];
    assert_eq!(text_of_address(IpAddress::V6([0; 16])), "::");
    assert_eq!(text_of_address(IpAddress::V6(six)), "2001:db8::1");
    assert_eq!(literal_of("[2001:DB8::0:1]:80"), Some("2001:db8::1".to_string()));
    for text in ["2001:db8::1", "[2001:db8::1]", "[2001:db8::1]:65536", "10.0.0.5:80", ""] {
        assert_eq!(literal_of(text), None);
    }
}

#[test]
fn ipv4_socket_addresses() {
    assert_eq!(parse_ipv4_socket("10.0.0.5:0080"), Some([10, 0, 0, 5]));
    assert_eq!(parse_ipv4_socket("10.0.0.5:65535"), Some([10, 0, 0, 5]));
    for text in ["10.0.0.5", "10.0.0.5:", "10.0.0.5:+80", "10.0.0.5:65536", "lab:80", "[::1]:80"] {
        assert_eq!(parse_ipv4_socket(text), None);
    }
    assert!(bracketed("[::1]:80"));
    assert!(!bracketed("::1"));
    assert!(!bracketed(""));
}

#[test]
fn listening_by_default_on_the_loopback_address() {
    assert_eq!(listen_address(None, None), "127.0.0.1:0");
    assert_eq!(listen_address(Some("0.0.0.0".to_string()), Some(8080)), "0.0.0.0:8080");
}
