//! Network addresses as plain values.
use vstd::prelude::*;

use crate::text::{
    all_digits, chars_of, decimal, is_digit, last_position, law_last_occurrence, law_port_number,
    lemma_decimal, lemma_last_position, parse_port, port_text, port_value, same_text, split_at_last, without_plus,
};

verus! {

/// An IP address by its bytes, in network order.
#[derive(Clone, Copy, Debug, PartialEq, Eq)]
pub enum IpAddress {
    V4([u8; 4]),
    V6([u8; 16]),
}

/// An IP address and a port.
#[derive(Clone, Copy, Debug, PartialEq, Eq)]
pub struct SocketAddress {
    pub ip: IpAddress,
    pub port: u16,
}

/// The prefix `::ffff:0:0/96`, under which an IPv6 address stands for an IPv4 address.
pub open spec fn is_ipv4_mapped(bytes: Seq<u8>) -> bool {
    &&& forall|i: int| 0 <= i < 10 ==> #[trigger] bytes[i] == 0
    &&& bytes[10] == 0xff
    &&& bytes[11] == 0xff
}

/// The IPv4 bytes that a mapped IPv6 address carries, or the fallback.
pub open spec fn carried_bytes(bytes: Seq<u8>, fallback: Seq<u8>) -> Seq<u8> {
    if is_ipv4_mapped(bytes) {
        bytes.skip(12)
    } else {
        fallback
    }
}

/// The IPv4 bytes that stand for an address: its own, those that a mapped IPv6 address carries,
/// or the fallback.
pub open spec fn ipv4_bytes(address: IpAddress, fallback: Seq<u8>) -> Seq<u8> {
    match address {
        IpAddress::V4(bytes) => bytes@,
        IpAddress::V6(bytes) => carried_bytes(bytes@, fallback),
    }
}

/// The IPv4 address under which an address appears in a capture.
pub fn ipv4_or_documentation(address: IpAddress, fallback: [u8; 4]) -> (r: [u8; 4])
    ensures
        r@ == ipv4_bytes(address, fallback@),
{
    match address {
        IpAddress::V4(bytes) => bytes,
        IpAddress::V6(bytes) => {
            let mut i: usize = 0;
            while i < 10
                invariant
                    i <= 10,
                    address == IpAddress::V6(bytes),
                    forall|k: int| 0 <= k < i ==> #[trigger] bytes@[k] == 0,
                decreases 10 - i,
            {
                if bytes[i] != 0 {
                    return fallback;
                }
                i = i + 1;
            }
            if bytes[10] == 0xff && bytes[11] == 0xff {
                let r: [u8; 4] = [bytes[12], bytes[13], bytes[14], bytes[15]];
                assert(r@ == bytes@.skip(12));
                r
            } else {
                fallback
            }
        },
    }
}

/// The text of an IPv4 address: its four numbers, with dots between them.
pub open spec fn ipv4_text(bytes: Seq<u8>) -> Seq<char> {
    decimal(bytes[0] as nat).push('.') + decimal(bytes[1] as nat).push('.') + decimal(
        bytes[2] as nat,
    ).push('.') + decimal(bytes[3] as nat)
}

/// The IPv4 address that a text writes.
pub open spec fn ipv4_value(text: Seq<char>) -> Option<Seq<u8>> {
    if exists|bytes: Seq<u8>| bytes.len() == 4 && #[trigger] ipv4_text(bytes) == text {
        Some(choose|bytes: Seq<u8>| bytes.len() == 4 && #[trigger] ipv4_text(bytes) == text)
    } else {
        None
    }
}

/// The last number of a dotted text can be read off behind its last dot.
proof fn lemma_last_number(before: Seq<char>, n: u8)
    ensures
        last_position(before.push('.') + decimal(n as nat), '.') == before.len(),
        (before.push('.') + decimal(n as nat)).take(before.len() as int) == before,
        (before.push('.') + decimal(n as nat)).skip(before.len() as int + 1) == decimal(n as nat),
        port_value(decimal(n as nat)) == Some(n as u16),
{
    let digits = decimal(n as nat);
    lemma_decimal(n as nat);
    assert(!digits.contains('.')) by {
        if digits.contains('.') {
            assert(is_digit(digits[digits.index_of('.')]));
        }
    }
    lemma_last_position(before, '.', digits);
    assert(is_digit(digits[0]));
    assert(without_plus(digits) == digits);
}

/// The parts of a text before, between and after its last three dots write four numbers.
spec fn writes_numbers(text: Seq<char>, numbers: Seq<u8>) -> bool {
    let d = last_position(text, '.');
    let abc = text.take(d);
    let c = last_position(abc, '.');
    let ab = abc.take(c);
    let b = last_position(ab, '.');
    &&& d >= 0 && c >= 0 && b >= 0
    &&& port_value(text.skip(d + 1)) == Some(numbers[3] as u16)
    &&& port_value(abc.skip(c + 1)) == Some(numbers[2] as u16)
    &&& port_value(ab.skip(b + 1)) == Some(numbers[1] as u16)
    &&& port_value(ab.take(b)) == Some(numbers[0] as u16)
}

/// The numbers of an address can be read off its text, from the last one on.
proof fn lemma_ipv4_text(bytes: Seq<u8>)
    requires
        bytes.len() == 4,
    ensures
        writes_numbers(ipv4_text(bytes), bytes),
{
    let one = decimal(bytes[0] as nat);
    let two = one.push('.') + decimal(bytes[1] as nat);
    let three = two.push('.') + decimal(bytes[2] as nat);
    assert(one.push('.') + decimal(bytes[1] as nat).push('.') == two.push('.'));
    assert(ipv4_text(bytes) =~= three.push('.') + decimal(bytes[3] as nat));
    lemma_last_number(three, bytes[3]);
    lemma_last_number(two, bytes[2]);
    lemma_last_number(one, bytes[1]);
    lemma_last_number(Seq::empty(), bytes[0]);
}

/// The text of an IPv4 address writes that address and no other.
pub proof fn law_ipv4_text_writes_its_address(bytes: Seq<u8>)
    requires
        bytes.len() == 4,
    ensures
        ipv4_value(ipv4_text(bytes)) == Some(bytes),
{
    let text = ipv4_text(bytes);
    let written = ipv4_value(text)->0;
    assert(written.len() == 4 && ipv4_text(written) == text);
    lemma_ipv4_text(bytes);
    lemma_ipv4_text(written);
    assert(written =~= bytes) by {
        assert(written[0] as u16 == bytes[0] as u16);
        assert(written[1] as u16 == bytes[1] as u16);
        assert(written[2] as u16 == bytes[2] as u16);
        assert(written[3] as u16 == bytes[3] as u16);
    }
}

/// The number that a text writes, where a byte holds it.
fn parse_byte(text: &str) -> (r: Option<u8>)
    ensures
        r is Some <==> (port_value(text@) matches Some(n) && n <= 255),
        r matches Some(n) ==> port_value(text@) == Some(n as u16),
{
    match parse_port(text) {
        Some(n) => if n <= 255 {
            Some(n as u8)
        } else {
            None
        },
        None => None,
    }
}

/// The four numbers that stand between dots in a text, however they are written.
fn dotted_numbers(text: &str) -> (r: Option<[u8; 4]>)
    ensures
        forall|bytes: Seq<u8>|
            bytes.len() == 4 && #[trigger] ipv4_text(bytes) == text@ ==> (r matches Some(numbers)
                && numbers@ == bytes),
{
    assert forall|bytes: Seq<u8>|
        bytes.len() == 4 && #[trigger] ipv4_text(bytes) == text@ implies writes_numbers(
        text@,
        bytes,
    ) by {
        lemma_ipv4_text(bytes);
    }
    let (abc, d): (String, String) = match split_at_last(text, '.') {
        Some(parts) => parts,
        None => {
            return None;
        },
    };
    let (ab, c): (String, String) = match split_at_last(abc.as_str(), '.') {
        Some(parts) => parts,
        None => {
            return None;
        },
    };
    let (a, b): (String, String) = match split_at_last(ab.as_str(), '.') {
        Some(parts) => parts,
        None => {
            return None;
        },
    };
    match (
        parse_byte(a.as_str()),
        parse_byte(b.as_str()),
        parse_byte(c.as_str()),
        parse_byte(d.as_str()),
    ) {
        (Some(a), Some(b), Some(c), Some(d)) => {
            let numbers: [u8; 4] = [a, b, c, d];
            assert forall|bytes: Seq<u8>|
                bytes.len() == 4 && #[trigger] ipv4_text(bytes) == text@ implies numbers@
                == bytes by {
                assert(numbers@[0] == bytes[0]);
                assert(numbers@[1] == bytes[1]);
                assert(numbers@[2] == bytes[2]);
                assert(numbers@[3] == bytes[3]);
            }
            Some(numbers)
        },
        _ => None,
    }
}

/// The text of an IPv4 address.
fn dotted_text(bytes: [u8; 4]) -> (r: String)
    ensures
        r@ == ipv4_text(bytes@),
{
    let mut r = port_text(bytes[0] as u16);
    r.push('.');
    r.append(port_text(bytes[1] as u16).as_str());
    r.push('.');
    r.append(port_text(bytes[2] as u16).as_str());
    r.push('.');
    r.append(port_text(bytes[3] as u16).as_str());
    assert(r@ =~= ipv4_text(bytes@));
    r
}

/// The IPv6 address that a text writes, as `Ipv6Addr::from_str` reads it; `None` where it reads
/// none.
pub uninterp spec fn ipv6_value(text: Seq<char>) -> Option<Seq<u8>>;

/// `Ipv6Addr::from_str`, from the standard library: the bytes of the IPv6 address that a text
/// writes. How such an address is read is not stated.
#[verifier::external_body]
pub(crate) fn parse_ipv6(text: &str) -> (r: Option<[u8; 16]>)
    ensures
        r is Some <==> ipv6_value(text@) is Some,
        r matches Some(bytes) ==> ipv6_value(text@) == Some(bytes@),
{
    let address: Option<core::net::Ipv6Addr> = text.parse().ok();
    address.map(|address| address.octets())
}

/// The IPv6 address of a socket address, as `SocketAddrV6::from_str` reads it; `None` where it reads
/// none.
pub uninterp spec fn ipv6_socket(text: Seq<char>) -> Option<Seq<u8>>;

/// `SocketAddrV6::from_str`, from the standard library: the bytes of the IPv6 address in the socket
/// address that a text writes. How such an address is read is not stated.
#[verifier::external_body]
pub(crate) fn parse_ipv6_socket(text: &str) -> (r: Option<[u8; 16]>)
    ensures
        r is Some <==> ipv6_socket(text@) is Some,
        r matches Some(bytes) ==> ipv6_socket(text@) == Some(bytes@),
{
    let address: Option<core::net::SocketAddrV6> = text.parse().ok();
    address.map(|address| address.ip().octets())
}

/// The text of an IPv6 address, as `Ipv6Addr::to_string` writes it.
pub uninterp spec fn ipv6_text(bytes: Seq<u8>) -> Seq<char>;

/// `Ipv6Addr::to_string`, from the standard library: the text of the IPv6 address with given bytes.
/// Which of its texts that is, is not stated.
#[verifier::external_body]
fn colon_text(bytes: [u8; 16]) -> (r: String)
    ensures
        r@ == ipv6_text(bytes@),
{
    core::net::Ipv6Addr::from(bytes).to_string()
}

/// The text of the IPv6 address where a target is a socket address with one.
pub open spec fn target_literal(target: Seq<char>) -> Option<Seq<char>> {
    match ipv6_socket(target) {
        Some(bytes) => Some(ipv6_text(bytes)),
        None => None,
    }
}

/// The text of the IPv6 address where a target is a socket address with one.
pub fn literal_of(target: &str) -> (r: Option<String>)
    ensures
        r is Some <==> target_literal(target@) is Some,
        r matches Some(text) ==> target_literal(target@) == Some(text@),
{
    match parse_ipv6_socket(target) {
        Some(bytes) => Some(colon_text(bytes)),
        None => None,
    }
}

/// The text of an address.
pub open spec fn address_text(address: IpAddress) -> Seq<char> {
    match address {
        IpAddress::V4(bytes) => ipv4_text(bytes@),
        IpAddress::V6(bytes) => ipv6_text(bytes@),
    }
}

/// The text of an address.
pub fn text_of_address(address: IpAddress) -> (r: String)
    ensures
        r@ == address_text(address),
{
    match address {
        IpAddress::V4(bytes) => dotted_text(bytes),
        IpAddress::V6(bytes) => colon_text(bytes),
    }
}

/// The IPv4 address that a text writes: four numbers below 256 without leading zeros, with dots
/// between them.
pub fn parse_ipv4(text: &str) -> (r: Option<[u8; 4]>)
    ensures
        r is Some <==> ipv4_value(text@) is Some,
        r matches Some(bytes) ==> ipv4_value(text@) == Some(bytes@),
{
    match dotted_numbers(text) {
        Some(bytes) => if same_text(dotted_text(bytes).as_str(), text) {
            Some(bytes)
        } else {
            None
        },
        None => None,
    }
}

/// The IPv4 address of a socket address: the address, a colon, and a port number of digits alone.
pub open spec fn ipv4_socket(text: Seq<char>) -> Option<Seq<u8>> {
    let colon = last_position(text, ':');
    if colon >= 0 && all_digits(text.skip(colon + 1)) && port_value(text.skip(colon + 1)) is Some {
        ipv4_value(text.take(colon))
    } else {
        None
    }
}

/// The IPv4 address of a socket address.
pub fn parse_ipv4_socket(text: &str) -> (r: Option<[u8; 4]>)
    ensures
        r is Some <==> ipv4_socket(text@) is Some,
        r matches Some(bytes) ==> ipv4_socket(text@) == Some(bytes@),
{
    match split_at_last(text, ':') {
        Some((host, port)) => {
            if parse_port(port.as_str()).is_none() {
                return None;
            }
            let chars = chars_of(port.as_str());
            if chars[0] == '+' {
                assert(!is_digit(port@[0]));
                return None;
            }
            assert(all_digits(port@));
            parse_ipv4(host.as_str())
        },
        None => None,
    }
}

/// A text that begins with a bracket, as a socket address with an IPv6 address does.
pub open spec fn is_bracketed(text: Seq<char>) -> bool {
    text.len() > 0 && text[0] == '['
}

/// Whether a text begins with a bracket.
pub fn bracketed(text: &str) -> (r: bool)
    ensures
        r == is_bracketed(text@),
{
    let chars = chars_of(text);
    chars.len() > 0 && chars[0] == '['
}

/// The address to listen on: the loopback address where no host is given, a port of the system's
/// choice where no port is given.
pub open spec fn listen_text(host: Option<String>, port: Option<u16>) -> Seq<char> {
    let host = match host {
        Some(host) => host@,
        None => "127.0.0.1"@,
    };
    let port = match port {
        Some(port) => port,
        None => 0,
    };
    host + ":"@ + decimal(port as nat)
}

/// The address to listen on.
pub fn listen_address(host: Option<String>, port: Option<u16>) -> (r: String)
    ensures
        r@ == listen_text(host, port),
{
    let mut r: String = match host {
        Some(host) => host,
        None => "127.0.0.1".to_string(),
    };
    let port: u16 = match port {
        Some(port) => port,
        None => 0,
    };
    r.append(":");
    r.append(port_text(port).as_str());
    r
}

/// The text of an IPv4 address is that of its bytes in decimal, in their order, with a dot between
/// each two; whatever text writes an address is the text of that address.
pub proof fn law_dotted_decimal(a: u8, b: u8, c: u8, d: u8, text: Seq<char>)
    ensures
        ipv4_text(seq![a, b, c, d]) == decimal(a as nat) + seq!['.'] + decimal(b as nat) + seq!['.']
            + decimal(c as nat) + seq!['.'] + decimal(d as nat),
        ipv4_value(text) matches Some(bytes) ==> bytes.len() == 4 && ipv4_text(bytes) == text,
{
    assert(ipv4_text(seq![a, b, c, d]) =~= decimal(a as nat) + seq!['.'] + decimal(b as nat)
        + seq!['.'] + decimal(c as nat) + seq!['.'] + decimal(d as nat));
}

/// An IPv4 address, a colon and a port number make a socket address with that address; with
/// anything but digits behind the colon, or without one, there is none.
pub proof fn law_ipv4_socket(
    bytes: Seq<u8>,
    port: nat,
    host: Seq<char>,
    other: Seq<char>,
    i: int,
)
    requires
        bytes.len() == 4,
        !other.contains(':'),
    ensures
        port <= 65_535 ==> ipv4_socket(ipv4_text(bytes).push(':') + decimal(port)) == Some(bytes),
        port > 65_535 ==> ipv4_socket(ipv4_text(bytes).push(':') + decimal(port)) is None,
        0 <= i < other.len() && !(48 <= other[i] as u32 <= 57) ==> ipv4_socket(
            host.push(':') + other,
        ) is None,
        other.len() == 0 ==> ipv4_socket(host.push(':') + other) is None,
        ipv4_socket(other) is None,
{
    let text = ipv4_text(bytes);
    let digits = decimal(port);
    lemma_decimal(port);
    assert(!digits.contains(':')) by {
        if digits.contains(':') {
            assert(is_digit(digits[digits.index_of(':')]));
        }
    }
    law_last_occurrence(text, ':', digits);
    law_last_occurrence(host, ':', other);
    law_port_number(port);
    law_ipv4_text_writes_its_address(bytes);
    let socket = text.push(':') + digits;
    assert(socket.take(text.len() as int) == text);
    assert(socket.skip(text.len() as int + 1) == digits);
    assert((host.push(':') + other).skip(host.len() as int + 1) == other);
    if 0 <= i < other.len() && !(48 <= other[i] as u32 <= 57) {
        assert(!is_digit(other[i]));
    }
}

/// An address stands for the IPv4 address that it is, or, as an IPv6 address of ten zero bytes and
/// two of all ones, for the one in its last four bytes; any other IPv6 address stands for none.
pub proof fn law_ipv4_stand_in(four: [u8; 4], six: [u8; 16], fallback: Seq<u8>, i: int)
    ensures
        ipv4_bytes(IpAddress::V4(four), fallback) == four@,
        (forall|k: int| 0 <= k < 10 ==> #[trigger] six@[k] == 0) && six@[10] == 255 && six@[11]
            == 255 ==> ipv4_bytes(IpAddress::V6(six), fallback) == seq![
            six@[12],
            six@[13],
            six@[14],
            six@[15],
        ],
        0 <= i < 10 && six@[i] != 0 ==> ipv4_bytes(IpAddress::V6(six), fallback) == fallback,
        six@[10] != 255 || six@[11] != 255 ==> ipv4_bytes(IpAddress::V6(six), fallback)
            == fallback,
        carried_bytes(six@, fallback) == ipv4_bytes(IpAddress::V6(six), fallback),
{
    assert(six@.skip(12) =~= seq![six@[12], six@[13], six@[14], six@[15]]);
}

/// An address is written as what it is.
pub proof fn law_address_text(four: [u8; 4], six: [u8; 16])
    ensures
        address_text(IpAddress::V4(four)) == ipv4_text(four@),
        address_text(IpAddress::V6(six)) == ipv6_text(six@),
{
}

/// A text is bracketed where a bracket stands in front.
pub proof fn law_bracket(c: char, rest: Seq<char>)
    ensures
        is_bracketed(seq![c] + rest) <==> c as u32 == 91,
        !is_bracketed(Seq::empty()),
{
    assert((seq![c] + rest)[0] == c);
}

/// The address to listen on is the host, a colon and the port in decimal; the loopback address
/// stands in for the host, and 0 for the port, where none is given.
pub proof fn law_listen_text(host: String, port: u16)
    ensures
        listen_text(Some(host), Some(port)) == host@.push(':') + decimal(port as nat),
        listen_text(Some(host), None) == host@.push(':') + decimal(0),
        listen_text(None, Some(port)) == ("127.0.0.1"@).push(':') + decimal(port as nat),
        listen_text(None, None) == ("127.0.0.1"@).push(':') + decimal(0),
{
    reveal_strlit(":");
    assert(host@ + ":"@ == host@.push(':'));
    assert("127.0.0.1"@ + ":"@ == ("127.0.0.1"@).push(':'));
}

/// What a target writes as an IPv6 socket address is looked up by the text of its address.
pub proof fn law_target_literal(target: Seq<char>)
    ensures
        ipv6_socket(target) matches Some(bytes) ==> target_literal(target) == Some(
            ipv6_text(bytes),
        ),
        ipv6_socket(target) is None ==> target_literal(target) is None,
{
}

} // verus!
