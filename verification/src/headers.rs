//! What the gateway reads out of request headers.
use vstd::prelude::*;
use vstd::utf8::encode_utf8;

use crate::error::Status;
use crate::net::{
    ipv4_value, ipv6_value, parse_ipv4, parse_ipv6, IpAddress, SocketAddress,
};
use crate::text::{trim, trimmed};

verus! {

/// `ConstantTimeEq::ct_eq` on byte slices, from the crate `subtle`: whether two slices have the
/// same length and the same bytes. That the time it takes does not depend on the bytes is not
/// stated.
#[verifier::external_body]
fn ct_eq(left: &[u8], right: &[u8]) -> (r: bool)
    ensures
        r == (left@ == right@),
{
    bool::from(subtle::ConstantTimeEq::ct_eq(left, right))
}

/// Whether two byte strings are the same, in a time that depends on their lengths alone.
pub fn constant_time_eq(left: &[u8], right: &[u8]) -> (r: bool)
    ensures
        r == (left@ == right@),
{
    left.len() == right.len() && ct_eq(left, right)
}

/// A byte that may stand in a header that is read as text: visible ASCII, a space or a tab.
pub open spec fn is_header_byte(b: u8) -> bool {
    (32 <= b && b < 127) || b == 9
}

/// A header that can be read as text.
pub open spec fn is_header_text(value: Seq<u8>) -> bool {
    forall|i: int| 0 <= i < value.len() ==> is_header_byte(#[trigger] value[i])
}

/// Whether a header can be read as text.
pub fn header_is_text(value: &[u8]) -> (r: bool)
    ensures
        r == is_header_text(value@),
{
    let mut i: usize = 0;
    while i < value.len()
        invariant
            i <= value@.len(),
            forall|k: int| 0 <= k < i ==> is_header_byte(#[trigger] value@[k]),
        decreases value@.len() - i,
    {
        let b: u8 = value[i];
        if !((32 <= b && b < 127) || b == 9) {
            assert(!is_header_byte(value@[i as int]));
            return false;
        }
        i = i + 1;
    }
    true
}

/// The bytes of `Bearer` and a space.
pub open spec fn bearer() -> Seq<u8> {
    seq![66u8, 101, 97, 114, 101, 114, 32]
}

/// The credential in an authorization header: what follows the bearer scheme, or the whole value.
pub open spec fn credential(value: Seq<u8>) -> Seq<u8> {
    if bearer().is_prefix_of(value) {
        value.skip(7)
    } else {
        value
    }
}

/// An authorization header grants access: it can be read as text and carries the secret.
pub open spec fn grants_access(header: Option<Seq<u8>>, secret: Seq<u8>) -> bool {
    header matches Some(value) && is_header_text(value) && credential(value) == secret
}

/// The bytes of an optional header.
pub open spec fn optional_bytes(header: Option<&[u8]>) -> Option<Seq<u8>> {
    match header {
        Some(value) => Some(value@),
        None => None,
    }
}

/// The credential in an authorization header.
fn credential_of(value: &[u8]) -> (r: &[u8])
    ensures
        r@ == credential(value@),
{
    let prefix: [u8; 7] = [66, 101, 97, 114, 101, 114, 32];
    assert(prefix@ == bearer());
    if value.len() < 7 {
        return value;
    }
    let mut i: usize = 0;
    while i < 7
        invariant
            i <= 7,
            value@.len() >= 7,
            prefix@ == bearer(),
            forall|k: int| 0 <= k < i ==> value@[k] == bearer()[k],
        decreases 7 - i,
    {
        if value[i] != prefix[i] {
            assert(value@.take(7)[i as int] != bearer()[i as int]);
            return value;
        }
        i = i + 1;
    }
    assert(bearer().is_prefix_of(value@));
    let rest = vstd::slice::slice_subrange(value, 7, value.len());
    assert(rest@ == value@.skip(7));
    rest
}

/// Lets a management request through whose authorization header carries the secret, with or
/// without the bearer scheme; answers any other with `Unauthorized`.
pub fn authorize_management(header: Option<&[u8]>, secret: &str) -> (r: Result<(), Status>)
    ensures
        r == (if grants_access(optional_bytes(header), encode_utf8(secret@)) {
            Ok(())
        } else {
            Err(Status::Unauthorized)
        }),
{
    match header {
        Some(value) => {
            if header_is_text(value) && constant_time_eq(credential_of(value), secret.as_bytes()) {
                Ok(())
            } else {
                Err(Status::Unauthorized)
            }
        },
        None => Err(Status::Unauthorized),
    }
}

/// The characters of a header that can be read as text.
pub open spec fn header_chars(value: Seq<u8>) -> Seq<char> {
    Seq::new(value.len(), |i: int| value[i] as char)
}

/// The part of a text before its first comma; the whole text where it has none.
pub open spec fn before_comma(s: Seq<char>) -> Seq<char>
    decreases s.len(),
{
    if s.len() == 0 || s[0] == ',' {
        Seq::empty()
    } else {
        seq![s[0]] + before_comma(s.drop_first())
    }
}

/// The text in a forwarding header that names the client: its first entry, without the white
/// space round it.
pub open spec fn forwarded_entry(header: Option<Seq<u8>>) -> Option<Seq<char>> {
    match header {
        Some(value) => if is_header_text(value) {
            Some(trimmed(before_comma(header_chars(value))))
        } else {
            None
        },
        None => None,
    }
}

/// The text in a forwarding header that names the client.
pub fn forwarded_for(header: Option<&[u8]>) -> (r: Option<String>)
    ensures
        r is Some <==> forwarded_entry(optional_bytes(header)) is Some,
        r matches Some(text) ==> text@ == forwarded_entry(optional_bytes(header))->0,
{
    match header {
        Some(value) => {
            if !header_is_text(value) {
                return None;
            }
            let mut first = String::new();
            let mut i: usize = 0;
            let ghost all = header_chars(value@);
            assert(all.skip(0) == all);
            while i < value.len() && value[i] != 44
                invariant
                    i <= value@.len(),
                    all == header_chars(value@),
                    first@ + before_comma(all.skip(i as int)) == before_comma(all),
                decreases value@.len() - i,
            {
                let ghost before = first@;
                let ghost rest = all.skip(i as int);
                assert(rest[0] == value@[i as int] as char);
                assert(rest[0] != ',');
                assert(rest.drop_first() == all.skip(i + 1));
                first.push(value[i] as char);
                assert(first@ == before + seq![rest[0]]);
                i = i + 1;
            }
            let ghost rest = all.skip(i as int);
            assert(rest.len() > 0 ==> rest[0] == ',');
            assert(first@ == before_comma(all));
            Some(trim(first.as_str()))
        },
        None => None,
    }
}

/// The address of the client behind a proxy, of which the forwarding header writes `entry` first:
/// the address that the entry writes, where it writes one, with the port of the peer; else the peer
/// itself. `ipv6` is the IPv6 address that the entry writes, where it writes one.
pub fn client_of_entry(entry: Option<&str>, ipv6: Option<[u8; 16]>, peer: SocketAddress) -> (r:
    SocketAddress)
    ensures
        r.port == peer.port,
        match entry {
            Some(text) => match ipv4_value(text@) {
                Some(octets) => r.ip matches IpAddress::V4(bytes) && bytes@ == octets,
                None => r.ip == (match ipv6 {
                    Some(bytes) => IpAddress::V6(bytes),
                    None => peer.ip,
                }),
            },
            None => r.ip == peer.ip,
        },
{
    match entry {
        Some(text) => match (parse_ipv4(text), ipv6) {
            (Some(bytes), _) => SocketAddress { ip: IpAddress::V4(bytes), port: peer.port },
            (None, Some(bytes)) => SocketAddress { ip: IpAddress::V6(bytes), port: peer.port },
            (None, None) => peer,
        },
        None => peer,
    }
}

/// The address of the client behind a proxy: the address that the first entry of the forwarding
/// header writes, where it writes one, with the port of the peer; else the peer itself.
pub fn forwarded_client(header: Option<&[u8]>, peer: SocketAddress) -> (r: SocketAddress)
    ensures
        r.port == peer.port,
        match forwarded_entry(optional_bytes(header)) {
            Some(text) => match ipv4_value(text) {
                Some(octets) => r.ip matches IpAddress::V4(bytes) && bytes@ == octets,
                None => match ipv6_value(text) {
                    Some(octets) => r.ip matches IpAddress::V6(bytes) && bytes@ == octets,
                    None => r.ip == peer.ip,
                },
            },
            None => r.ip == peer.ip,
        },
{
    match forwarded_for(header) {
        Some(text) => {
            let ipv6 = parse_ipv6(text.as_str());
            client_of_entry(Some(text.as_str()), ipv6, peer)
        },
        None => client_of_entry(None, None, peer),
    }
}

/// The secret behind the bearer scheme is accepted, whatever the secret, as long as a header can
/// carry it.
pub proof fn law_bearer_secret_is_accepted(secret: Seq<u8>)
    requires
        is_header_text(secret),
    ensures
        grants_access(Some(bearer() + secret), secret),
{
    let value = bearer() + secret;
    assert(bearer().is_prefix_of(value));
    assert(value.skip(7) == secret);
    assert forall|i: int| 0 <= i < value.len() implies is_header_byte(#[trigger] value[i]) by {
        if i >= 7 {
            assert(value[i] == secret[i - 7]);
        }
    }
}

/// The bare secret is accepted too, unless it begins with the bearer scheme itself.
pub proof fn law_bare_secret_is_accepted(secret: Seq<u8>)
    requires
        is_header_text(secret),
        !bearer().is_prefix_of(secret),
    ensures
        grants_access(Some(secret), secret),
{
}

/// Without a header, and with any other credential, access is refused.
pub proof fn law_other_credentials_are_refused(header: Option<Seq<u8>>, secret: Seq<u8>)
    requires
        header matches Some(value) ==> value != secret && value != bearer() + secret,
    ensures
        !grants_access(header, secret),
{
    if let Some(value) = header {
        if bearer().is_prefix_of(value) {
            assert(value == bearer() + value.skip(7));
        }
    }
}

/// A header can be read as text exactly where each of its bytes is a tab or one from the space to
/// the tilde, and its characters then have the code points of its bytes.
pub proof fn law_header_text(value: Seq<u8>)
    ensures
        is_header_text(value) <==> forall|i: int|
            0 <= i < value.len() ==> #[trigger] value[i] == 9 || 32 <= value[i] <= 126,
        header_chars(value).len() == value.len(),
        forall|i: int|
            0 <= i < value.len() ==> #[trigger] header_chars(value)[i] as u32 == value[i] as u32,
{
    if is_header_text(value) {
        assert forall|i: int| 0 <= i < value.len() implies #[trigger] value[i] == 9 || 32
            <= value[i] <= 126 by {
            assert(is_header_byte(value[i]));
        }
    }
}

/// The secret is granted access behind the word `Bearer` and a space, byte by byte, and a header
/// that cannot be read as text is granted none, nor is a missing one.
pub proof fn law_bearer_scheme(secret: Seq<u8>, value: Seq<u8>, i: int)
    ensures
        is_header_text(secret) ==> grants_access(
            Some(seq![66u8, 101, 97, 114, 101, 114, 32] + secret),
            secret,
        ),
        0 <= i < value.len() && value[i] != 9 && !(32 <= value[i] <= 126) ==> !grants_access(
            Some(value),
            secret,
        ),
        !grants_access(None, secret),
{
    if is_header_text(secret) {
        law_bearer_secret_is_accepted(secret);
        assert(seq![66u8, 101, 97, 114, 101, 114, 32] == bearer());
    }
    if 0 <= i < value.len() && value[i] != 9 && !(32 <= value[i] <= 126) {
        assert(!is_header_byte(value[i]));
    }
}

/// What stands before the first comma of a text.
proof fn lemma_before_comma(first: Seq<char>, rest: Seq<char>)
    requires
        !first.contains(','),
    ensures
        before_comma(first) == first,
        before_comma(first + seq![','] + rest) == first,
    decreases first.len(),
{
    let whole = first + seq![','] + rest;
    if first.len() == 0 {
        assert(whole[0] == ',');
        assert(before_comma(whole) == first);
    } else {
        let tail = first.drop_first();
        assert(first.contains(first[0]));
        assert forall|c: char| tail.contains(c) implies first.contains(c) by {
            let i = tail.index_of(c);
            assert(first[i + 1] == c);
        }
        lemma_before_comma(tail, rest);
        assert(whole[0] == first[0]);
        assert(whole.drop_first() == tail + seq![','] + rest);
        assert(seq![first[0]] + tail == first);
    }
}

/// The first entry of a forwarding header names the client: what stands before the first comma, or
/// the whole header where it has none, without the white space round it. Nothing behind that comma
/// bears on it, further commas included.
pub proof fn law_first_entry_names_the_client(first: Seq<u8>, rest: Seq<u8>)
    requires
        !first.contains(44),
        is_header_text(first),
        is_header_text(rest),
    ensures
        forwarded_entry(Some(first)) == Some(trimmed(header_chars(first))),
        forwarded_entry(Some(first + seq![44u8] + rest)) == Some(trimmed(header_chars(first))),
        !header_chars(first).contains(','),
{
    let whole = first + seq![44u8] + rest;
    let chars = header_chars(first);
    assert(!chars.contains(',')) by {
        if chars.contains(',') {
            let i = chars.index_of(',');
            assert(first[i] == 44);
            assert(first.contains(44));
        }
    }
    assert(header_chars(whole) =~= chars + seq![','] + header_chars(rest));
    lemma_before_comma(chars, header_chars(rest));
    assert forall|i: int| 0 <= i < whole.len() implies is_header_byte(#[trigger] whole[i]) by {
        if i < first.len() {
            assert(whole[i] == first[i]);
        } else if i > first.len() {
            assert(whole[i] == rest[i - first.len() - 1]);
        }
    }
}

/// A forwarding header that cannot be read as text names no client, nor does a missing one.
pub proof fn law_unreadable_entry(value: Seq<u8>, i: int)
    requires
        0 <= i < value.len(),
        value[i] != 9,
        !(32 <= value[i] <= 126),
    ensures
        forwarded_entry(Some(value)) is None,
        forwarded_entry(None) is None,
{
    assert(!is_header_byte(value[i]));
}

/// An optional header is taken by its bytes.
pub proof fn law_optional_bytes(value: &[u8])
    ensures
        optional_bytes(Some(value)) == Some(value@),
        optional_bytes(None) is None,
{
}

} // verus!
