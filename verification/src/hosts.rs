//! The hosts that tunnels may lead to.
use vstd::hash_set::StringHashSet;
use vstd::prelude::*;

use crate::error::GatewayError;
use crate::net::{
    bracketed, ipv4_socket, ipv4_text, ipv4_value, ipv6_socket, ipv6_text, is_bracketed, literal_of,
    target_literal,
};
use crate::text::{
    all_digits, alphanumeric, chars_of, decimal, is_alphanumeric, is_digit, is_space,
    last_position, law_last_occurrence, law_port_number, law_trimming, lemma_decimal, lower,
    lowered, parse_port, port_value, split_at_last, to_lowercase, trim, trimmed, without_plus,
};

verus! {

/// A host name in the form in which it is compared: without surrounding white space, in lower
/// case.
pub open spec fn normalized(host: Seq<char>) -> Seq<char> {
    lowered(trimmed(host))
}

/// The hosts that a list allows.
pub open spec fn allowed_by(hosts: Seq<String>) -> Set<Seq<char>> {
    Set::new(
        |host: Seq<char>|
            host.len() > 0 && exists|i: int|
                0 <= i < hosts.len() && normalized(#[trigger] hosts[i]@) == host,
    )
}

/// A set of host names.
pub struct AllowedHosts {
    hosts: StringHashSet,
}

impl View for AllowedHosts {
    type V = Set<Seq<char>>;

    closed spec fn view(&self) -> Set<Seq<char>> {
        self.hosts@
    }
}

impl AllowedHosts {
    /// Whether no host is allowed.
    pub fn is_empty(&self) -> (r: bool)
        ensures
            r == (self@ == Set::<Seq<char>>::empty()),
    {
        self.hosts.is_empty()
    }

    /// Whether a host is allowed.
    pub fn contains(&self, host: &str) -> (r: bool)
        ensures
            r == self@.contains(host@),
    {
        self.hosts.contains(host)
    }
}

/// The hosts that a list allows, each in its normal form. Blank entries allow none.
pub fn parse_allowed_hosts(hosts: Vec<String>) -> (r: AllowedHosts)
    ensures
        r@ == allowed_by(hosts@),
{
    let mut r = AllowedHosts { hosts: StringHashSet::new() };
    let mut i: usize = 0;
    assert(r@ =~= allowed_by(hosts@.take(0)));
    while i < hosts.len()
        invariant
            i <= hosts@.len(),
            r@ == allowed_by(hosts@.take(i as int)),
        decreases hosts@.len() - i,
    {
        let host = to_lowercase(trim(hosts[i].as_str()).as_str());
        let ghost before = hosts@.take(i as int);
        let ghost after = hosts@.take(i + 1);
        assert(after == before.push(hosts@[i as int]));
        assert(after[i as int] == hosts@[i as int]);
        assert forall|h: Seq<char>|
            allowed_by(after).contains(h) <==> allowed_by(before).contains(h) || (h == host@
                && host@.len() > 0) by {
            if allowed_by(before).contains(h) {
                let k = choose|k: int|
                    0 <= k < before.len() && normalized(#[trigger] before[k]@) == h;
                assert(after[k] == before[k]);
            }
            if allowed_by(after).contains(h) {
                let k = choose|k: int|
                    0 <= k < after.len() && normalized(#[trigger] after[k]@) == h;
                if k < i {
                    assert(after[k] == before[k]);
                }
            }
        }
        if !host.as_str().is_empty() {
            assert(allowed_by(after) =~= allowed_by(before).insert(host@));
            r.hosts.insert(host);
        } else {
            assert(allowed_by(after) =~= allowed_by(before));
        }
        i = i + 1;
    }
    assert(hosts@.take(hosts@.len() as int) == hosts@);
    r
}

/// A character that a host name may hold: an ASCII letter or digit, a dot or a hyphen.
pub open spec fn is_host_char(c: char) -> bool {
    is_alphanumeric(c) || c == '.' || c == '-'
}

/// A host name: at least one character, all of them such as a host name may hold.
pub open spec fn valid_host(host: Seq<char>) -> bool {
    host.len() > 0 && forall|i: int| 0 <= i < host.len() ==> is_host_char(#[trigger] host[i])
}

/// Whether a text is a host name.
fn host_is_valid(host: &str) -> (r: bool)
    ensures
        r == valid_host(host@),
{
    let chars = chars_of(host);
    let mut i: usize = 0;
    while i < chars.len()
        invariant
            chars@ == host@,
            i <= chars@.len(),
            forall|k: int| 0 <= k < i ==> is_host_char(#[trigger] host@[k]),
        decreases chars@.len() - i,
    {
        let c: char = chars[i];
        if !(alphanumeric(c) || c == '.' || c == '-') {
            assert(!is_host_char(host@[i as int]));
            return false;
        }
        i = i + 1;
    }
    chars.len() > 0
}

/// The host that a target names, as it is looked up in the list of allowed hosts. `literal` is the
/// canonical text of the IPv6 address where the whole target is a socket address with one, which
/// stands in brackets; for a target without a bracket in front it does not matter.
pub open spec fn target_host(
    target: Seq<char>,
    literal: Option<Seq<char>>,
) -> Result<Seq<char>, GatewayError> {
    let colon = last_position(target, ':');
    if is_bracketed(target) && literal is Some {
        Ok(literal->0)
    } else if colon < 0 {
        Err(GatewayError::TargetWithoutPort)
    } else if !valid_host(target.take(colon)) || port_value(target.skip(colon + 1)) is None {
        Err(GatewayError::InvalidTarget)
    } else {
        Ok(lowered(target.take(colon)))
    }
}

/// Whether a tunnel may lead to a target.
pub open spec fn target_verdict(
    target: Seq<char>,
    literal: Option<Seq<char>>,
    allowed: Set<Seq<char>>,
) -> Result<(), GatewayError> {
    match target_host(target, literal) {
        Ok(host) => if allowed.contains(host) {
            Ok(())
        } else {
            Err(GatewayError::HostNotAllowed)
        },
        Err(error) => Err(error),
    }
}

/// The text that an optional string holds.
pub open spec fn optional_text(text: Option<&str>) -> Option<Seq<char>> {
    match text {
        Some(text) => Some(text@),
        None => None,
    }
}

/// Accepts a target with a well-formed host and port whose host is allowed. `literal` is the
/// canonical text of the IPv6 address where the whole target is a socket address with one.
pub fn check_target(target: &str, literal: Option<&str>, allowed: &AllowedHosts) -> (r: Result<
    (),
    GatewayError,
>)
    ensures
        r == target_verdict(target@, optional_text(literal), allowed@),
{
    let host: String = match (bracketed(target), literal) {
        (true, Some(ip)) => ip.to_string(),
        _ => match split_at_last(target, ':') {
            Some((host, port)) => {
                if !host_is_valid(host.as_str()) || parse_port(port.as_str()).is_none() {
                    return Err(GatewayError::InvalidTarget);
                }
                to_lowercase(host.as_str())
            },
            None => {
                return Err(GatewayError::TargetWithoutPort);
            },
        },
    };
    if allowed.contains(host.as_str()) {
        Ok(())
    } else {
        Err(GatewayError::HostNotAllowed)
    }
}

/// Accepts a target with a well-formed host and port whose host is allowed.
pub fn validate_target(target: &str, allowed: &AllowedHosts) -> (r: Result<(), GatewayError>)
    ensures
        r == target_verdict(target@, target_literal(target@), allowed@),
{
    match literal_of(target) {
        Some(literal) => check_target(target, Some(literal.as_str()), allowed),
        None => check_target(target, None, allowed),
    }
}

/// A target is accepted only if its host is on the list.
pub proof fn law_accepted_target_is_allowed(
    target: Seq<char>,
    literal: Option<Seq<char>>,
    allowed: Set<Seq<char>>,
)
    requires
        target_verdict(target, literal, allowed) is Ok,
    ensures
        target_host(target, literal) is Ok,
        allowed.contains(target_host(target, literal)->Ok_0),
{
}

/// With an empty list no target is accepted.
pub proof fn law_empty_list_allows_nothing(target: Seq<char>, literal: Option<Seq<char>>)
    ensures
        target_verdict(target, literal, Set::empty()) is Err,
{
}

/// A well-formed target whose host is on the list, whatever the white space round the entry and
/// the case of the letters, is accepted.
pub proof fn law_listed_host_is_accepted(hosts: Seq<String>, i: int, target: Seq<char>)
    requires
        0 <= i < hosts.len(),
        last_position(target, ':') >= 0,
        valid_host(target.take(last_position(target, ':'))),
        port_value(target.skip(last_position(target, ':') + 1)) is Some,
        normalized(hosts[i]@) == lowered(target.take(last_position(target, ':'))),
    ensures
        target_verdict(target, None, allowed_by(hosts)) is Ok,
{
}

/// The text of an IPv4 address is a host name in lower case.
proof fn lemma_ipv4_text_is_a_host(bytes: Seq<u8>)
    requires
        bytes.len() == 4,
    ensures
        valid_host(ipv4_text(bytes)),
        lowered(ipv4_text(bytes)) == ipv4_text(bytes),
        !is_bracketed(ipv4_text(bytes)),
{
    let text = ipv4_text(bytes);
    let a = decimal(bytes[0] as nat);
    let b = decimal(bytes[1] as nat);
    let c = decimal(bytes[2] as nat);
    let d = decimal(bytes[3] as nat);
    lemma_decimal(bytes[0] as nat);
    lemma_decimal(bytes[1] as nat);
    lemma_decimal(bytes[2] as nat);
    lemma_decimal(bytes[3] as nat);
    assert forall|i: int| 0 <= i < text.len() implies is_digit(#[trigger] text[i]) || text[i]
        == '.' by {
        let after_a = i - a.len() - 1;
        let after_b = after_a - b.len() - 1;
        let after_c = after_b - c.len() - 1;
        if i < a.len() {
            assert(text[i] == a[i]);
        } else if 0 <= after_a < b.len() {
            assert(text[i] == b[after_a]);
        } else if 0 <= after_b < c.len() {
            assert(text[i] == c[after_b]);
        } else if 0 <= after_c < d.len() {
            assert(text[i] == d[after_c]);
        }
    }
    assert(lowered(text) =~= text);
    assert(is_digit(text[0]) || text[0] == '.');
}

/// A target that is a socket address with an IPv4 address names that address, in its canonical
/// text.
pub proof fn law_ipv4_target_names_its_address(target: Seq<char>, literal: Option<Seq<char>>)
    requires
        ipv4_socket(target) is Some,
    ensures
        target_host(target, literal) == Ok::<_, GatewayError>(ipv4_text(ipv4_socket(target)->0)),
{
    let host = target.take(last_position(target, ':'));
    let bytes = ipv4_value(host)->0;
    assert(bytes.len() == 4 && ipv4_text(bytes) == host);
    lemma_ipv4_text_is_a_host(bytes);
    lemma_lowered_position(target);
    assert(host.len() > 0 && host[0] == target[0]);
}

/// A target that is a socket address with an IPv6 address names that address, in its canonical text,
/// however the target writes it.
pub proof fn law_ipv6_target_names_its_address(target: Seq<char>)
    requires
        is_bracketed(target),
        ipv6_socket(target) is Some,
    ensures
        target_host(target, target_literal(target)) == Ok::<_, GatewayError>(
            ipv6_text(ipv6_socket(target)->0),
        ),
{
}

/// Capitals do not change where a colon stands.
proof fn lemma_lowered_position(s: Seq<char>)
    ensures
        last_position(lowered(s), ':') == last_position(s, ':'),
        -1 <= last_position(s, ':') < s.len(),
    decreases s.len(),
{
    if s.len() > 0 {
        lemma_lowered_position(s.drop_last());
        assert(lowered(s).drop_last() == lowered(s.drop_last()));
        assert(lowered(s).last() == lower(s.last()));
    }
}

/// Capitals do not change what port a text writes.
proof fn lemma_lowered_port(s: Seq<char>)
    ensures
        port_value(lowered(s)) == port_value(s),
{
    let digits = without_plus(s);
    let low = without_plus(lowered(s));
    assert(low == lowered(digits));
    if all_digits(digits) {
        assert(low == digits);
    } else {
        let i = choose|i: int| 0 <= i < digits.len() && !is_digit(#[trigger] digits[i]);
        assert(!is_digit(low[i]));
    }
}

/// The case of the letters of a target does not matter.
pub proof fn law_case_of_a_target_does_not_matter(
    target: Seq<char>,
    literal: Option<Seq<char>>,
    allowed: Set<Seq<char>>,
)
    ensures
        target_verdict(lowered(target), literal, allowed) == target_verdict(
            target,
            literal,
            allowed,
        ),
{
    let colon = last_position(target, ':');
    lemma_lowered_position(target);
    assert(target.len() > 0 ==> lowered(target)[0] == lower(target[0]));
    assert(is_bracketed(lowered(target)) == is_bracketed(target));
    if colon >= 0 {
        let host = target.take(colon);
        let port = target.skip(colon + 1);
        assert(lowered(target).take(colon) == lowered(host));
        assert(lowered(target).skip(colon + 1) == lowered(port));
        lemma_lowered_port(port);
        assert(lowered(lowered(host)) == lowered(host));
        assert(valid_host(lowered(host)) == valid_host(host)) by {
            assert forall|i: int| 0 <= i < host.len() implies is_host_char(
                #[trigger] lowered(host)[i],
            ) == is_host_char(host[i]) by {}
            if valid_host(lowered(host)) {
                assert forall|i: int| 0 <= i < host.len() implies is_host_char(
                    #[trigger] host[i],
                ) by {
                    assert(is_host_char(lowered(host)[i]));
                }
            }
        }
    }
}

/// A character of a host name, spelled out.
pub open spec fn is_letter_digit_dot_or_hyphen(c: char) -> bool {
    ||| 'a' <= c <= 'z'
    ||| 'A' <= c <= 'Z'
    ||| '0' <= c <= '9'
    ||| c == '.'
    ||| c == '-'
}

/// The digits of a number hold no colon.
proof fn lemma_no_colon(n: nat)
    ensures
        !decimal(n).contains(':'),
{
    lemma_decimal(n);
    if decimal(n).contains(':') {
        assert(is_digit(decimal(n)[decimal(n).index_of(':')]));
    }
}

/// A target of a host name, a colon and a port number is accepted exactly where the host in lower
/// case is allowed: a host name is made of letters, digits, dots and hyphens, at least one.
pub proof fn law_well_formed_target(
    host: Seq<char>,
    port: nat,
    literal: Option<Seq<char>>,
    allowed: Set<Seq<char>>,
)
    requires
        host.len() > 0,
        forall|i: int|
            0 <= i < host.len() ==> is_letter_digit_dot_or_hyphen(#[trigger] host[i]),
        port <= 65_535,
    ensures
        target_host(host.push(':') + decimal(port), literal) == Ok::<_, GatewayError>(
            lowered(host),
        ),
        target_verdict(host.push(':') + decimal(port), literal, allowed) == (if allowed.contains(
            lowered(host),
        ) {
            Ok::<(), GatewayError>(())
        } else {
            Err(GatewayError::HostNotAllowed)
        }),
{
    let target = host.push(':') + decimal(port);
    lemma_no_colon(port);
    law_last_occurrence(host, ':', decimal(port));
    law_port_number(port);
    assert(target.take(host.len() as int) == host);
    assert(target.skip(host.len() as int + 1) == decimal(port));
    assert forall|i: int| 0 <= i < host.len() implies is_host_char(#[trigger] host[i]) by {
        assert(is_letter_digit_dot_or_hyphen(host[i]));
    }
    assert(target[0] == host[0]);
    assert(is_letter_digit_dot_or_hyphen(host[0]));
}

/// A target is malformed where its host is empty or holds another character than a host name may,
/// or where no port number stands behind its last colon; unless it is a socket address with an IPv6
/// address.
pub proof fn law_malformed_target(
    host: Seq<char>,
    port: Seq<char>,
    literal: Option<Seq<char>>,
    allowed: Set<Seq<char>>,
    i: int,
)
    requires
        !port.contains(':'),
        literal is None || host.len() == 0 || host[0] != '[',
        host.len() == 0 || port_value(port) is None || (0 <= i < host.len()
            && !is_letter_digit_dot_or_hyphen(host[i])),
    ensures
        target_verdict(host.push(':') + port, literal, allowed) == Err::<(), _>(
            GatewayError::InvalidTarget,
        ),
{
    let target = host.push(':') + port;
    law_last_occurrence(host, ':', port);
    assert(target.take(host.len() as int) == host);
    assert(target.skip(host.len() as int + 1) == port);
    assert(target[0] == (if host.len() == 0 {
        ':'
    } else {
        host[0]
    }));
    if 0 <= i < host.len() && !is_letter_digit_dot_or_hyphen(host[i]) {
        assert(!is_host_char(host[i]));
    }
}

/// A target without a colon names no port.
pub proof fn law_target_without_colon(
    target: Seq<char>,
    literal: Option<Seq<char>>,
    allowed: Set<Seq<char>>,
)
    requires
        !target.contains(':'),
        literal is None || target.len() == 0 || target[0] != '[',
    ensures
        target_verdict(target, literal, allowed) == Err::<(), _>(GatewayError::TargetWithoutPort),
{
    law_last_occurrence(Seq::empty(), ':', target);
}

/// A target with an IPv6 address is accepted exactly where the text of that address is allowed.
pub proof fn law_ipv6_target_is_looked_up(
    rest: Seq<char>,
    literal: Seq<char>,
    allowed: Set<Seq<char>>,
)
    ensures
        target_verdict(seq!['['] + rest, Some(literal), allowed) == (if allowed.contains(literal) {
            Ok::<(), GatewayError>(())
        } else {
            Err(GatewayError::HostNotAllowed)
        }),
{
    assert((seq!['['] + rest)[0] == '[');
}

/// An entry of the list allows the name in it, in lower case, whatever the white space round it.
pub proof fn law_list_entry_allows_its_host(
    hosts: Seq<String>,
    i: int,
    before: Seq<char>,
    name: Seq<char>,
    after: Seq<char>,
)
    requires
        0 <= i < hosts.len(),
        hosts[i]@ == before + name + after,
        forall|k: int| 0 <= k < before.len() ==> is_space(#[trigger] before[k]),
        forall|k: int| 0 <= k < after.len() ==> is_space(#[trigger] after[k]),
        name.len() > 0,
        !is_space(name[0]),
        !is_space(name.last()),
    ensures
        allowed_by(hosts).contains(lowered(name)),
{
    law_trimming(before, name, after);
    assert(normalized(hosts[i]@) == lowered(name));
    assert(lowered(name).len() > 0);
}

/// Nothing is allowed but what some entry of the list names: its text without the white space round
/// it, in lower case, and never an empty text.
pub proof fn law_only_listed_hosts_are_allowed(hosts: Seq<String>, host: Seq<char>)
    requires
        allowed_by(hosts).contains(host),
    ensures
        host.len() > 0,
        exists|i: int| 0 <= i < hosts.len() && lowered(trimmed((#[trigger] hosts[i])@)) == host,
{
    let i = choose|i: int| 0 <= i < hosts.len() && normalized((#[trigger] hosts[i])@) == host;
    assert(lowered(trimmed(hosts[i]@)) == host);
}

/// An optional text is taken as what it holds.
pub proof fn law_optional_text(text: &str)
    ensures
        optional_text(Some(text)) == Some(text@),
        optional_text(None) is None,
{
}

} // verus!
