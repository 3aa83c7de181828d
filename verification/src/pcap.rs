//! Capture files in the pcap format: each piece of tunnel traffic becomes an Ethernet frame that
//! carries an IPv4 packet with a UDP datagram.
use vstd::arithmetic::div_mod::lemma_mod_multiples_vanish;
use vstd::prelude::*;

use crate::clock::Timestamp;
use crate::net::{
    bracketed, carried_bytes, ipv4_bytes, ipv4_or_documentation, ipv4_socket, ipv4_text,
    ipv6_socket, is_bracketed, law_ipv4_socket, parse_ipv4_socket, parse_ipv6_socket, IpAddress, SocketAddress,
};
use crate::text::{
    decimal, is_digit, last_position, law_last_occurrence, law_port_number, lemma_decimal,
    parse_port, port_value, split_at_last,
};
use crate::traffic::TrafficDirection;

verus! {

/// The most payload that one UDP datagram over IPv4 carries.
pub const MAX_DATAGRAM_PAYLOAD: usize = 65_507;

/// A number's two lowest bytes, the higher one first.
pub open spec fn be16(n: nat) -> Seq<u8> {
    seq![(n / 256 % 256) as u8, (n % 256) as u8]
}

/// A number's two lowest bytes, the lower one first.
pub open spec fn le16(n: nat) -> Seq<u8> {
    seq![(n % 256) as u8, (n / 256 % 256) as u8]
}

/// A number's four lowest bytes, the lowest one first.
pub open spec fn le32(n: nat) -> Seq<u8> {
    seq![
        (n % 256) as u8,
        (n / 256 % 256) as u8,
        (n / 65_536 % 256) as u8,
        (n / 16_777_216 % 256) as u8,
    ]
}

/// The sum of the 16-bit words of `bytes`; an odd last byte does not count.
pub open spec fn word_sum(bytes: Seq<u8>) -> nat
    decreases bytes.len(),
{
    if bytes.len() < 2 {
        0
    } else {
        (bytes[0] * 256 + bytes[1] + word_sum(bytes.skip(2))) as nat
    }
}

/// A sum in one's complement arithmetic of sixteen bits: what is left of it when each carry out
/// of the low sixteen bits has been added back.
pub open spec fn folded(sum: nat) -> nat {
    if sum == 0 {
        0
    } else {
        ((sum - 1) % 65_535 + 1) as nat
    }
}

/// The Internet checksum of `bytes`.
pub open spec fn checksum(bytes: Seq<u8>) -> nat {
    (65_535 - folded(word_sum(bytes))) as nat
}

/// An IPv4 header without options for a UDP datagram: don't fragment, 64 hops.
pub open spec fn ip_header(source: Seq<u8>, dest: Seq<u8>, length: nat, sum: nat) -> Seq<u8> {
    seq![0x45u8, 0] + be16(length) + seq![0u8, 0, 0x40, 0, 64, 17] + be16(sum) + source + dest
}

/// The IPv4 header with its checksum in place.
pub open spec fn sealed_ip_header(source: Seq<u8>, dest: Seq<u8>, length: nat) -> Seq<u8> {
    ip_header(source, dest, length, checksum(ip_header(source, dest, length, 0)))
}

/// A UDP header without a checksum.
pub open spec fn udp_header(source_port: u16, dest_port: u16, length: nat) -> Seq<u8> {
    be16(source_port as nat) + be16(dest_port as nat) + be16(length) + seq![0u8, 0]
}

/// An Ethernet header between unnamed stations, for IPv4.
pub open spec fn ethernet_header() -> Seq<u8> {
    seq![0u8, 0, 0, 0, 0, 0, 0, 0, 0, 0, 0, 0, 0x08, 0x00]
}

/// The frame that carries `payload` from one endpoint to the other.
pub open spec fn udp_frame(
    source: Seq<u8>,
    source_port: u16,
    dest: Seq<u8>,
    dest_port: u16,
    payload: Seq<u8>,
) -> Seq<u8> {
    ethernet_header() + sealed_ip_header(source, dest, 28 + payload.len()) + udp_header(
        source_port,
        dest_port,
        8 + payload.len(),
    ) + payload
}

/// The header that opens a capture file: little-endian pcap 2.4 for Ethernet frames.
pub open spec fn file_header() -> Seq<u8> {
    le32(0xa1b2_c3d4) + le16(2) + le16(4) + le32(0) + le32(0) + le32(65_535) + le32(1)
}

/// One packet of a capture file: when it was seen, its length twice, and the frame.
pub open spec fn packet_record(timestamp: Timestamp, frame: Seq<u8>) -> Seq<u8> {
    le32(timestamp.seconds as nat) + le32((timestamp.nanos / 1000) as nat) + le32(frame.len())
        + le32(frame.len()) + frame
}

/// Every sum of 16-bit words stays below what as many full words make.
proof fn lemma_word_sum_bound(bytes: Seq<u8>)
    ensures
        word_sum(bytes) <= 65_535 * (bytes.len() / 2),
    decreases bytes.len(),
{
    if bytes.len() >= 2 {
        lemma_word_sum_bound(bytes.skip(2));
    }
}

/// Adding the carries back once leaves the folded sum as it is.
proof fn lemma_fold_step(sum: nat)
    ensures
        folded(sum % 65_536 + sum / 65_536) == folded(sum),
{
    let low = sum % 65_536;
    let high = sum / 65_536;
    if sum > 0 {
        assert(sum - 1 == 65_535 * high + (low + high - 1));
        lemma_mod_multiples_vanish(high as int, low + high - 1, 65_535);
    }
}

/// The Internet checksum of a header.
pub fn ipv4_checksum(header: &[u8]) -> (r: u16)
    requires
        word_sum(header@) <= u32::MAX,
    ensures
        r == checksum(header@),
{
    let mut sum: u32 = 0;
    let mut i: usize = 0;
    assert(header@.skip(0) == header@);
    while header.len() - i >= 2
        invariant
            i <= header@.len(),
            word_sum(header@) <= u32::MAX,
            sum + word_sum(header@.skip(i as int)) == word_sum(header@),
        decreases header@.len() - i,
    {
        assert(header@.skip(i as int).skip(2) == header@.skip(i + 2));
        sum = sum + (header[i] as u32 * 256 + header[i + 1] as u32);
        i = i + 2;
    }
    while sum > 0xffff
        invariant
            folded(sum as nat) == folded(word_sum(header@)),
        decreases sum,
    {
        proof {
            lemma_fold_step(sum as nat);
        }
        sum = sum % 65_536 + sum / 65_536;
    }
    0xffff - sum as u16
}

/// Appends a 16-bit number, the higher byte first.
fn push_be16(out: &mut Vec<u8>, n: u16)
    ensures
        final(out)@ == old(out)@ + be16(n as nat),
{
    out.push((n / 256) as u8);
    out.push((n % 256) as u8);
    assert(out@ == old(out)@ + be16(n as nat));
}

/// Appends a 16-bit number, the lower byte first.
fn push_le16(out: &mut Vec<u8>, n: u16)
    ensures
        final(out)@ == old(out)@ + le16(n as nat),
{
    out.push((n % 256) as u8);
    out.push((n / 256) as u8);
    assert(out@ == old(out)@ + le16(n as nat));
}

/// Appends a 32-bit number, the lowest byte first.
fn push_le32(out: &mut Vec<u8>, n: u32)
    ensures
        final(out)@ == old(out)@ + le32(n as nat),
{
    out.push((n % 256) as u8);
    out.push((n / 256 % 256) as u8);
    out.push((n / 65_536 % 256) as u8);
    out.push((n / 16_777_216) as u8);
    assert(out@ == old(out)@ + le32(n as nat));
}

/// Appends bytes.
pub fn push_all(out: &mut Vec<u8>, bytes: &[u8])
    ensures
        final(out)@ == old(out)@ + bytes@,
{
    let mut i: usize = 0;
    while i < bytes.len()
        invariant
            i <= bytes@.len(),
            out@ == old(out)@ + bytes@.take(i as int),
        decreases bytes@.len() - i,
    {
        out.push(bytes[i]);
        i = i + 1;
    }
    assert(bytes@.take(bytes@.len() as int) == bytes@);
}

/// The IPv4 header with its checksum in place; of the length the low sixteen bits are written.
fn build_ip_header(source: [u8; 4], dest: [u8; 4], length: u16) -> (r: Vec<u8>)
    ensures
        r@ == sealed_ip_header(source@, dest@, length as nat),
{
    let mut r: Vec<u8> = Vec::new();
    r.push(0x45);
    r.push(0);
    push_be16(&mut r, length);
    r.push(0);
    r.push(0);
    r.push(0x40);
    r.push(0);
    r.push(64);
    r.push(17);
    push_be16(&mut r, 0);
    push_all(&mut r, source.as_slice());
    push_all(&mut r, dest.as_slice());
    assert(r@ == ip_header(source@, dest@, length as nat, 0));
    proof {
        lemma_word_sum_bound(r@);
    }
    let sum: u16 = ipv4_checksum(r.as_slice());
    r.set(10, (sum / 256) as u8);
    r.set(11, (sum % 256) as u8);
    assert(r@ == ip_header(source@, dest@, length as nat, sum as nat));
    r
}

/// A UDP header; of the length the low sixteen bits are written.
fn build_udp_header(source_port: u16, dest_port: u16, length: u16) -> (r: Vec<u8>)
    ensures
        r@ == udp_header(source_port, dest_port, length as nat),
{
    let mut r: Vec<u8> = Vec::new();
    push_be16(&mut r, source_port);
    push_be16(&mut r, dest_port);
    push_be16(&mut r, length);
    r.push(0);
    r.push(0);
    assert(r@ == udp_header(source_port, dest_port, length as nat));
    r
}

/// The frame that carries `payload` from one endpoint to the other. The length fields hold the
/// low sixteen bits of the lengths.
pub fn build_udp_packet(
    source_ip: [u8; 4],
    source_port: u16,
    dest_ip: [u8; 4],
    dest_port: u16,
    payload: &[u8],
) -> (r: Vec<u8>)
    ensures
        r@ == udp_frame(source_ip@, source_port, dest_ip@, dest_port, payload@),
{
    let mut r: Vec<u8> = Vec::new();
    let mut i: usize = 0;
    while i < 12
        invariant
            i <= 12,
            r@ == ethernet_header().take(i as int),
        decreases 12 - i,
    {
        r.push(0);
        i = i + 1;
    }
    r.push(0x08);
    r.push(0x00);
    assert(r@ == ethernet_header());
    let low: usize = payload.len() % 65_536;
    let ip_length: u16 = ((low + 28) % 65_536) as u16;
    let udp_length: u16 = ((low + 8) % 65_536) as u16;
    let header = build_ip_header(source_ip, dest_ip, ip_length);
    proof {
        lemma_be16_low_bits(ip_length as nat, 28 + payload@.len());
        lemma_be16_low_bits(udp_length as nat, 8 + payload@.len());
    }
    push_all(&mut r, header.as_slice());
    push_all(&mut r, build_udp_header(source_port, dest_port, udp_length).as_slice());
    push_all(&mut r, payload);
    r
}

/// Of a number, the low sixteen bits are written.
#[verifier::spinoff_prover]
proof fn lemma_be16_of_low_bits(a: nat)
    ensures
        be16(a) == be16(a % 65_536),
{
    let q: int = a as int / 65_536;
    let r: int = a as int % 65_536;
    assert(a == 65_536 * q + r);
    assert(a as int / 256 == 256 * q + r / 256);
    lemma_mod_multiples_vanish(q, r / 256, 256);
    lemma_mod_multiples_vanish(256 * q, r, 256);
}

/// Numbers with the same low sixteen bits are written alike.
proof fn lemma_be16_low_bits(a: nat, b: nat)
    requires
        a % 65_536 == b % 65_536,
    ensures
        be16(a) == be16(b),
{
    lemma_be16_of_low_bits(a);
    lemma_be16_of_low_bits(b);
}

/// The header that opens a capture file.
pub fn write_global_header() -> (r: Vec<u8>)
    ensures
        r@ == file_header(),
{
    let mut r: Vec<u8> = Vec::new();
    push_le32(&mut r, 0xa1b2_c3d4);
    push_le16(&mut r, 2);
    push_le16(&mut r, 4);
    push_le32(&mut r, 0);
    push_le32(&mut r, 0);
    push_le32(&mut r, 65_535);
    push_le32(&mut r, 1);
    assert(r@ == file_header());
    r
}

/// Of a number, the low thirty-two bits are written.
#[verifier::spinoff_prover]
proof fn lemma_le32_low_bits(a: nat)
    ensures
        le32(a) == le32(a % 4_294_967_296),
{
    let q: int = a as int / 4_294_967_296;
    let r: int = a as int % 4_294_967_296;
    assert(a == 4_294_967_296 * q + r);
    assert(a as int / 256 == 256 * (65_536 * q) + r / 256);
    assert(a as int / 65_536 == 256 * (256 * q) + r / 65_536);
    assert(a as int / 16_777_216 == 256 * q + r / 16_777_216);
    lemma_mod_multiples_vanish(16_777_216 * q, r, 256);
    lemma_mod_multiples_vanish(65_536 * q, r / 256, 256);
    lemma_mod_multiples_vanish(256 * q, r / 65_536, 256);
    lemma_mod_multiples_vanish(q, r / 16_777_216, 256);
}

/// One packet of a capture file. Of the seconds and of the length the low thirty-two bits are
/// written.
pub fn write_packet(timestamp: Timestamp, frame: &[u8]) -> (r: Vec<u8>)
    ensures
        r@ == packet_record(timestamp, frame@),
{
    let mut r: Vec<u8> = Vec::new();
    let seconds: u32 = (timestamp.seconds % 4_294_967_296) as u32;
    let length: u32 = (frame.len() as u64 % 4_294_967_296) as u32;
    proof {
        lemma_le32_low_bits(timestamp.seconds as nat);
        lemma_le32_low_bits(frame@.len());
    }
    push_le32(&mut r, seconds);
    push_le32(&mut r, timestamp.subsec_micros());
    push_le32(&mut r, length);
    push_le32(&mut r, length);
    push_all(&mut r, frame);
    assert(r@ == packet_record(timestamp, frame@));
    r
}

/// The two ends of a tunnel as a capture shows them.
#[derive(Clone, Copy, Debug, PartialEq, Eq)]
pub struct CaptureEndpoints {
    pub client_ip: [u8; 4],
    pub client_port: u16,
    pub target_ip: [u8; 4],
    pub target_port: u16,
}

/// The port that a target names after its last colon; 0 where it names none.
pub open spec fn target_port(target: Seq<char>) -> u16 {
    let colon = last_position(target, ':');
    if colon >= 0 && port_value(target.skip(colon + 1)) is Some {
        port_value(target.skip(colon + 1))->0
    } else {
        0
    }
}

/// The bytes of an optional IPv6 address.
pub open spec fn optional_octets(address: Option<[u8; 16]>) -> Option<Seq<u8>> {
    match address {
        Some(bytes) => Some(bytes@),
        None => None,
    }
}

/// The IPv4 address of a target that is a socket address, or that stands for it; an address for
/// documentation where there is none. `ipv6` is the address of a target that is a socket address
/// with an IPv6 address, which stands in brackets.
pub open spec fn target_ip(target: Seq<char>, ipv6: Option<Seq<u8>>) -> Seq<u8> {
    if ipv4_socket(target) is Some {
        ipv4_socket(target)->0
    } else if is_bracketed(target) && ipv6 is Some {
        carried_bytes(ipv6->0, seq![192u8, 0, 2, 2])
    } else {
        seq![192u8, 0, 2, 2]
    }
}

/// The pieces of at most `MAX_DATAGRAM_PAYLOAD` bytes into which data is cut.
pub open spec fn pieces(data: Seq<u8>) -> Seq<Seq<u8>>
    decreases data.len(),
{
    if data.len() == 0 {
        Seq::empty()
    } else if data.len() <= MAX_DATAGRAM_PAYLOAD {
        seq![data]
    } else {
        seq![data.take(MAX_DATAGRAM_PAYLOAD as int)] + pieces(
            data.skip(MAX_DATAGRAM_PAYLOAD as int),
        )
    }
}

impl CaptureEndpoints {
    /// The frame in which a capture shows `payload`.
    pub open spec fn frame(self, direction: TrafficDirection, payload: Seq<u8>) -> Seq<u8> {
        match direction {
            TrafficDirection::ClientToTarget => udp_frame(
                self.client_ip@,
                self.client_port,
                self.target_ip@,
                self.target_port,
                payload,
            ),
            TrafficDirection::TargetToClient => udp_frame(
                self.target_ip@,
                self.target_port,
                self.client_ip@,
                self.client_port,
                payload,
            ),
        }
    }

    /// The packets that a capture gains for a message.
    pub open spec fn packets(
        self,
        direction: TrafficDirection,
        data: Seq<u8>,
        timestamp: Timestamp,
    ) -> Seq<Seq<u8>> {
        Seq::new(
            pieces(data).len(),
            |i: int| packet_record(timestamp, self.frame(direction, pieces(data)[i])),
        )
    }

    /// The ends of a tunnel. An address for which no IPv4 address stands, and a target that is no
    /// socket address, get an address out of the range for documentation.
    pub fn new(client: SocketAddress, target: &str) -> (r: Self)
        ensures
            r.client_ip@ == ipv4_bytes(client.ip, seq![192u8, 0, 2, 1]),
            r.client_port == client.port,
            r.target_ip@ == target_ip(target@, ipv6_socket(target@)),
            r.target_port == target_port(target@),
    {
        Self::between(client, target, parse_ipv6_socket(target))
    }

    /// The ends of a tunnel. An address for which no IPv4 address stands, and a target that is no
    /// socket address, get an address out of the range for documentation. `ipv6` is the address of
    /// a target that is a socket address with an IPv6 address.
    pub fn between(client: SocketAddress, target: &str, ipv6: Option<[u8; 16]>) -> (r: Self)
        ensures
            r.client_ip@ == ipv4_bytes(client.ip, seq![192u8, 0, 2, 1]),
            r.client_port == client.port,
            r.target_ip@ == target_ip(target@, optional_octets(ipv6)),
            r.target_port == target_port(target@),
    {
        let client_fallback: [u8; 4] = [192, 0, 2, 1];
        let target_fallback: [u8; 4] = [192, 0, 2, 2];
        assert(client_fallback@ == seq![192u8, 0, 2, 1]);
        assert(target_fallback@ == seq![192u8, 0, 2, 2]);
        let target_port: u16 = match split_at_last(target, ':') {
            Some((_, port)) => match parse_port(port.as_str()) {
                Some(port) => port,
                None => 0,
            },
            None => 0,
        };
        let target_ip: [u8; 4] = match parse_ipv4_socket(target) {
            Some(bytes) => bytes,
            None => match (bracketed(target), ipv6) {
                (true, Some(bytes)) => ipv4_or_documentation(IpAddress::V6(bytes), target_fallback),
                _ => target_fallback,
            },
        };
        CaptureEndpoints {
            client_ip: ipv4_or_documentation(client.ip, client_fallback),
            client_port: client.port,
            target_ip,
            target_port,
        }
    }

    /// The frame in which a capture shows `payload`.
    fn build_frame(&self, direction: TrafficDirection, payload: &[u8]) -> (r: Vec<u8>)
        ensures
            r@ == self.frame(direction, payload@),
    {
        match direction {
            TrafficDirection::ClientToTarget => build_udp_packet(
                self.client_ip,
                self.client_port,
                self.target_ip,
                self.target_port,
                payload,
            ),
            TrafficDirection::TargetToClient => build_udp_packet(
                self.target_ip,
                self.target_port,
                self.client_ip,
                self.client_port,
                payload,
            ),
        }
    }
}

/// The packets to append to a capture file for a message, in order: one for each piece of at most
/// `MAX_DATAGRAM_PAYLOAD` bytes.
pub fn write_capture(
    endpoints: &CaptureEndpoints,
    direction: TrafficDirection,
    data: &[u8],
    timestamp: Timestamp,
) -> (r: Vec<Vec<u8>>)
    ensures
        r@.len() == endpoints.packets(direction, data@, timestamp).len(),
        forall|i: int|
            0 <= i < r@.len() ==> (#[trigger] r@[i])@ == endpoints.packets(
                direction,
                data@,
                timestamp,
            )[i],
{
    let mut r: Vec<Vec<u8>> = Vec::new();
    let mut done: usize = 0;
    let ghost all = pieces(data@);
    assert(data@.skip(0) == data@);
    while done < data.len()
        invariant
            done <= data@.len(),
            all == pieces(data@),
            r@.len() <= all.len(),
            all.skip(r@.len() as int) == pieces(data@.skip(done as int)),
            forall|i: int|
                0 <= i < r@.len() ==> (#[trigger] r@[i])@ == packet_record(
                    timestamp,
                    endpoints.frame(direction, all[i]),
                ),
        decreases data@.len() - done,
    {
        let rest: usize = data.len() - done;
        let size: usize = if rest < MAX_DATAGRAM_PAYLOAD {
            rest
        } else {
            MAX_DATAGRAM_PAYLOAD
        };
        let ghost before = r@;
        let ghost tail = data@.skip(done as int);
        let piece = vstd::slice::slice_subrange(data, done, done + size);
        assert(piece@ == tail.take(size as int));
        assert(tail.take(tail.len() as int) == tail);
        assert(pieces(tail).len() > 0 && pieces(tail)[0] == piece@);
        assert(all.skip(before.len() as int).len() > 0);
        assert(all[before.len() as int] == all.skip(before.len() as int)[0]);
        let frame = endpoints.build_frame(direction, piece);
        r.push(write_packet(timestamp, frame.as_slice()));
        assert(tail.skip(size as int) == data@.skip(done + size));
        assert(all.skip(before.len() as int + 1) == all.skip(before.len() as int).skip(1));
        assert(pieces(tail).skip(1) == pieces(tail.skip(size as int)));
        done = done + size;
    }
    assert(all.len() == r@.len()) by {
        assert(pieces(data@.skip(done as int)).len() == 0);
    }
    r
}

/// The bytes of all pieces, one after the other.
pub open spec fn joined(parts: Seq<Seq<u8>>) -> Seq<u8>
    decreases parts.len(),
{
    if parts.len() == 0 {
        Seq::empty()
    } else {
        parts[0] + joined(parts.drop_first())
    }
}

/// The payload that a frame carries.
pub open spec fn frame_payload(frame: Seq<u8>) -> Seq<u8> {
    frame.skip(42)
}

/// The frame that a packet of a capture file holds.
pub open spec fn recorded_frame(packet: Seq<u8>) -> Seq<u8> {
    packet.skip(16)
}

/// Words add up part by part where the first part has an even length.
proof fn lemma_word_sum_concat(a: Seq<u8>, b: Seq<u8>)
    requires
        a.len() % 2 == 0,
    ensures
        word_sum(a + b) == word_sum(a) + word_sum(b),
    decreases a.len(),
{
    if a.len() == 0 {
        assert(a + b == b);
    } else {
        lemma_word_sum_concat(a.skip(2), b);
        assert((a + b).skip(2) == a.skip(2) + b);
    }
}

/// A receiver that checks the IPv4 header of any frame finds it intact: the checksum over the
/// whole header, its checksum field included, is zero.
pub proof fn law_ip_header_checksum_verifies(source: Seq<u8>, dest: Seq<u8>, length: nat)
    requires
        source.len() == 4,
        dest.len() == 4,
    ensures
        checksum(sealed_ip_header(source, dest, length)) == 0,
{
    let before = seq![0x45u8, 0] + be16(length) + seq![0u8, 0, 0x40, 0, 64, 17];
    let after = source + dest;
    let blank = ip_header(source, dest, length, 0);
    let sum = checksum(blank);
    let header = ip_header(source, dest, length, sum);
    assert(blank == before + (be16(0) + after));
    assert(header == before + (be16(sum) + after));
    lemma_word_sum_concat(before, be16(0) + after);
    lemma_word_sum_concat(before, be16(sum) + after);
    lemma_word_sum_concat(be16(0), after);
    lemma_word_sum_concat(be16(sum), after);
    reveal_with_fuel(word_sum, 2);
    assert(be16(sum).skip(2).len() == 0);
    assert(be16(0).skip(2).len() == 0);
    assert(word_sum(be16(sum)) == sum);
    assert(word_sum(be16(0)) == 0);
    assert(word_sum(before) >= 0x4500) by {
        assert(before[0] == 0x45);
    }
    let total = word_sum(blank);
    assert(word_sum(header) == total + sum);
    let rest = ((total - 1) % 65_535) as int;
    let turns = (total - 1) / 65_535;
    assert(total - 1 == 65_535 * turns + rest);
    assert(total + sum - 1 == 65_535 * turns + 65_534 + 0);
    lemma_mod_multiples_vanish(turns, 65_534, 65_535);
}

/// Each piece is within what a datagram carries, so the length fields of its frame are exact, and
/// the pieces together are the data.
pub proof fn law_pieces_make_up_the_data(data: Seq<u8>)
    ensures
        joined(pieces(data)) == data,
        forall|i: int|
            0 <= i < pieces(data).len() ==> 0 < (#[trigger] pieces(data)[i]).len()
                <= MAX_DATAGRAM_PAYLOAD && 28 + pieces(data)[i].len() <= 0xffff,
    decreases data.len(),
{
    if data.len() == 0 {
    } else if data.len() <= MAX_DATAGRAM_PAYLOAD {
        reveal_with_fuel(joined, 2);
        assert(joined(pieces(data)) == data);
    } else {
        let rest = data.skip(MAX_DATAGRAM_PAYLOAD as int);
        law_pieces_make_up_the_data(rest);
        assert(pieces(data).drop_first() == pieces(rest));
        assert(joined(pieces(data)) == data);
        assert forall|i: int| 0 <= i < pieces(data).len() implies 0 < (#[trigger] pieces(
            data,
        )[i]).len() <= MAX_DATAGRAM_PAYLOAD by {
            if i > 0 {
                assert(pieces(data)[i] == pieces(rest)[i - 1]);
            }
        }
    }
}

/// What a capture file gains for a message gives the message back: the payloads of the recorded
/// frames, one after the other, are its bytes.
pub proof fn law_capture_keeps_the_payload(
    endpoints: CaptureEndpoints,
    direction: TrafficDirection,
    data: Seq<u8>,
    timestamp: Timestamp,
)
    ensures
        joined(
            endpoints.packets(direction, data, timestamp).map_values(
                |packet: Seq<u8>| frame_payload(recorded_frame(packet)),
            ),
        ) == data,
{
    let packets = endpoints.packets(direction, data, timestamp);
    let payloads = packets.map_values(|packet: Seq<u8>| frame_payload(recorded_frame(packet)));
    assert forall|i: int| 0 <= i < payloads.len() implies payloads[i] == pieces(data)[i] by {
        let frame = endpoints.frame(direction, pieces(data)[i]);
        assert(recorded_frame(packets[i]) == frame);
        assert(frame_payload(frame) == pieces(data)[i]);
    }
    assert(payloads == pieces(data));
    law_pieces_make_up_the_data(data);
}

/// The number that two bytes write, the higher one first.
pub open spec fn read_be16(bytes: Seq<u8>, at: int) -> int {
    bytes[at] * 256 + bytes[at + 1]
}

/// The number that two bytes write, the lower one first.
pub open spec fn read_le16(bytes: Seq<u8>, at: int) -> int {
    bytes[at] + bytes[at + 1] * 256
}

/// The number that four bytes write, the lowest one first.
pub open spec fn read_le32(bytes: Seq<u8>, at: int) -> int {
    bytes[at] + bytes[at + 1] * 256 + bytes[at + 2] * 65_536 + bytes[at + 3] * 16_777_216
}

/// A number of sixteen bits is read back.
#[verifier::spinoff_prover]
proof fn lemma_sixteen_bits(n: nat)
    requires
        n < 65_536,
    ensures
        read_be16(be16(n), 0) == n,
        read_le16(le16(n), 0) == n,
{
    assert(n / 256 < 256);
    assert(n == n / 256 * 256 + n % 256);
}

/// A number of thirty-two bits is read back.
#[verifier::spinoff_prover]
proof fn lemma_thirty_two_bits(n: nat)
    requires
        n < 4_294_967_296,
    ensures
        read_le32(le32(n), 0) == n,
{
    let a = n / 256;
    let b = a / 256;
    let c = b / 256;
    assert(b == n / 65_536);
    assert(c == n / 16_777_216);
    assert(c < 256);
    assert(n == n % 256 + 256 * a);
    assert(a == a % 256 + 256 * b);
    assert(b == b % 256 + 256 * c);
}

/// A number is read back from the bytes that it is written in, as far as they hold it.
pub proof fn law_numbers_are_read_back(n: nat)
    ensures
        be16(n).len() == 2,
        le16(n).len() == 2,
        le32(n).len() == 4,
        read_be16(be16(n), 0) == n % 65_536,
        read_le16(le16(n), 0) == n % 65_536,
        read_le32(le32(n), 0) == n % 4_294_967_296,
{
    lemma_be16_of_low_bits(n);
    assert(le16(n)[0] == be16(n)[1] && le16(n)[1] == be16(n)[0]);
    lemma_sixteen_bits(n % 65_536);
    lemma_le32_low_bits(n);
    lemma_thirty_two_bits(n % 4_294_967_296);
}

/// A packet of a capture file tells when it was seen, in whole seconds and the microseconds beyond
/// them, and twice how many bytes follow its header of sixteen bytes, which are the frame.
pub proof fn law_packet_header(timestamp: Timestamp, frame: Seq<u8>)
    ensures
        ({
            let packet = packet_record(timestamp, frame);
            &&& packet.len() == 16 + frame.len()
            &&& packet.skip(16) == frame
            &&& read_le32(packet, 0) == timestamp.seconds as nat % 4_294_967_296
            &&& read_le32(packet, 4) == timestamp.nanos as nat / 1000
            &&& frame.len() < 4_294_967_296 ==> read_le32(packet, 8) == packet.len() - 16
            &&& frame.len() < 4_294_967_296 ==> read_le32(packet, 12) == packet.len() - 16
        }),
{
    let packet = packet_record(timestamp, frame);
    let seconds = le32(timestamp.seconds as nat);
    let micros = le32((timestamp.nanos / 1000) as nat);
    let length = le32(frame.len());
    law_numbers_are_read_back(timestamp.seconds as nat);
    law_numbers_are_read_back((timestamp.nanos / 1000) as nat);
    law_numbers_are_read_back(frame.len());
    assert(packet.skip(16) == frame);
    assert forall|i: int| 0 <= i < 4 implies packet[i] == #[trigger] seconds[i] && packet[4 + i]
        == micros[i] && packet[8 + i] == length[i] && packet[12 + i] == length[i] by {}
    assert(packet[0] == seconds[0] && packet[1] == seconds[1] && packet[2] == seconds[2]
        && packet[3] == seconds[3]);
    assert(packet[4] == micros[0] && packet[5] == micros[1] && packet[6] == micros[2] && packet[7]
        == micros[3]);
    assert(packet[8] == length[0] && packet[9] == length[1] && packet[10] == length[2]
        && packet[11] == length[3]);
    assert(packet[12] == length[0] && packet[13] == length[1] && packet[14] == length[2]
        && packet[15] == length[3]);
}

/// The frames that a reader finds in the packets of a capture file, who goes from one to the next by
/// the length that each tells.
pub open spec fn frames_read(bytes: Seq<u8>) -> Seq<Seq<u8>>
    decreases bytes.len(),
{
    let length = read_le32(bytes, 8);
    if bytes.len() < 16 || bytes.len() < 16 + length || length < 0 {
        Seq::empty()
    } else {
        seq![bytes.subrange(16, 16 + length)] + frames_read(bytes.skip(16 + length))
    }
}

/// A reader who goes by the lengths that the packets tell gets all frames back, in order.
pub proof fn law_reader_gets_the_frames_back(packets: Seq<(Timestamp, Seq<u8>)>)
    requires
        forall|i: int| 0 <= i < packets.len() ==> (#[trigger] packets[i]).1.len() < 4_294_967_296,
    ensures
        frames_read(
            joined(packets.map_values(|p: (Timestamp, Seq<u8>)| packet_record(p.0, p.1))),
        ) == packets.map_values(|p: (Timestamp, Seq<u8>)| p.1),
    decreases packets.len(),
{
    let records = packets.map_values(|p: (Timestamp, Seq<u8>)| packet_record(p.0, p.1));
    let frames = packets.map_values(|p: (Timestamp, Seq<u8>)| p.1);
    let bytes = joined(records);
    if packets.len() == 0 {
        assert(frames_read(bytes) =~= frames);
    } else {
        let rest = packets.drop_first();
        let first = records[0];
        assert forall|i: int| 0 <= i < rest.len() implies (#[trigger] rest[i]).1.len()
            < 4_294_967_296 by {
            assert(rest[i] == packets[i + 1]);
        }
        law_reader_gets_the_frames_back(rest);
        law_packet_header(packets[0].0, packets[0].1);
        assert(records.drop_first() =~= rest.map_values(
            |p: (Timestamp, Seq<u8>)| packet_record(p.0, p.1),
        ));
        assert(frames.drop_first() =~= rest.map_values(|p: (Timestamp, Seq<u8>)| p.1));
        let tail = joined(records.drop_first());
        assert(bytes == first + tail);
        assert(bytes[8] == first[8] && bytes[9] == first[9] && bytes[10] == first[10] && bytes[11]
            == first[11]);
        let length = read_le32(bytes, 8);
        assert(length == packets[0].1.len());
        assert(bytes.subrange(16, 16 + length) =~= first.skip(16));
        assert(bytes.skip(16 + length) =~= tail);
        assert(frames =~= seq![packets[0].1] + frames.drop_first());
    }
}

/// The fields of a frame, where a reader looks for them: an Ethernet frame for IPv4 without
/// stations; a header for UDP of twenty bytes that is not to be fragmented, with 64 hops, the whole
/// length and the addresses; the ports, the length of the datagram, no checksum; and the payload.
pub proof fn law_fields_of_a_frame(
    source: Seq<u8>,
    source_port: u16,
    dest: Seq<u8>,
    dest_port: u16,
    payload: Seq<u8>,
)
    requires
        source.len() == 4,
        dest.len() == 4,
    ensures
        ({
            let frame = udp_frame(source, source_port, dest, dest_port, payload);
            &&& frame.len() == 42 + payload.len()
            &&& forall|i: int| 0 <= i < 12 ==> #[trigger] frame[i] == 0
            &&& read_be16(frame, 12) == 0x0800
            &&& frame[14] == 0x45 && frame[15] == 0
            &&& read_be16(frame, 16) == (frame.len() - 14) % 65_536
            &&& read_be16(frame, 18) == 0
            &&& read_be16(frame, 20) == 0x4000
            &&& frame[22] == 64 && frame[23] == 17
            &&& frame.subrange(26, 30) == source
            &&& frame.subrange(30, 34) == dest
            &&& read_be16(frame, 34) == source_port
            &&& read_be16(frame, 36) == dest_port
            &&& read_be16(frame, 38) == (frame.len() - 34) % 65_536
            &&& read_be16(frame, 40) == 0
            &&& frame.skip(42) == payload
        }),
{
    let frame = udp_frame(source, source_port, dest, dest_port, payload);
    let header = sealed_ip_header(source, dest, 28 + payload.len());
    let udp = udp_header(source_port, dest_port, 8 + payload.len());
    let whole = be16(28 + payload.len());
    let length = be16(8 + payload.len());
    law_numbers_are_read_back(28 + payload.len());
    law_numbers_are_read_back(8 + payload.len());
    law_numbers_are_read_back(source_port as nat);
    law_numbers_are_read_back(dest_port as nat);
    assert(header.len() == 20);
    assert(udp.len() == 8);
    assert(header[0] == 0x45 && header[1] == 0);
    assert(header[2] == whole[0] && header[3] == whole[1]);
    assert(header[4] == 0 && header[5] == 0 && header[6] == 0x40 && header[7] == 0);
    assert(header[8] == 64 && header[9] == 17);
    assert(udp[0] == be16(source_port as nat)[0] && udp[1] == be16(source_port as nat)[1]);
    assert(udp[2] == be16(dest_port as nat)[0] && udp[3] == be16(dest_port as nat)[1]);
    assert(udp[4] == length[0] && udp[5] == length[1] && udp[6] == 0 && udp[7] == 0);
    assert forall|i: int| 0 <= i < 14 implies #[trigger] frame[i] == ethernet_header()[i] by {}
    assert(frame[12] == ethernet_header()[12] && frame[13] == ethernet_header()[13]);
    assert forall|i: int| 0 <= i < 20 implies frame[14 + i] == #[trigger] header[i] by {}
    assert forall|i: int| 0 <= i < 8 implies frame[34 + i] == #[trigger] udp[i] by {}
    assert(frame[14] == header[0] && frame[15] == header[1] && frame[16] == header[2] && frame[17]
        == header[3] && frame[18] == header[4] && frame[19] == header[5] && frame[20] == header[6]
        && frame[21] == header[7] && frame[22] == header[8] && frame[23] == header[9]);
    assert(frame[34] == udp[0] && frame[35] == udp[1] && frame[36] == udp[2] && frame[37] == udp[3]
        && frame[38] == udp[4] && frame[39] == udp[5] && frame[40] == udp[6] && frame[41]
        == udp[7]);
    assert(header.subrange(12, 16) =~= source);
    assert(header.subrange(16, 20) =~= dest);
    assert(frame.subrange(26, 30) =~= header.subrange(12, 16));
    assert(frame.subrange(30, 34) =~= header.subrange(16, 20));
    assert(frame.skip(42) =~= payload);
}

/// The ten words of an IPv4 header that a frame carries, added up.
pub open spec fn sum_of_header_words(frame: Seq<u8>) -> int {
    read_be16(frame, 14) + read_be16(frame, 16) + read_be16(frame, 18) + read_be16(frame, 20)
        + read_be16(frame, 22) + read_be16(frame, 24) + read_be16(frame, 26) + read_be16(frame, 28)
        + read_be16(frame, 30) + read_be16(frame, 32)
}

/// The words of a header, one by one.
proof fn lemma_words_of_a_header(header: Seq<u8>)
    requires
        header.len() == 20,
    ensures
        word_sum(header) == read_be16(header, 0) + read_be16(header, 2) + read_be16(header, 4)
            + read_be16(header, 6) + read_be16(header, 8) + read_be16(header, 10) + read_be16(
            header,
            12,
        ) + read_be16(header, 14) + read_be16(header, 16) + read_be16(header, 18),
{
    assert(header.skip(2).skip(2) == header.skip(4));
    assert(header.skip(4).skip(2) == header.skip(6));
    assert(header.skip(6).skip(2) == header.skip(8));
    assert(header.skip(8).skip(2) == header.skip(10));
    assert(header.skip(10).skip(2) == header.skip(12));
    assert(header.skip(12).skip(2) == header.skip(14));
    assert(header.skip(14).skip(2) == header.skip(16));
    assert(header.skip(16).skip(2) == header.skip(18));
    assert(word_sum(header.skip(18).skip(2)) == 0);
    assert(word_sum(header.skip(18)) == read_be16(header, 18));
    assert(word_sum(header.skip(16)) == read_be16(header, 16) + word_sum(header.skip(18)));
    assert(word_sum(header.skip(14)) == read_be16(header, 14) + word_sum(header.skip(16)));
    assert(word_sum(header.skip(12)) == read_be16(header, 12) + word_sum(header.skip(14)));
    assert(word_sum(header.skip(10)) == read_be16(header, 10) + word_sum(header.skip(12)));
    assert(word_sum(header.skip(8)) == read_be16(header, 8) + word_sum(header.skip(10)));
    assert(word_sum(header.skip(6)) == read_be16(header, 6) + word_sum(header.skip(8)));
    assert(word_sum(header.skip(4)) == read_be16(header, 4) + word_sum(header.skip(6)));
    assert(word_sum(header.skip(2)) == read_be16(header, 2) + word_sum(header.skip(4)));
}

/// The words of the IPv4 header in a frame, its checksum among them, add up to a multiple of 65 535,
/// which is how a receiver tells that the header is intact; the checksum is the one of the two
/// such words that is not all ones.
pub proof fn law_header_words_add_up(
    source: Seq<u8>,
    source_port: u16,
    dest: Seq<u8>,
    dest_port: u16,
    payload: Seq<u8>,
)
    requires
        source.len() == 4,
        dest.len() == 4,
    ensures
        ({
            let frame = udp_frame(source, source_port, dest, dest_port, payload);
            &&& sum_of_header_words(frame) % 65_535 == 0
            &&& read_be16(frame, 24) < 65_535
        }),
{
    let frame = udp_frame(source, source_port, dest, dest_port, payload);
    let length = 28 + payload.len();
    let header = sealed_ip_header(source, dest, length);
    let sum = checksum(ip_header(source, dest, length, 0));
    law_ip_header_checksum_verifies(source, dest, length);
    assert(header.len() == 20);
    lemma_words_of_a_header(header);
    assert forall|i: int| 0 <= i < 20 implies frame[14 + i] == #[trigger] header[i] by {}
    assert(frame[14] == header[0] && frame[15] == header[1] && frame[16] == header[2] && frame[17]
        == header[3] && frame[18] == header[4] && frame[19] == header[5] && frame[20] == header[6]
        && frame[21] == header[7] && frame[22] == header[8] && frame[23] == header[9]);
    assert(frame[24] == header[10] && frame[25] == header[11] && frame[26] == header[12]
        && frame[27] == header[13] && frame[28] == header[14] && frame[29] == header[15]
        && frame[30] == header[16] && frame[31] == header[17] && frame[32] == header[18]
        && frame[33] == header[19]);
    assert(sum_of_header_words(frame) == word_sum(header));
    assert(folded(word_sum(header)) == 65_535);
    assert((word_sum(header) - 1) % 65_535 == 65_534);
    let blank = ip_header(source, dest, length, 0);
    assert(blank.len() == 20);
    lemma_words_of_a_header(blank);
    assert(blank[0] == 0x45);
    assert(word_sum(blank) > 0);
    law_numbers_are_read_back(sum);
    assert(header[10] == be16(sum)[0] && header[11] == be16(sum)[1]);
}

/// The Internet checksum is what is missing to a multiple of 65 535: the words and their checksum
/// add up to one, and the checksum of nothing but zeros is all ones.
pub proof fn law_checksum(bytes: Seq<u8>)
    ensures
        checksum(bytes) <= 65_535,
        (word_sum(bytes) + checksum(bytes)) % 65_535 == 0,
        word_sum(bytes) == 0 ==> checksum(bytes) == 65_535,
        word_sum(bytes) > 0 ==> checksum(bytes) < 65_535,
{
    let sum = word_sum(bytes);
    if sum > 0 {
        let rest = (sum - 1) % 65_535;
        let turns = (sum - 1) / 65_535;
        assert(sum + checksum(bytes) == 65_535 * (turns + 1) + 0);
        lemma_mod_multiples_vanish(turns + 1, 0, 65_535);
    }
}

/// The words of bytes are pairs, the higher byte first; one byte too many does not count.
pub proof fn law_words_are_pairs(high: u8, low: u8, rest: Seq<u8>)
    ensures
        word_sum(seq![high, low] + rest) == high * 256 + low + word_sum(rest),
        word_sum(seq![high]) == 0,
        word_sum(Seq::empty()) == 0,
{
    assert((seq![high, low] + rest).skip(2) == rest);
}

/// Data is cut into as few pieces as can be: each but the last has 65 507 bytes, and so has the last
/// at most; no data makes no piece.
pub proof fn law_size_of_the_pieces(data: Seq<u8>, i: int)
    ensures
        data.len() == 0 <==> pieces(data).len() == 0,
        0 <= i < pieces(data).len() - 1 ==> pieces(data)[i].len() == 65_507,
        0 <= i < pieces(data).len() ==> 1 <= pieces(data)[i].len() <= 65_507,
    decreases data.len(),
{
    if data.len() > MAX_DATAGRAM_PAYLOAD {
        let rest = data.skip(MAX_DATAGRAM_PAYLOAD as int);
        law_size_of_the_pieces(rest, i - 1);
        if i > 0 {
            assert(0 <= i < pieces(data).len() ==> pieces(data)[i] == pieces(rest)[i - 1]);
        }
        assert(pieces(data)[0].len() == 65_507);
    }
}

/// Each packet that a capture gains for a message tells the time of the message, leads from the end
/// that sent it to the other, and carries the next piece of it.
pub proof fn law_packets_of_a_message(
    endpoints: CaptureEndpoints,
    direction: TrafficDirection,
    data: Seq<u8>,
    timestamp: Timestamp,
    i: int,
)
    requires
        0 <= i < pieces(data).len(),
    ensures
        endpoints.packets(direction, data, timestamp).len() == pieces(data).len(),
        ({
            let packet = endpoints.packets(direction, data, timestamp)[i];
            &&& read_le32(packet, 0) == timestamp.seconds as nat % 4_294_967_296
            &&& read_le32(packet, 4) == timestamp.nanos as nat / 1000
            &&& read_le32(packet, 8) == packet.len() - 16
            &&& packet.skip(58) == pieces(data)[i]
            &&& direction is ClientToTarget ==> {
                &&& packet.subrange(42, 46) == endpoints.client_ip@
                &&& packet.subrange(46, 50) == endpoints.target_ip@
                &&& read_be16(packet, 50) == endpoints.client_port
                &&& read_be16(packet, 52) == endpoints.target_port
            }
            &&& direction is TargetToClient ==> {
                &&& packet.subrange(42, 46) == endpoints.target_ip@
                &&& packet.subrange(46, 50) == endpoints.client_ip@
                &&& read_be16(packet, 50) == endpoints.target_port
                &&& read_be16(packet, 52) == endpoints.client_port
            }
        }),
{
    let packet = endpoints.packets(direction, data, timestamp)[i];
    let frame = endpoints.frame(direction, pieces(data)[i]);
    assert(packet == packet_record(timestamp, frame));
    law_size_of_the_pieces(data, i);
    law_packet_header(timestamp, frame);
    law_fields_of_a_frame(
        endpoints.client_ip@,
        endpoints.client_port,
        endpoints.target_ip@,
        endpoints.target_port,
        pieces(data)[i],
    );
    law_fields_of_a_frame(
        endpoints.target_ip@,
        endpoints.target_port,
        endpoints.client_ip@,
        endpoints.client_port,
        pieces(data)[i],
    );
    assert(frame == packet.skip(16));
    assert(packet.skip(58) =~= frame.skip(42));
    assert(packet.subrange(42, 46) =~= frame.subrange(26, 30));
    assert(packet.subrange(46, 50) =~= frame.subrange(30, 34));
    assert(frame[34] == packet[50] && frame[35] == packet[51] && frame[36] == packet[52]
        && frame[37] == packet[53]);
}

/// The header of a capture file, where a reader looks for its fields: the magic number in the order
/// of little-endian files with microseconds, version 2.4, no time zone, packets of up to 65 535
/// bytes, and Ethernet.
pub proof fn law_fields_of_the_file_header()
    ensures
        file_header().len() == 24,
        read_le32(file_header(), 0) == 0xa1b2_c3d4,
        read_le16(file_header(), 4) == 2,
        read_le16(file_header(), 6) == 4,
        read_le32(file_header(), 8) == 0,
        read_le32(file_header(), 12) == 0,
        read_le32(file_header(), 16) == 65_535,
        read_le32(file_header(), 20) == 1,
{
    let header = file_header();
    law_numbers_are_read_back(0xa1b2_c3d4);
    law_numbers_are_read_back(2);
    law_numbers_are_read_back(4);
    law_numbers_are_read_back(0);
    law_numbers_are_read_back(65_535);
    law_numbers_are_read_back(1);
    assert(header.subrange(0, 4) =~= le32(0xa1b2_c3d4));
    assert(header.subrange(4, 6) =~= le16(2));
    assert(header.subrange(6, 8) =~= le16(4));
    assert(header.subrange(8, 12) =~= le32(0));
    assert(header.subrange(12, 16) =~= le32(0));
    assert(header.subrange(16, 20) =~= le32(65_535));
    assert(header.subrange(20, 24) =~= le32(1));
    assert(header[0] == header.subrange(0, 4)[0] && header[1] == header.subrange(0, 4)[1]
        && header[2] == header.subrange(0, 4)[2] && header[3] == header.subrange(0, 4)[3]);
    assert(header[4] == header.subrange(4, 6)[0] && header[5] == header.subrange(4, 6)[1]);
    assert(header[6] == header.subrange(6, 8)[0] && header[7] == header.subrange(6, 8)[1]);
    assert(header[8] == header.subrange(8, 12)[0] && header[9] == header.subrange(8, 12)[1]
        && header[10] == header.subrange(8, 12)[2] && header[11] == header.subrange(8, 12)[3]);
    assert(header[12] == header.subrange(12, 16)[0] && header[13] == header.subrange(12, 16)[1]
        && header[14] == header.subrange(12, 16)[2] && header[15] == header.subrange(12, 16)[3]);
    assert(header[16] == header.subrange(16, 20)[0] && header[17] == header.subrange(16, 20)[1]
        && header[18] == header.subrange(16, 20)[2] && header[19] == header.subrange(16, 20)[3]);
    assert(header[20] == header.subrange(20, 24)[0] && header[21] == header.subrange(20, 24)[1]
        && header[22] == header.subrange(20, 24)[2] && header[23] == header.subrange(20, 24)[3]);
}

/// A target is shown with the port number behind its last colon, whatever stands before it, and with
/// 0 where there is none.
pub proof fn law_port_of_a_target(host: Seq<char>, port: nat, other: Seq<char>)
    requires
        port <= 65_535,
        !other.contains(':'),
    ensures
        target_port(host.push(':') + decimal(port)) == port,
        port_value(other) is None ==> target_port(host.push(':') + other) == 0,
        target_port(other) == 0,
{
    let digits = decimal(port);
    lemma_decimal(port);
    assert(!digits.contains(':')) by {
        if digits.contains(':') {
            assert(is_digit(digits[digits.index_of(':')]));
        }
    }
    law_last_occurrence(host, ':', digits);
    law_last_occurrence(host, ':', other);
    law_port_number(port);
    assert((host.push(':') + digits).skip(host.len() as int + 1) == digits);
    assert((host.push(':') + other).skip(host.len() as int + 1) == other);
}

/// A target that is an IPv4 address and a port is shown under that address, one with an IPv6 address
/// under the IPv4 address that this carries, and any other under an address for documentation.
pub proof fn law_address_of_a_target(
    bytes: Seq<u8>,
    port: nat,
    target: Seq<char>,
    six: [u8; 16],
    ipv6: Option<Seq<u8>>,
)
    requires
        bytes.len() == 4,
        port <= 65_535,
        ipv4_socket(target) is None,
    ensures
        target_ip(ipv4_text(bytes).push(':') + decimal(port), ipv6) == bytes,
        target.len() > 0 && target[0] == '[' ==> target_ip(target, Some(six@)) == ipv4_bytes(
            IpAddress::V6(six),
            seq![192u8, 0, 2, 2],
        ),
        target.len() == 0 || target[0] != '[' ==> target_ip(target, ipv6) == seq![192u8, 0, 2, 2],
        target_ip(target, None) == seq![192u8, 0, 2, 2],
        optional_octets(Some(six)) == Some(six@),
        optional_octets(None) is None,
{
    law_ipv4_socket(bytes, port, Seq::empty(), Seq::empty(), 0);
}

} // verus!
