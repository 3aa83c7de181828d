use wsrx::clock::Timestamp;
use wsrx::net::{ipv4_or_documentation, IpAddress, SocketAddress};
use wsrx::pcap::{
    build_udp_packet, ipv4_checksum, write_capture, write_global_header, write_packet,
    CaptureEndpoints,
};
use wsrx::traffic::TrafficDirection;

const MOMENT: Timestamp = Timestamp {
    seconds: 1_700_000_000,
    nanos: 305_985_000,
};

fn mapped(a: u8, b: u8, c: u8, d: u8) -> [u8; 16] {
    [0, 0, 0, 0, 0, 0, 0, 0, 0, 0, 0xff, 0xff, a, b, c, d]
}

#[test]
fn checksum_of_a_known_header() {
    let header = [
        0x45, 0x00, 0x00, 0x73, 0x00, 0x00, 0x40, 0x00, 0x40, 0x11, 0x00, 0x00, 0xc0, 0xa8, 0x00,
        0x01, 0xc0, 0xa8, 0x00, 0xc7,
    ];
    assert_eq!(ipv4_checksum(&header), 0xb861);
}

#[test]
fn checksum_over_a_header_with_its_checksum_is_zero() {
    let header = [
        0x45, 0x00, 0x00, 0x73, 0x00, 0x00, 0x40, 0x00, 0x40, 0x11, 0xb8, 0x61, 0xc0, 0xa8, 0x00,
        0x01, 0xc0, 0xa8, 0x00, 0xc7,
    ];
    assert_eq!(ipv4_checksum(&header), 0);
    let frame = build_udp_packet([203, 0, 113, 9], 65_535, [198, 51, 100, 77], 1, b"payload");
    assert_eq!(ipv4_checksum(&frame[14..34]), 0);
}

#[test]
fn checksum_edge_cases() {
    assert_eq!(ipv4_checksum(&[]), 0xffff);
    assert_eq!(ipv4_checksum(&[7]), 0xffff);
    assert_eq!(ipv4_checksum(&[0xff, 0xff]), 0);
    assert_eq!(ipv4_checksum(&[0xff, 0xff, 0x00, 0x01]), 0xfffe);
    assert_eq!(ipv4_checksum(&[0x12, 0x34, 0x56]), 0xedcb);
}

#[test]
fn udp_packet_byte_for_byte() {
    let frame = build_udp_packet([192, 0, 2, 1], 1234, [10, 0, 0, 5], 80, b"hi");
    assert_eq!(
        frame,
        vec![
            0, 0, 0, 0, 0, 0, 0, 0, 0, 0, 0, 0, 8, 0, 69, 0, 0, 30, 0, 0, 64, 0, 64, 17, 110, 201,
            192, 0, 2, 1, 10, 0, 0, 5, 4, 210, 0, 80, 0, 10, 0, 0, 104, 105
        ]
    );
}

#[test]
fn udp_packet_without_payload() {
    let frame = build_udp_packet([1, 2, 3, 4], 0, [5, 6, 7, 8], 0, b"");
    assert_eq!(frame.len(), 42);
    assert_eq!(&frame[16..18], &[0, 28]);
    assert_eq!(&frame[38..40], &[0, 8]);
}

#[test]
fn lengths_beyond_sixteen_bits_wrap() {
    let payload = vec![1u8; 65_536];
    let frame = build_udp_packet([1, 2, 3, 4], 0, [5, 6, 7, 8], 0, &payload);
    assert_eq!(frame.len(), 42 + 65_536);
    assert_eq!(&frame[16..18], &[0, 28]);
    assert_eq!(&frame[38..40], &[0, 8]);
}

#[test]
fn file_header_byte_for_byte() {
    assert_eq!(
        write_global_header(),
        vec![
            0xd4, 0xc3, 0xb2, 0xa1, 2, 0, 4, 0, 0, 0, 0, 0, 0, 0, 0, 0, 0xff, 0xff, 0, 0, 1, 0, 0,
            0
        ]
    );
}

#[test]
fn packet_header_byte_for_byte() {
    let packet = write_packet(MOMENT, b"abc");
    assert_eq!(&packet[0..4], &[0x00, 0xf1, 0x53, 0x65]);
    assert_eq!(&packet[4..8], &305_985u32.to_le_bytes());
    assert_eq!(&packet[8..], &[3, 0, 0, 0, 3, 0, 0, 0, b'a', b'b', b'c']);
}

#[test]
fn seconds_beyond_thirty_two_bits_wrap() {
    let moment = Timestamp {
        seconds: (1 << 32) + 5,
        nanos: 999_999_999,
    };
    let packet = write_packet(moment, b"");
    assert_eq!(&packet[0..4], &[5, 0, 0, 0]);
    assert_eq!(&packet[4..8], &999_999u32.to_le_bytes());
}

#[test]
fn mapped_addresses_appear_as_ipv4() {
    let fallback = [192, 0, 2, 1];
    assert_eq!(ipv4_or_documentation(IpAddress::V4([9, 8, 7, 6]), fallback), [9, 8, 7, 6]);
    assert_eq!(ipv4_or_documentation(IpAddress::V6(mapped(9, 8, 7, 6)), fallback), [9, 8, 7, 6]);
    let mut compatible = mapped(9, 8, 7, 6);
    compatible[10] = 0;
    assert_eq!(ipv4_or_documentation(IpAddress::V6(compatible), fallback), fallback);
    let mut global = mapped(9, 8, 7, 6);
    global[0] = 0x20;
    assert_eq!(ipv4_or_documentation(IpAddress::V6(global), fallback), fallback);
}

#[test]
fn endpoints_of_a_capture() {
    let client = SocketAddress {
        ip: IpAddress::V4([203, 0, 113, 9]),
        port: 50_000,
    };
    let named = CaptureEndpoints::new(client, "db.lab:5432");
    assert_eq!(
        named,
        CaptureEndpoints {
            client_ip: [203, 0, 113, 9],
            client_port: 50_000,
            target_ip: [192, 0, 2, 2],
            target_port: 5432,
        }
    );
    let literal = CaptureEndpoints::new(client, "10.1.2.3:22");
    assert_eq!((literal.target_ip, literal.target_port), ([10, 1, 2, 3], 22));
    let v6 = SocketAddress {
        ip: IpAddress::V6([0x20; 16]),
        port: 1,
    };
    let odd = CaptureEndpoints::between(v6, "[2001:db8::1]:99999", Some([0x20; 16]));
    assert_eq!(odd.client_ip, [192, 0, 2, 1]);
    assert_eq!((odd.target_ip, odd.target_port), ([192, 0, 2, 2], 0));
    assert_eq!(CaptureEndpoints::new(v6, "nowhere").target_port, 0);
    let mapped = [0, 0, 0, 0, 0, 0, 0, 0, 0, 0, 0xff, 0xff, 10, 1, 2, 3];
    let carried = CaptureEndpoints::between(v6, "[::ffff:10.1.2.3]:22", Some(mapped));
    assert_eq!(CaptureEndpoints::new(v6, "[::ffff:10.1.2.3]:22"), carried);
    assert_eq!((carried.target_ip, carried.target_port), ([10, 1, 2, 3], 22));
    let signed = CaptureEndpoints::new(v6, "10.1.2.3:+22");
    assert_eq!((signed.target_ip, signed.target_port), ([192, 0, 2, 2], 22));
}

#[test]
fn capture_gives_the_payload_back() {
    let endpoints = CaptureEndpoints {
        client_ip: [192, 0, 2, 1],
        client_port: 1234,
        target_ip: [10, 0, 0, 5],
        target_port: 80,
    };
    let data: Vec<u8> = (0..140_000u32).map(|i| (i % 251) as u8).collect();
    let packets = write_capture(&endpoints, TrafficDirection::ClientToTarget, &data, MOMENT);
    assert_eq!(packets.len(), 3);
    let sizes: Vec<usize> = packets.iter().map(|packet| packet.len() - 58).collect();
    assert_eq!(sizes, vec![65_507, 65_507, 8_986]);
    let mut payload = Vec::new();
    for packet in &packets {
        payload.extend_from_slice(&packet[58..]);
    }
    assert_eq!(payload, data);
    assert_eq!(&packets[0][32..34], &[0xff, 0xff]);
}

#[test]
fn direction_decides_who_sends() {
    let endpoints = CaptureEndpoints {
        client_ip: [192, 0, 2, 1],
        client_port: 1234,
        target_ip: [10, 0, 0, 5],
        target_port: 80,
    };
    let there = write_capture(&endpoints, TrafficDirection::ClientToTarget, b"hi", MOMENT);
    let back = write_capture(&endpoints, TrafficDirection::TargetToClient, b"hi", MOMENT);
    assert_eq!(
        there,
        vec![write_packet(
            MOMENT,
            &build_udp_packet([192, 0, 2, 1], 1234, [10, 0, 0, 5], 80, b"hi")
        )]
    );
    assert_eq!(
        back,
        vec![write_packet(
            MOMENT,
            &build_udp_packet([10, 0, 0, 5], 80, [192, 0, 2, 1], 1234, b"hi")
        )]
    );
    let nothing = write_capture(&endpoints, TrafficDirection::ClientToTarget, b"", MOMENT);
    assert!(nothing.is_empty());
}
