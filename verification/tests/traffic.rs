use wsrx::capture::CaptureSession;
use wsrx::traffic::{
    classify_proxy_error, CaptureObserver, ConnectionObserver, ProxyStats, TrafficDirection,
};

#[test]
fn connection_observer_keeps_counts_for_failed_proxies() {
    let mut observer = ConnectionObserver::new(None);
    observer.observe(TrafficDirection::ClientToTarget, b"request");
    observer.observe(TrafficDirection::TargetToClient, b"response");

    assert_eq!(
        observer.stats(),
        ProxyStats {
            client_to_target: 7,
            target_to_client: 8,
        }
    );
}

#[test]
fn reset_after_transfer_is_not_reported_as_failed_traffic() {
    let result = classify_proxy_error(
        "WebSocket protocol error: Connection reset without closing handshake",
        ProxyStats {
            client_to_target: 7,
            target_to_client: 8,
        },
    );

    assert_eq!(result, "completed_ungraceful_close");
}

#[test]
fn errors_other_than_a_late_reset_are_proxy_errors() {
    let idle = ProxyStats::default();
    let one_way = ProxyStats {
        client_to_target: 0,
        target_to_client: 1,
    };
    assert_eq!(
        classify_proxy_error("Connection reset without closing handshake", idle),
        "proxy_error:Connection reset without closing handshake"
    );
    assert_eq!(
        classify_proxy_error("Connection reset without closing handshake", one_way),
        "completed_ungraceful_close"
    );
    assert_eq!(classify_proxy_error("broken pipe", one_way), "proxy_error:broken pipe");
    assert_eq!(classify_proxy_error("", one_way), "proxy_error:");
    assert_eq!(
        classify_proxy_error("Connection reset without closing handshak", one_way),
        "proxy_error:Connection reset without closing handshak"
    );
}

#[test]
fn capture_takes_what_its_limit_leaves() {
    let mut observer = CaptureObserver::new(10);
    assert_eq!(observer.observe(b"abcdef"), Some(b"abcdef".to_vec()));
    observer.packet_queued(6, true);
    assert_eq!((observer.captured, observer.truncated), (6, false));
    assert_eq!(observer.observe(b"ghijkl"), Some(b"ghij".to_vec()));
    observer.packet_queued(4, true);
    assert_eq!((observer.captured, observer.truncated), (10, true));
    assert_eq!(observer.observe(b"m"), None);
    assert_eq!((observer.captured, observer.truncated), (10, true));
}

#[test]
fn capture_that_fits_exactly_is_complete() {
    let mut observer = CaptureObserver::new(4);
    assert_eq!(observer.observe(b""), Some(Vec::new()));
    observer.packet_queued(0, true);
    assert_eq!(observer.observe(b"abcd"), Some(b"abcd".to_vec()));
    observer.packet_queued(4, true);
    assert_eq!((observer.captured, observer.truncated), (4, false));
    assert_eq!(observer.observe(b""), None);
    assert!(observer.truncated);
}

#[test]
fn packet_that_was_not_queued_truncates_the_capture() {
    let mut observer = CaptureObserver::new(100);
    assert_eq!(observer.observe(b"abc"), Some(b"abc".to_vec()));
    observer.packet_queued(3, false);
    assert_eq!((observer.captured, observer.truncated), (0, true));
}

#[test]
fn capture_without_room_takes_nothing() {
    let mut observer = CaptureObserver::new(0);
    assert_eq!(observer.observe(b"abc"), None);
    assert_eq!((observer.captured, observer.truncated), (0, true));
}

#[test]
fn connection_observer_hands_traffic_to_its_capture() {
    let session = CaptureSession::start("lab", "0000000000000001", 5);
    let mut observer = ConnectionObserver::new(Some(session));
    let packet = observer.observe(TrafficDirection::ClientToTarget, b"request");
    assert_eq!(packet, Some(b"reque".to_vec()));
    observer.packet_queued(5, true);
    assert_eq!(observer.observe(TrafficDirection::TargetToClient, b"response"), None);
    assert_eq!(
        observer.stats(),
        ProxyStats {
            client_to_target: 7,
            target_to_client: 8,
        }
    );
    assert_eq!(observer.capture.unwrap().finish(), (5, true));
}

#[test]
fn capture_holds_the_first_bytes_of_the_traffic() {
    let messages: [&[u8]; 4] = [b"first", b"second", b"third", b"fourth"];
    let all: Vec<u8> = messages.concat();
    for limit in [0, 5, 8, 22, 30] {
        let mut observer = CaptureObserver::new(limit);
        let mut kept: Vec<u8> = Vec::new();
        for message in messages {
            if let Some(share) = observer.observe(message) {
                observer.packet_queued(share.len(), true);
                kept.extend(share);
            }
        }
        let expected = all.len().min(limit as usize);
        assert_eq!(kept, all[..expected]);
        assert_eq!(observer.captured, expected as u64);
        assert_eq!(observer.truncated, expected < all.len());
    }
}
