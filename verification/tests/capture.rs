use wsrx::capture::{
    append_audit, audit_file, capture_root_in, connection_id, default_capture_root,
    random_connection_id, safe_segment, CaptureSession,
};
use wsrx::clock::{
    millis_shown, now, reading_or_epoch, seconds_shown, unix_timestamp, unix_timestamp_millis,
    Timestamp,
};

#[test]
fn file_names_hold_safe_characters_alone() {
    assert_eq!(safe_segment("lab-1_A"), "lab-1_A");
    assert_eq!(safe_segment("../../etc/passwd"), "etcpasswd");
    assert_eq!(safe_segment("a b\\c:d"), "abcd");
    assert_eq!(safe_segment("实验"), "unknown");
    assert_eq!(safe_segment(""), "unknown");
    assert_eq!(safe_segment("..."), "unknown");
    assert_eq!(safe_segment(&"x".repeat(128)), "x".repeat(128));
    assert_eq!(safe_segment(&"x.".repeat(200)), "x".repeat(128));
    assert_eq!(safe_segment(&safe_segment("a/b/../c")), safe_segment("a/b/../c"));
}

#[test]
fn connection_names() {
    assert_eq!(connection_id(0), "0000000000000000");
    assert_eq!(connection_id(0x0123_4567_89ab_cdef), "0123456789abcdef");
    assert_eq!(connection_id(u64::MAX), "ffffffffffffffff");
}

#[test]
fn random_connection_names_differ() {
    let first = random_connection_id();
    let second = random_connection_id();
    assert_eq!(first.len(), 16);
    assert!(first.bytes().all(|b| b.is_ascii_digit() || (b'a'..=b'f').contains(&b)));
    assert_ne!(first, second);
}

#[test]
fn capture_root_beside_the_registry() {
    assert_eq!(default_capture_root(Some("/srv/gate/state.json")), "/srv/gate");
    assert_eq!(default_capture_root(Some("/state.json")), "/");
    assert_eq!(default_capture_root(Some("state.json")), "");
    assert_eq!(default_capture_root(Some("data/state.json")), "data");
    assert_eq!(default_capture_root(Some("")), "/var/lib/labstreamgate");
    assert_eq!(default_capture_root(Some("/")), "/var/lib/labstreamgate");
    assert_eq!(default_capture_root(Some("/.")), "/var/lib/labstreamgate");
    assert_eq!(default_capture_root(Some("data//state.json/")), "data");
    assert_eq!(default_capture_root(Some("./state.json")), ".");
    assert_eq!(default_capture_root(None), "/var/lib/labstreamgate");
    assert_eq!(capture_root_in(Some("x".to_string())), "x");
}

#[test]
fn capture_session_names_its_file() {
    let session = CaptureSession::start("lab/../1", "00000000000000ff", 7);
    assert_eq!(session.relative_path, "captures/lab1/00000000000000ff.pcap");
    assert_eq!(session.observer.max_bytes, 7);
    assert_eq!(session.finish(), (0, false));
}

#[test]
fn audit_log_is_set_aside_when_it_is_full() {
    assert_eq!(audit_file("lab 1"), "audit/lab1.jsonl");
    let small = append_audit("lab 1", Some(16 * 1024 * 1024 - 1), b"{}");
    assert_eq!(small.file, "audit/lab1.jsonl");
    assert_eq!(small.rotate_to, None);
    assert_eq!(small.bytes, b"{}\n");
    let full = append_audit("lab 1", Some(16 * 1024 * 1024), b"");
    assert_eq!(full.rotate_to, Some("audit/lab1.jsonl.1".to_string()));
    assert_eq!(full.bytes, b"\n");
    assert_eq!(append_audit("", None, b"").file, "audit/unknown.jsonl");
}

#[test]
fn clock_readings() {
    let moment = Timestamp {
        seconds: 12,
        nanos: 345_678_901,
    };
    assert_eq!(moment.as_millis(), 12_345);
    assert_eq!(moment.subsec_micros(), 345_678);
    assert_eq!(reading_or_epoch(Some(moment)), moment);
    assert_eq!((seconds_shown(Some(moment)), seconds_shown(None)), (12, 0));
    assert_eq!((millis_shown(Some(moment)), millis_shown(None)), (12_345, 0));
    assert_eq!(
        reading_or_epoch(None),
        Timestamp {
            seconds: 0,
            nanos: 0,
        }
    );
}

#[test]
fn clock_shows_the_present() {
    assert!(unix_timestamp() > 1_600_000_000);
    assert!(unix_timestamp_millis() > 1_600_000_000_000);
    assert!(now().nanos < 1_000_000_000);
    let seconds = unix_timestamp() as u128;
    assert!(unix_timestamp_millis() / 1000 >= seconds);
}
