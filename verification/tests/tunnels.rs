use wsrx::error::{internal_io_error, GatewayError, Status};
use wsrx::hosts::{check_target, parse_allowed_hosts, validate_target, AllowedHosts};
use wsrx::limits::ConnectionCounts;
use wsrx::table::Table;
use wsrx::tunnel::{
    instance_of, load_registry, validate_key, Registry, RegistryFile, TunnelRecord, TunnelRequest,
};

const KEY: &str = "abcdefghijklmnop";
const OTHER: &str = "ponmlkjihgfedcba";

fn record(target: &str, expires_at: Option<u64>) -> TunnelRecord {
    TunnelRecord {
        target: target.to_string(),
        expires_at,
        instance_id: "instance".to_string(),
        challenge_id: "challenge".to_string(),
        user_id: "user".to_string(),
        competition_id: Some("competition".to_string()),
        capture: true,
    }
}

fn hosts(list: &[&str]) -> AllowedHosts {
    parse_allowed_hosts(list.iter().map(|host| host.to_string()).collect())
}

#[test]
fn keys_of_sixteen_to_a_hundred_and_twenty_eight_safe_characters() {
    assert_eq!(validate_key(KEY), Ok(()));
    assert_eq!(validate_key("AZaz09-_AZaz09-_"), Ok(()));
    assert_eq!(validate_key(&"k".repeat(128)), Ok(()));
    for key in ["", "abcdefghijklmno", "abcdefghijklmno/", "abcdefghijklmno.", "abcdefghijklmnoß"] {
        assert_eq!(validate_key(key), Err(GatewayError::InvalidKey));
    }
    assert_eq!(validate_key(&"k".repeat(129)), Err(GatewayError::InvalidKey));
    assert_eq!(validate_key(&"ß".repeat(16)), Err(GatewayError::InvalidKey));
}

#[test]
fn expiry_counts_in_the_second_that_it_names() {
    assert!(!record("a:1", Some(10)).is_expired(9));
    assert!(record("a:1", Some(10)).is_expired(10));
    assert!(record("a:1", Some(10)).is_expired(11));
    assert!(!record("a:1", None).is_expired(u64::MAX));
}

#[test]
fn request_becomes_a_record() {
    let request = TunnelRequest {
        key: KEY.to_string(),
        target: "a:1".to_string(),
        expires_at: Some(5),
        instance_id: "instance".to_string(),
        challenge_id: "challenge".to_string(),
        user_id: "user".to_string(),
        competition_id: Some("competition".to_string()),
        capture: true,
    };
    assert_eq!(request.into_record(), record("a:1", Some(5)));
}

#[test]
fn instance_falls_back_to_the_key() {
    let mut anonymous = record("a:1", None);
    assert_eq!(instance_of(&anonymous, KEY), "instance");
    anonymous.instance_id = String::new();
    assert_eq!(instance_of(&anonymous, KEY), KEY);
    assert_eq!(instance_of(&anonymous, &"k".repeat(40)), "k".repeat(32));
}

#[test]
fn opened_tunnel_is_found_until_it_expires() {
    let mut registry = Registry::new();
    registry.insert(KEY, record("a:1", Some(10)));
    registry.insert(OTHER, record("b:2", None));
    assert_eq!(registry.active_record(KEY, 9), Ok(record("a:1", Some(10))));
    assert_eq!(registry.active_record(KEY, 10), Err(GatewayError::TunnelExpired));
    assert_eq!(registry.active_record(KEY, 9), Err(GatewayError::TunnelNotFound));
    assert_eq!(registry.active_record(OTHER, 10), Ok(record("b:2", None)));
}

#[test]
fn later_tunnel_takes_the_place_of_an_earlier_one() {
    let mut registry = Registry::new();
    registry.insert(KEY, record("a:1", None));
    registry.insert(KEY, record("b:2", None));
    assert_eq!(registry.len(), 1);
    assert_eq!(registry.active_record(KEY, 0), Ok(record("b:2", None)));
}

#[test]
fn closed_tunnel_is_gone() {
    let mut registry = Registry::new();
    registry.insert(KEY, record("a:1", None));
    assert_eq!(registry.close_tunnel(KEY), Ok(()));
    assert_eq!(registry.close_tunnel(KEY), Err(GatewayError::TunnelNotFound));
    assert_eq!(registry.active_record(KEY, 0), Err(GatewayError::TunnelNotFound));
}

#[test]
fn cleanup_drops_expired_tunnels_alone() {
    let mut registry = Registry::new();
    registry.insert("first", record("a:1", Some(5)));
    registry.insert("second", record("b:2", Some(6)));
    registry.insert("third", record("c:3", None));
    registry.insert("fourth", record("d:4", Some(1)));
    assert!(registry.remove_expired(5));
    assert!(!registry.remove_expired(5));
    let mut keys: Vec<String> = registry.entries().into_iter().map(|entry| entry.0).collect();
    keys.sort();
    assert_eq!(keys, vec!["second".to_string(), "third".to_string()]);
}

#[test]
fn stored_tunnels_are_served_again() {
    let mut registry = Registry::new();
    registry.insert(KEY, record("a:1", Some(50)));
    registry.insert(OTHER, record("b:2", Some(5)));
    let mut restarted = load_registry(RegistryFile::Entries(registry.entries()), 10);
    assert_eq!(restarted.len(), 1);
    assert_eq!(restarted.active_record(KEY, 49), Ok(record("a:1", Some(50))));
    assert_eq!(restarted.active_record(OTHER, 10), Err(GatewayError::TunnelNotFound));
}

#[test]
fn unusable_registry_file_gives_an_empty_registry() {
    assert_eq!(load_registry(RegistryFile::NotConfigured, 0).len(), 0);
    assert_eq!(load_registry(RegistryFile::Missing, 0).len(), 0);
    assert_eq!(load_registry(RegistryFile::Unreadable, 0).len(), 0);
    assert_eq!(load_registry(RegistryFile::Malformed, 0).len(), 0);
    let twice = vec![
        (KEY.to_string(), record("a:1", None)),
        (KEY.to_string(), record("b:2", None)),
    ];
    let mut registry = load_registry(RegistryFile::Entries(twice), 0);
    assert_eq!(registry.active_record(KEY, 0), Ok(record("b:2", None)));
}

#[test]
fn allowed_hosts_are_normalized() {
    let allowed = hosts(&["  Lab.Example ", "10.0.0.5", "", " \t", "lab.example"]);
    assert!(!allowed.is_empty());
    assert!(allowed.contains("lab.example"));
    assert!(allowed.contains("10.0.0.5"));
    assert!(!allowed.contains("Lab.Example"));
    assert!(!allowed.contains(""));
    assert!(hosts(&["", "  "]).is_empty());
    assert!(hosts(&[]).is_empty());
}

#[test]
fn targets_by_name() {
    let allowed = hosts(&["lab.example"]);
    assert_eq!(validate_target("lab.example:80", &allowed), Ok(()));
    assert_eq!(validate_target("LAB.Example:+80", &allowed), Ok(()));
    for target in ["lab.example", "", "lab example"] {
        assert_eq!(
            validate_target(target, &allowed),
            Err(GatewayError::TargetWithoutPort)
        );
    }
    for target in [
        ":80",
        "lab.example:",
        "lab.example:65536",
        "lab.example:http",
        "lab_example:80",
        "lab.example:80:80",
        "läb.example:80",
    ] {
        assert_eq!(validate_target(target, &allowed), Err(GatewayError::InvalidTarget));
    }
    assert_eq!(
        validate_target("other.example:80", &allowed),
        Err(GatewayError::HostNotAllowed)
    );
}

#[test]
fn targets_by_address() {
    let allowed = hosts(&["10.0.0.5", "2001:db8::1"]);
    assert_eq!(validate_target("10.0.0.5:80", &allowed), Ok(()));
    assert_eq!(validate_target("10.0.0.6:80", &allowed), Err(GatewayError::HostNotAllowed));
    assert_eq!(validate_target("[2001:DB8:0::1]:80", &allowed), Ok(()));
    assert_eq!(validate_target("[2001:db8::1%3]:80", &allowed), Ok(()));
    assert_eq!(
        validate_target("[2001:db8::2]:80", &allowed),
        Err(GatewayError::HostNotAllowed)
    );
    for target in ["[2001:db8::1]:x", "[2001:db8::1]:", "[lab]:80", "2001:db8::1:80"] {
        assert_eq!(validate_target(target, &allowed), Err(GatewayError::InvalidTarget));
    }
    assert_eq!(validate_target("[]", &allowed), Err(GatewayError::TargetWithoutPort));
}

#[test]
fn targets_with_a_given_address() {
    let allowed = hosts(&["10.0.0.5", "2001:db8::1"]);
    assert_eq!(check_target("[2001:DB8::1]:80", Some("2001:db8::1"), &allowed), Ok(()));
    assert_eq!(
        check_target("10.0.0.6:80", Some("10.0.0.5"), &allowed),
        Err(GatewayError::HostNotAllowed)
    );
    assert_eq!(
        check_target("[2001:db8::2]:80", Some("2001:db8::2"), &allowed),
        Err(GatewayError::HostNotAllowed)
    );
    assert_eq!(
        check_target("[2001:db8::1]:80", None, &allowed),
        Err(GatewayError::InvalidTarget)
    );
}

#[test]
fn tunnel_connections_stay_within_the_limit() {
    let mut counts = ConnectionCounts::new();
    assert_eq!(counts.acquire(KEY, 2), Ok(()));
    assert_eq!(counts.acquire(KEY, 2), Ok(()));
    assert_eq!(counts.acquire(KEY, 2), Err(GatewayError::TunnelConnectionLimit));
    assert_eq!(counts.acquire(OTHER, 2), Ok(()));
    assert_eq!(counts.sum(), Some(3));
    counts.release(KEY);
    assert_eq!(counts.sum(), Some(2));
    assert_eq!(counts.acquire(KEY, 2), Ok(()));
    counts.release(KEY);
    counts.release(KEY);
    counts.release(KEY);
    assert_eq!(counts.sum(), Some(1));
    assert_eq!(counts.acquire(KEY, 0), Err(GatewayError::TunnelConnectionLimit));
    assert_eq!(counts.sum(), Some(1));
}

#[test]
fn table_keeps_each_key_once() {
    let mut table: Table<u8> = Table::new();
    table.insert("a", 1);
    table.insert("b", 2);
    table.insert("a", 3);
    assert_eq!(table.len(), 2);
    assert_eq!(table.get("a"), Some(&3));
    assert_eq!(table.get("c"), None);
    assert_eq!(table.key_at(1), "b");
    assert_eq!(table.value_at(1), &2);
    table.remove_at(0);
    assert!(!table.remove("a"));
    assert!(table.remove("b"));
    assert_eq!(table.len(), 0);
}

#[test]
fn refusals_and_their_answers() {
    let cases = [
        (GatewayError::InvalidKey, 400, "key must contain 16-128 URL-safe ASCII characters"),
        (GatewayError::TargetWithoutPort, 400, "target must include a host and port"),
        (GatewayError::InvalidTarget, 400, "invalid tunnel target"),
        (GatewayError::HostNotAllowed, 403, "target host is not allowed"),
        (GatewayError::ExpiryNotInFuture, 400, "expiresAt must be in the future"),
        (GatewayError::TunnelNotFound, 404, "tunnel not found"),
        (GatewayError::TunnelExpired, 410, "tunnel expired"),
        (GatewayError::CounterUnavailable, 500, "connection counter unavailable"),
        (GatewayError::TunnelConnectionLimit, 429, "tunnel connection limit reached"),
        (GatewayError::GatewayConnectionLimit, 503, "gateway connection limit reached"),
        (
            GatewayError::SerializeFailed("x".to_string()),
            500,
            "failed to serialize tunnel registry: x",
        ),
        (internal_io_error("disk full"), 500, "failed to persist tunnel registry: disk full"),
    ];
    for (error, code, text) in cases {
        assert_eq!(error.status().code(), code);
        assert_eq!(error.message(), text);
    }
    assert_eq!(Status::Success.code(), 200);
    assert_eq!(Status::Created.code(), 201);
    assert_eq!(Status::NoContent.code(), 204);
    assert_eq!(Status::Unauthorized.code(), 401);
}
