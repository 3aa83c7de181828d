use wsrx::connect::{self, ConnectError, ConnectPlan};
use wsrx::error::{GatewayError, Status};
use wsrx::net::{IpAddress, SocketAddress};
use wsrx::serve::{self, GlobalState, LaunchError, PersistPlan, ServeOptions};
use wsrx::session::{Connection, ConnectionAction, ConnectionEvent, Phase};
use wsrx::traffic::TrafficDirection;
use wsrx::tunnel::{RegistryFile, TunnelRecord, TunnelRequest};

const KEY: &str = "abcdefghijklmnop";
const SECRET: &str = "0123456789abcdef0123456789abcdef";

fn options() -> ServeOptions {
    ServeOptions {
        host: None,
        port: Some(8080),
        secret: Some(SECRET.to_string()),
        state_file: Some("/srv/gate/state.json".to_string()),
        allowed_target_hosts: vec!["Lab.Example".to_string(), "10.0.0.5".to_string()],
        max_connections: 4096,
        capture_root: None,
        max_capture_bytes: 8,
        max_connections_per_tunnel: 2,
        connection_timeout_seconds: 1800,
    }
}

fn gateway() -> GlobalState {
    match serve::launch(options(), None, None) {
        Ok(launch) => launch.state,
        Err(_) => panic!("the gateway starts"),
    }
}

fn launch_error(options: ServeOptions, first: Option<String>) -> Option<LaunchError> {
    serve::launch(options, first, None).err()
}

fn request(key: &str, target: &str, expires_at: Option<u64>) -> TunnelRequest {
    TunnelRequest {
        key: key.to_string(),
        target: target.to_string(),
        expires_at,
        instance_id: "lab 1".to_string(),
        challenge_id: "challenge".to_string(),
        user_id: "user".to_string(),
        competition_id: None,
        capture: true,
    }
}

fn tunnel(capture: bool) -> TunnelRecord {
    let mut record = request(KEY, "10.0.0.5:80", None).into_record();
    record.capture = capture;
    record
}

fn connection(capture: bool) -> Connection {
    Connection::open(
        tunnel(capture),
        KEY,
        "00000000000000ff".to_string(),
        SocketAddress {
            ip: IpAddress::V4([203, 0, 113, 9]),
            port: 4000,
        },
        1_000,
        8,
    )
}

#[test]
fn gateway_starts_with_a_secret_and_a_host() {
    let launch = serve::launch(options(), None, None).ok().unwrap();
    assert_eq!(launch.listen, "127.0.0.1:8080");
    assert_eq!(launch.connection_slots, 4096);
    assert_eq!(launch.state.secret(), SECRET);
    assert_eq!(launch.state.capture_root(), "/srv/gate");
    assert_eq!(launch.state.max_connections_per_tunnel(), 2);
    assert_eq!(launch.state.entries().len(), 0);
}

#[test]
fn gateway_refuses_a_weak_secret() {
    let mut weak = options();
    weak.secret = Some("x".repeat(31));
    assert_eq!(launch_error(weak, Some(SECRET.to_string())), Some(LaunchError::WeakSecret));
    let mut none = options();
    none.secret = None;
    assert_eq!(launch_error(none, None), Some(LaunchError::WeakSecret));
    assert_eq!(
        LaunchError::WeakSecret.message(),
        "WSRX_ADMIN_TOKEN must contain at least 32 characters; refusing to start"
    );
}

#[test]
fn secret_comes_from_the_variables_in_turn() {
    let mut given = options();
    given.secret = None;
    let first = serve::launch(given, Some("a".repeat(32)), Some("b".repeat(32))).ok().unwrap();
    assert_eq!(first.state.secret(), "a".repeat(32));
    let mut given = options();
    given.secret = None;
    let second = serve::launch(given, None, Some("b".repeat(32))).ok().unwrap();
    assert_eq!(second.state.secret(), "b".repeat(32));
}

#[test]
fn gateway_refuses_an_empty_list_of_hosts() {
    let mut blank = options();
    blank.allowed_target_hosts = vec![" ".to_string()];
    assert_eq!(launch_error(blank, None), Some(LaunchError::NoAllowedHosts));
    assert_eq!(
        LaunchError::NoAllowedHosts.message(),
        "WSRX_ALLOWED_TARGET_HOSTS must contain at least one explicit target host"
    );
}

#[test]
fn limits_are_at_least_one() {
    let mut none = options();
    none.max_connections = 0;
    none.max_connections_per_tunnel = 0;
    none.connection_timeout_seconds = 0;
    none.capture_root = Some("/captures".to_string());
    let launch = serve::launch(none, None, None).ok().unwrap();
    assert_eq!(launch.connection_slots, 1);
    assert_eq!(launch.state.max_connections_per_tunnel(), 1);
    assert_eq!(launch.state.connection_timeout_seconds(), 1);
    assert_eq!(launch.state.capture_root(), "/captures");
}

#[test]
fn tunnel_from_its_opening_to_its_end() {
    let mut state = gateway();
    let opened = state.launch_tunnel(request(KEY, "LAB.example:22", Some(100)), 50);
    assert_eq!(opened, Ok(request(KEY, "LAB.example:22", Some(100)).into_record()));
    assert_eq!(state.ping(KEY, 99), Status::Success);
    let (entries, removed) = state.get_tunnels(99);
    assert_eq!((entries.len(), removed), (1, false));
    assert_eq!(state.ping(KEY, 100), Status::Gone);
    assert_eq!(state.ping(KEY, 100), Status::NotFound);
    assert_eq!(state.close_tunnel(KEY), Err(GatewayError::TunnelNotFound));
}

#[test]
fn refused_requests_change_nothing() {
    let mut state = gateway();
    let cases = [
        (request("short", "lab.example:22", None), GatewayError::InvalidKey),
        (request(KEY, "lab.example", None), GatewayError::TargetWithoutPort),
        (request(KEY, "lab.example:x", None), GatewayError::InvalidTarget),
        (request(KEY, "evil.example:22", None), GatewayError::HostNotAllowed),
        (request(KEY, "lab.example:22", Some(50)), GatewayError::ExpiryNotInFuture),
    ];
    for (request, error) in cases {
        assert_eq!(state.launch_tunnel(request, 50), Err(error));
        assert_eq!(state.entries().len(), 0);
    }
    let literal = state.launch_tunnel(request(KEY, "10.0.0.5:22", Some(51)), 50);
    assert!(literal.is_ok());
    assert_eq!(state.close_tunnel(KEY), Ok(()));
}

#[test]
fn listing_drops_what_has_expired() {
    let mut state = gateway();
    state.launch_tunnel(request(KEY, "lab.example:22", Some(60)), 50).unwrap();
    let other = request("ponmlkjihgfedcba", "lab.example:23", None);
    state.launch_tunnel(other, 50).unwrap();
    let (entries, removed) = state.get_tunnels(60);
    assert_eq!((entries.len(), removed), (1, true));
    assert_eq!(entries[0].0, "ponmlkjihgfedcba");
    assert!(!state.remove_expired(60));
}

#[test]
fn restart_restores_the_tunnels() {
    let mut state = gateway();
    state.launch_tunnel(request(KEY, "lab.example:22", Some(60)), 50).unwrap();
    let stored = state.entries();
    let mut restarted = gateway();
    restarted.restore(RegistryFile::Entries(stored), 59);
    assert_eq!(restarted.ping(KEY, 59), Status::Success);
}

#[test]
fn connections_are_admitted_up_to_the_limits() {
    let mut state = gateway();
    state.launch_tunnel(request(KEY, "lab.example:22", Some(60)), 50).unwrap();
    assert!(state.process_traffic(KEY, 50).is_ok());
    assert_eq!(state.claim_slot(KEY, true), Ok(()));
    assert!(state.process_traffic(KEY, 50).is_ok());
    assert_eq!(state.claim_slot(KEY, false), Err(GatewayError::GatewayConnectionLimit));
    assert_eq!(state.health(7).active_tunnel_connections, 1);
    assert!(state.process_traffic(KEY, 50).is_ok());
    assert_eq!(state.process_traffic(KEY, 50), Err(GatewayError::TunnelConnectionLimit));
    let health = state.health(7);
    assert_eq!(health.active_tunnels, 1);
    assert_eq!(health.available_connections, 7);
    assert_eq!(health.active_tunnel_connections, 2);
    state.release(KEY);
    state.release(KEY);
    assert_eq!(state.health(7).active_tunnel_connections, 0);
    assert_eq!(state.process_traffic(KEY, 60), Err(GatewayError::TunnelExpired));
    assert_eq!(state.process_traffic("nothing", 60), Err(GatewayError::TunnelNotFound));
    assert_eq!(state.active_record(KEY, 50), Err(GatewayError::TunnelNotFound));
}

fn plan_for(path: Option<&str>) -> Option<PersistPlan> {
    let mut given = options();
    given.state_file = path.map(|path| path.to_string());
    match serve::launch(given, None, None) {
        Ok(launch) => launch.state.persist_registry(),
        Err(_) => panic!("the gateway starts"),
    }
}

#[test]
fn registry_file_is_replaced_by_way_of_a_temporary_one() {
    assert_eq!(gateway().state_file(), Some("/srv/gate/state.json"));
    for (path, directory, temporary) in [
        ("/srv/gate/state.json", "/srv/gate", "/srv/gate/state.tmp"),
        ("registry", "", "registry.tmp"),
        ("./state.json", ".", "./state.tmp"),
        ("../state.json", "..", "../state.tmp"),
        ("a/../state.json", "a/..", "a/../state.tmp"),
        ("a/./state.json", "a", "a/./state.tmp"),
        ("a//state.json", "a", "a//state.tmp"),
        ("/state", "/", "/state.tmp"),
        ("a.b/state.", "a.b", "a.b/state.tmp"),
        ("data/.state", "data", "data/.state.tmp"),
        ("data/a:b.json", "data", "data/a:b.tmp"),
        ("data/state.json/", "data", "data/state.tmp"),
        ("data/state.json/.//", "data", "data/state.tmp"),
        ("data/..", "data", "data/.."),
        (".", "", "."),
    ] {
        let plan = plan_for(Some(path)).unwrap();
        assert_eq!(plan.directory, Some(directory.to_string()));
        assert_eq!(plan.temporary, temporary);
        assert_eq!(plan.destination, path);
    }
    for path in ["", "/", "/."] {
        let plan = plan_for(Some(path)).unwrap();
        assert_eq!(plan.directory, None);
        assert_eq!(plan.temporary, path);
    }
    assert_eq!(plan_for(None), None);
}

#[test]
fn slots_and_counts_are_freed_together() {
    let mut state = gateway();
    let other = "ponmlkjihgfedcba";
    state.launch_tunnel(request(KEY, "lab.example:22", None), 50).unwrap();
    state.launch_tunnel(request(other, "[2001:db8::1]:22", None), 50).unwrap_err();
    state.launch_tunnel(request(other, "10.0.0.5:22", None), 50).unwrap();
    let slots: usize = 2;
    let mut live: Vec<&str> = Vec::new();
    for key in [KEY, other, KEY, other] {
        if state.process_traffic(key, 50).is_ok()
            && state.claim_slot(key, live.len() < slots).is_ok()
        {
            live.push(key);
        }
        let counted = state.health(slots - live.len()).active_tunnel_connections;
        assert_eq!(counted, live.len());
    }
    assert_eq!(live, vec![KEY, other]);
    for key in live {
        state.release(key);
    }
    assert_eq!(state.health(slots).active_tunnel_connections, 0);
    assert_eq!(state.connection_total(), Some(0));
}

#[test]
fn tunnel_with_a_given_address() {
    let mut state = gateway();
    let six = request(KEY, "[2001:db8::5]:22", None);
    assert!(state.open_tunnel(six, Some("10.0.0.5"), 50).is_ok());
    let six = request(KEY, "[2001:db8::5]:22", None);
    assert_eq!(state.open_tunnel(six, None, 50), Err(GatewayError::InvalidTarget));
}

#[test]
fn connection_with_a_capture() {
    let mut connection = connection(true);
    let path = "captures/lab1/00000000000000ff.pcap".to_string();
    assert!(connection.awaits(&ConnectionEvent::Connected));
    assert_eq!(
        connection.step(ConnectionEvent::Connected),
        ConnectionAction::StartCapture(path.clone())
    );
    assert_eq!(connection.step(ConnectionEvent::CaptureStarted), ConnectionAction::Proxy);
    let packet = connection.observe(TrafficDirection::ClientToTarget, b"request");
    assert_eq!(packet, Some(b"request".to_vec()));
    connection.packet_queued(7, true);
    let packet = connection.observe(TrafficDirection::TargetToClient, b"response");
    assert_eq!(packet, Some(b"r".to_vec()));
    connection.packet_queued(1, true);
    assert_eq!(connection.step(ConnectionEvent::ProxyClosed), ConnectionAction::FinishCapture);
    assert_eq!(connection.step(ConnectionEvent::CaptureFinished), ConnectionAction::WriteAudit);
    let audit = connection.write_audit(2_000);
    assert_eq!(audit.connection_id, "00000000000000ff");
    assert_eq!(audit.instance_id, "lab 1");
    assert_eq!(audit.challenge_id, "challenge");
    assert_eq!(audit.user_id, "user");
    assert_eq!(audit.competition_id, None);
    assert_eq!(audit.client_ip, "203.0.113.9");
    assert_eq!(audit.target, "10.0.0.5:80");
    assert_eq!((audit.started_at, audit.ended_at), (1_000, 2_000));
    assert_eq!((audit.client_to_target_bytes, audit.target_to_client_bytes), (7, 8));
    assert_eq!(audit.result, "completed");
    assert_eq!(audit.capture_path, Some(path));
    assert_eq!((audit.captured_bytes, audit.capture_truncated), (8, true));
}

#[test]
fn connection_that_cannot_be_made_is_recorded() {
    let mut refused = connection(true);
    let event = ConnectionEvent::ConnectFailed("refused".to_string());
    assert_eq!(refused.step(event), ConnectionAction::WriteAudit);
    let audit = refused.write_audit(1);
    assert_eq!(audit.result, "target_connect_failed:refused");
    assert_eq!((audit.client_to_target_bytes, audit.target_to_client_bytes), (0, 0));
    assert_eq!((audit.capture_path, audit.captured_bytes), (None, 0));
    let mut silent = connection(false);
    assert_eq!(silent.step(ConnectionEvent::ConnectTimedOut), ConnectionAction::WriteAudit);
    assert_eq!(silent.write_audit(1).result, "target_connect_timeout");
    assert_eq!(silent.phase(), Phase::Auditing);
    assert!(!silent.awaits(&ConnectionEvent::ProxyClosed));
}

#[test]
fn connection_without_a_capture() {
    let mut plain = connection(false);
    assert_eq!(plain.step(ConnectionEvent::Connected), ConnectionAction::Proxy);
    assert_eq!(plain.observe(TrafficDirection::ClientToTarget, b"request"), None);
    let event = ConnectionEvent::ProxyFailed(
        "WebSocket protocol error: Connection reset without closing handshake".to_string(),
    );
    assert_eq!(plain.step(event), ConnectionAction::WriteAudit);
    assert_eq!(plain.write_audit(1).result, "completed_ungraceful_close");
}

#[test]
fn connection_whose_capture_fails_goes_on() {
    let mut connection = connection(true);
    connection.step(ConnectionEvent::Connected);
    assert_eq!(connection.step(ConnectionEvent::CaptureFailed), ConnectionAction::Proxy);
    assert_eq!(connection.step(ConnectionEvent::ProxyTimedOut), ConnectionAction::WriteAudit);
    let audit = connection.write_audit(1);
    assert_eq!(audit.result, "connection_timeout");
    assert_eq!(audit.capture_path, None);
}

#[test]
fn remote_addresses_are_websocket_addresses() {
    let plan = connect::launch("WSS://Chall.Example/abc", None, Some(9000));
    assert_eq!(
        plan,
        Ok(ConnectPlan {
            listen: "127.0.0.1:9000".to_string(),
            remote: "wss://chall.example/abc".to_string(),
        })
    );
    let plain = connect::launch("ws://10.0.0.5:8080", Some("0.0.0.0".to_string()), None);
    assert_eq!(
        plain,
        Ok(ConnectPlan {
            listen: "0.0.0.0:0".to_string(),
            remote: "ws://10.0.0.5:8080/".to_string(),
        })
    );
    for address in ["https://chall.example/abc", "file:///etc/passwd", "mailto:a@b.example"] {
        assert_eq!(
            connect::launch(address, None, None),
            Err(ConnectError::UnsupportedScheme)
        );
    }
    for address in ["chall.example/abc", "", "wss://"] {
        assert_eq!(connect::launch(address, None, None), Err(ConnectError::InvalidAddress));
    }
}

#[test]
fn scheme_of_a_parsed_address_decides() {
    let parsed = |scheme: &str| Some((scheme.to_string(), "text".to_string()));
    assert_eq!(connect::remote_address(parsed("ws")), Ok("text".to_string()));
    assert_eq!(connect::remote_address(parsed("wss")), Ok("text".to_string()));
    assert_eq!(
        connect::remote_address(parsed("http")),
        Err(ConnectError::UnsupportedScheme)
    );
    assert_eq!(connect::remote_address(None), Err(ConnectError::InvalidAddress));
    assert_eq!(
        ConnectError::InvalidAddress.message(),
        "连接地址无效，请粘贴题目页提供的完整 ws:// 或 wss:// 地址。"
    );
    assert_eq!(
        ConnectError::UnsupportedScheme.message(),
        "连接地址协议无效，只支持 ws:// 或 wss://。"
    );
}
