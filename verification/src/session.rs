//! The course of one connection through a tunnel, and what is recorded of it.
use vstd::prelude::*;

use crate::capture::{capture_path, CaptureSession};
use crate::net::{address_text, text_of_address, SocketAddress};
use crate::traffic::{
    classify_proxy_error, proxy_error_result, CaptureObserver, ConnectionObserver, ProxyStats,
    TrafficDirection,
};
use crate::tunnel::{instance_name, instance_of, TunnelRecord};

verus! {

/// How many seconds a target has to accept a connection.
pub const CONNECT_TIMEOUT_SECONDS: u64 = 5;

/// What the audit log records of a connection.
#[derive(Debug, PartialEq, Eq)]
pub struct ConnectionAudit {
    pub connection_id: String,
    pub instance_id: String,
    pub challenge_id: String,
    pub user_id: String,
    pub competition_id: Option<String>,
    pub client_ip: String,
    pub target: String,
    pub started_at: u128,
    pub ended_at: u128,
    pub client_to_target_bytes: u64,
    pub target_to_client_bytes: u64,
    pub result: String,
    pub capture_path: Option<String>,
    pub captured_bytes: u64,
    pub capture_truncated: bool,
}

/// Where a connection stands.
#[derive(Clone, Copy, Debug, PartialEq, Eq, Structural)]
pub enum Phase {
    /// The target is being connected to.
    Connecting,
    /// The file of the capture is being made.
    StartingCapture,
    /// Traffic passes.
    Proxying,
    /// The file of the capture is being completed.
    FinishingCapture,
    /// The connection has ended and is to be recorded.
    Auditing,
}

/// What happened to a connection.
#[derive(Debug, PartialEq, Eq)]
pub enum ConnectionEvent {
    /// The target accepted the connection.
    Connected,
    /// The target could not be connected to.
    ConnectFailed(String),
    /// The target did not answer in time.
    ConnectTimedOut,
    /// The file of the capture is there.
    CaptureStarted,
    /// The file of the capture could not be made.
    CaptureFailed,
    /// One side closed the connection.
    ProxyClosed,
    /// The connection broke.
    ProxyFailed(String),
    /// The connection lasted as long as it may.
    ProxyTimedOut,
    /// The file of the capture is complete.
    CaptureFinished,
}

/// What is to be done next for a connection.
#[derive(Debug, PartialEq, Eq)]
pub enum ConnectionAction {
    /// Make the file of the capture, at this path below the directory for captures.
    StartCapture(String),
    /// Let traffic pass.
    Proxy,
    /// Complete the file of the capture.
    FinishCapture,
    /// Put the record of the connection into the audit log.
    WriteAudit,
}

/// One connection through a tunnel.
#[derive(Debug, PartialEq, Eq)]
pub struct Connection {
    phase: Phase,
    record: TunnelRecord,
    instance_id: String,
    connection_id: String,
    client_ip: String,
    started_at: u128,
    max_capture_bytes: u64,
    observer: ConnectionObserver,
    result: String,
}

/// One connection through a tunnel, as plain values.
pub struct ConnectionView {
    /// Where the connection stands.
    pub phase: Phase,
    /// The tunnel.
    pub record: TunnelRecord,
    /// The name under which the connection is recorded.
    pub instance_id: Seq<char>,
    /// The name of the connection.
    pub connection_id: Seq<char>,
    /// The text of the client's address.
    pub client_ip: Seq<char>,
    /// When the connection began, in milliseconds since the epoch.
    pub started_at: u128,
    /// The most payload bytes to capture.
    pub max_capture_bytes: u64,
    /// The counters, and the capture where there is one.
    pub observer: ConnectionObserver,
    /// How the end of the connection is recorded, as far as it is known.
    pub result: Seq<char>,
}

impl View for Connection {
    type V = ConnectionView;

    closed spec fn view(&self) -> ConnectionView {
        ConnectionView {
            phase: self.phase,
            record: self.record,
            instance_id: self.instance_id@,
            connection_id: self.connection_id@,
            client_ip: self.client_ip@,
            started_at: self.started_at,
            max_capture_bytes: self.max_capture_bytes,
            observer: self.observer,
            result: self.result@,
        }
    }
}

/// A text in which a fixed beginning is followed by a cause.
fn with_cause(beginning: &str, cause: &str) -> (r: String)
    ensures
        r@ == beginning@ + cause@,
{
    let mut r = beginning.to_string();
    r.append(cause);
    r
}

impl ConnectionView {
    /// No traffic is counted before it can pass; there is a capture only where the tunnel asks for
    /// one, under the name and with the limit of this connection; and a capture that is being
    /// completed is there.
    pub open spec fn wf(self) -> bool {
        &&& self.before_traffic() ==> self.observer == (ConnectionObserver {
            client_to_target: 0,
            target_to_client: 0,
            capture: None,
        })
        &&& self.observer.capture matches Some(session) ==> {
            &&& self.record.capture
            &&& session.relative_path@ == capture_path(self.instance_id, self.connection_id)
            &&& session.observer.max_bytes == self.max_capture_bytes
        }
        &&& self.phase == Phase::StartingCapture ==> self.record.capture
        &&& self.phase == Phase::FinishingCapture ==> self.observer.capture is Some
    }

    /// No traffic can have passed yet.
    pub open spec fn before_traffic(self) -> bool {
        self.phase == Phase::Connecting || self.phase == Phase::StartingCapture
    }

    /// The connection waits for such an event.
    pub open spec fn expects(self, event: ConnectionEvent) -> bool {
        match event {
            ConnectionEvent::Connected => self.phase == Phase::Connecting,
            ConnectionEvent::ConnectFailed(_) => self.phase == Phase::Connecting,
            ConnectionEvent::ConnectTimedOut => self.phase == Phase::Connecting,
            ConnectionEvent::CaptureStarted => self.phase == Phase::StartingCapture,
            ConnectionEvent::CaptureFailed => self.phase == Phase::StartingCapture,
            ConnectionEvent::ProxyClosed => self.phase == Phase::Proxying,
            ConnectionEvent::ProxyFailed(_) => self.phase == Phase::Proxying,
            ConnectionEvent::ProxyTimedOut => self.phase == Phase::Proxying,
            ConnectionEvent::CaptureFinished => self.phase == Phase::FinishingCapture,
        }
    }

    /// Where the connection stands after an event.
    pub open spec fn next_phase(self, event: ConnectionEvent) -> Phase {
        match event {
            ConnectionEvent::Connected => if self.record.capture {
                Phase::StartingCapture
            } else {
                Phase::Proxying
            },
            ConnectionEvent::ConnectFailed(_) => Phase::Auditing,
            ConnectionEvent::ConnectTimedOut => Phase::Auditing,
            ConnectionEvent::CaptureStarted => Phase::Proxying,
            ConnectionEvent::CaptureFailed => Phase::Proxying,
            ConnectionEvent::ProxyClosed => self.end_phase(),
            ConnectionEvent::ProxyFailed(_) => self.end_phase(),
            ConnectionEvent::ProxyTimedOut => self.end_phase(),
            ConnectionEvent::CaptureFinished => Phase::Auditing,
        }
    }

    /// Where the connection stands once no more traffic passes.
    pub open spec fn end_phase(self) -> Phase {
        if self.observer.capture is Some {
            Phase::FinishingCapture
        } else {
            Phase::Auditing
        }
    }

    /// How the end of the connection is recorded, as far as it is known after an event.
    pub open spec fn next_result(self, event: ConnectionEvent) -> Seq<char> {
        match event {
            ConnectionEvent::ConnectFailed(cause) => "target_connect_failed:"@ + cause@,
            ConnectionEvent::ConnectTimedOut => "target_connect_timeout"@,
            ConnectionEvent::ProxyFailed(cause) => proxy_error_result(
                cause@,
                self.observer.counts(),
            ),
            ConnectionEvent::ProxyTimedOut => "connection_timeout"@,
            _ => self.result,
        }
    }

    /// What belongs to the connection from its beginning on is the same.
    pub open spec fn same_connection(self, other: Self) -> bool {
        &&& self.record == other.record
        &&& self.instance_id == other.instance_id
        &&& self.connection_id == other.connection_id
        &&& self.client_ip == other.client_ip
        &&& self.started_at == other.started_at
        &&& self.max_capture_bytes == other.max_capture_bytes
    }
}

impl Connection {
    /// A connection to be made.
    pub fn open(
        record: TunnelRecord,
        key: &str,
        connection_id: String,
        client: SocketAddress,
        started_at: u128,
        max_capture_bytes: u64,
    ) -> (r: Self)
        ensures
            r@.wf(),
            r@ == (ConnectionView {
                phase: Phase::Connecting,
                record,
                instance_id: instance_name(record, key@),
                connection_id: connection_id@,
                client_ip: address_text(client.ip),
                started_at,
                max_capture_bytes,
                observer: ConnectionObserver {
                    client_to_target: 0,
                    target_to_client: 0,
                    capture: None,
                },
                result: "completed"@,
            }),
    {
        let instance_id = instance_of(&record, key);
        Connection {
            phase: Phase::Connecting,
            record,
            instance_id,
            connection_id,
            client_ip: text_of_address(client.ip),
            started_at,
            max_capture_bytes,
            observer: ConnectionObserver::new(None),
            result: "completed".to_string(),
        }
    }

    /// Whether the connection waits for such an event.
    pub fn awaits(&self, event: &ConnectionEvent) -> (r: bool)
        ensures
            r == self@.expects(*event),
    {
        match event {
            ConnectionEvent::Connected => self.phase == Phase::Connecting,
            ConnectionEvent::ConnectFailed(_) => self.phase == Phase::Connecting,
            ConnectionEvent::ConnectTimedOut => self.phase == Phase::Connecting,
            ConnectionEvent::CaptureStarted => self.phase == Phase::StartingCapture,
            ConnectionEvent::CaptureFailed => self.phase == Phase::StartingCapture,
            ConnectionEvent::ProxyClosed => self.phase == Phase::Proxying,
            ConnectionEvent::ProxyFailed(_) => self.phase == Phase::Proxying,
            ConnectionEvent::ProxyTimedOut => self.phase == Phase::Proxying,
            ConnectionEvent::CaptureFinished => self.phase == Phase::FinishingCapture,
        }
    }

    /// Goes on when no more traffic passes.
    fn end_proxying(&mut self) -> (r: ConnectionAction)
        ensures
            final(self)@ == (ConnectionView { phase: old(self)@.end_phase(), ..old(self)@ }),
            r == (if old(self)@.observer.capture is Some {
                ConnectionAction::FinishCapture
            } else {
                ConnectionAction::WriteAudit
            }),
    {
        if self.observer.capture.is_some() {
            self.phase = Phase::FinishingCapture;
            ConnectionAction::FinishCapture
        } else {
            self.phase = Phase::Auditing;
            ConnectionAction::WriteAudit
        }
    }

    /// Takes an event that the connection waits for, and tells what is to be done next.
    pub fn step(&mut self, event: ConnectionEvent) -> (r: ConnectionAction)
        requires
            old(self)@.expects(event),
        ensures
            old(self)@.wf() ==> final(self)@.wf(),
            final(self)@.same_connection(old(self)@),
            final(self)@.phase == old(self)@.next_phase(event),
            final(self)@.result == old(self)@.next_result(event),
            event is CaptureStarted ==> {
                &&& final(self)@.observer.counts() == (ProxyStats {
                    client_to_target: 0,
                    target_to_client: 0,
                })
                &&& final(self)@.observer.capture matches Some(session)
                &&& session.observer == (CaptureObserver {
                    captured: 0,
                    truncated: false,
                    max_bytes: old(self)@.max_capture_bytes,
                })
                &&& session.relative_path@ == capture_path(
                    old(self)@.instance_id,
                    old(self)@.connection_id,
                )
            },
            !(event is CaptureStarted) ==> final(self)@.observer == old(self)@.observer,
            match r {
                ConnectionAction::StartCapture(path) => final(self)@.phase == Phase::StartingCapture
                    && path@ == capture_path(old(self)@.instance_id, old(self)@.connection_id),
                ConnectionAction::Proxy => final(self)@.phase == Phase::Proxying,
                ConnectionAction::FinishCapture => final(self)@.phase == Phase::FinishingCapture,
                ConnectionAction::WriteAudit => final(self)@.phase == Phase::Auditing,
            },
    {
        match event {
            ConnectionEvent::Connected => {
                if self.record.capture {
                    self.phase = Phase::StartingCapture;
                    let session = CaptureSession::start(
                        self.instance_id.as_str(),
                        self.connection_id.as_str(),
                        self.max_capture_bytes,
                    );
                    ConnectionAction::StartCapture(session.relative_path)
                } else {
                    self.phase = Phase::Proxying;
                    ConnectionAction::Proxy
                }
            },
            ConnectionEvent::ConnectFailed(cause) => {
                self.result = with_cause("target_connect_failed:", cause.as_str());
                self.phase = Phase::Auditing;
                ConnectionAction::WriteAudit
            },
            ConnectionEvent::ConnectTimedOut => {
                self.result = "target_connect_timeout".to_string();
                self.phase = Phase::Auditing;
                ConnectionAction::WriteAudit
            },
            ConnectionEvent::CaptureStarted => {
                let session = CaptureSession::start(
                    self.instance_id.as_str(),
                    self.connection_id.as_str(),
                    self.max_capture_bytes,
                );
                self.observer = ConnectionObserver::new(Some(session));
                self.phase = Phase::Proxying;
                ConnectionAction::Proxy
            },
            ConnectionEvent::CaptureFailed => {
                self.phase = Phase::Proxying;
                ConnectionAction::Proxy
            },
            ConnectionEvent::ProxyClosed => self.end_proxying(),
            ConnectionEvent::ProxyFailed(cause) => {
                self.result = classify_proxy_error(cause.as_str(), self.observer.stats());
                self.end_proxying()
            },
            ConnectionEvent::ProxyTimedOut => {
                self.result = "connection_timeout".to_string();
                self.end_proxying()
            },
            ConnectionEvent::CaptureFinished => {
                self.phase = Phase::Auditing;
                ConnectionAction::WriteAudit
            },
        }
    }

    /// Counts a message that passes, and hands out what of it is to be queued for the capture.
    pub fn observe(&mut self, direction: TrafficDirection, data: &[u8]) -> (r: Option<Vec<u8>>)
        ensures
            old(self)@.wf() && !old(self)@.before_traffic() ==> final(self)@.wf(),
            final(self)@ == (ConnectionView {
                observer: old(self)@.observer.observed(direction, data@.len()),
                ..old(self)@
            }),
            match old(self)@.observer.capture {
                Some(session) => {
                    &&& r is Some <==> session.observer.share(data@.len()) is Some
                    &&& r matches Some(packet) ==> packet@ == data@.take(
                        session.observer.share(data@.len())->0 as int,
                    )
                },
                None => r is None,
            },
    {
        self.observer.observe(direction, data)
    }

    /// Tells the capture whether a share of `length` bytes was queued.
    pub fn packet_queued(&mut self, length: usize, queued: bool)
        ensures
            old(self)@.wf() ==> final(self)@.wf(),
            final(self)@ == (match old(self)@.observer.capture {
                Some(session) => ConnectionView {
                    observer: old(self)@.observer.with_capture(
                        session.observer.answered(length as nat, queued),
                    ),
                    ..old(self)@
                },
                None => old(self)@,
            }),
    {
        self.observer.packet_queued(length, queued);
    }

    /// The record of a connection that has ended.
    pub fn write_audit(&self, ended_at: u128) -> (r: ConnectionAudit)
        ensures
            r.connection_id@ == self@.connection_id,
            r.instance_id@ == self@.instance_id,
            r.challenge_id == self@.record.challenge_id,
            r.user_id == self@.record.user_id,
            r.competition_id == self@.record.competition_id,
            r.client_ip@ == self@.client_ip,
            r.target == self@.record.target,
            r.started_at == self@.started_at,
            r.ended_at == ended_at,
            r.client_to_target_bytes == self@.observer.client_to_target,
            r.target_to_client_bytes == self@.observer.target_to_client,
            r.result@ == self@.result,
            match self@.observer.capture {
                Some(session) => {
                    &&& r.capture_path == Some(session.relative_path)
                    &&& r.captured_bytes == session.observer.captured
                    &&& r.capture_truncated == session.observer.truncated
                },
                None => {
                    &&& r.capture_path is None
                    &&& r.captured_bytes == 0
                    &&& !r.capture_truncated
                },
            },
    {
        let stats = self.observer.stats();
        let (capture_path, (captured_bytes, capture_truncated)): (Option<String>, (u64, bool)) =
            match &self.observer.capture {
            Some(session) => (Some(session.relative_path.clone()), session.finish()),
            None => (None, (0, false)),
        };
        let record = self.record.clone();
        ConnectionAudit {
            connection_id: self.connection_id.clone(),
            instance_id: self.instance_id.clone(),
            challenge_id: record.challenge_id,
            user_id: record.user_id,
            competition_id: record.competition_id,
            client_ip: self.client_ip.clone(),
            target: record.target,
            started_at: self.started_at,
            ended_at,
            client_to_target_bytes: stats.client_to_target,
            target_to_client_bytes: stats.target_to_client,
            result: self.result.clone(),
            capture_path,
            captured_bytes,
            capture_truncated,
        }
    }

    /// Where the connection stands.
    pub fn phase(&self) -> (r: Phase)
        ensures
            r == self@.phase,
    {
        self.phase
    }

    /// The name under which the connection is recorded.
    pub fn instance_id(&self) -> (r: &str)
        ensures
            r@ == self@.instance_id,
    {
        self.instance_id.as_str()
    }
}

/// How many events a connection can still take.
pub open spec fn events_left(phase: Phase) -> nat {
    match phase {
        Phase::Connecting => 4,
        Phase::StartingCapture => 3,
        Phase::Proxying => 2,
        Phase::FinishingCapture => 1,
        Phase::Auditing => 0,
    }
}

/// Every connection is recorded: each event brings it nearer to its record, so that after four
/// events at most it is due, and a connection whose record is due waits for no event.
pub proof fn law_every_connection_is_recorded(connection: ConnectionView, event: ConnectionEvent)
    requires
        connection.expects(event),
    ensures
        events_left(connection.next_phase(event)) < events_left(connection.phase),
        connection.phase != Phase::Auditing,
{
}

/// Of a connection that is not made, the record shows no traffic and no capture: its observer, which
/// such an event leaves as it is, has seen nothing.
pub proof fn law_unmade_connection_has_no_traffic(connection: ConnectionView, event: ConnectionEvent)
    requires
        connection.wf(),
        connection.expects(event),
        event is ConnectFailed || event is ConnectTimedOut,
    ensures
        connection.next_phase(event) == Phase::Auditing,
        connection.observer.counts() == (ProxyStats { client_to_target: 0, target_to_client: 0 }),
        connection.observer.capture is None,
{
}

/// Traffic is captured only where the tunnel asks for it.
pub proof fn law_no_capture_unless_asked_for(connection: ConnectionView)
    requires
        connection.wf(),
        !connection.record.capture,
    ensures
        connection.observer.capture is None,
        forall|event: ConnectionEvent|
            connection.expects(event) ==> #[trigger] connection.next_phase(event)
                != Phase::StartingCapture && connection.next_phase(event)
                != Phase::FinishingCapture,
{
}

/// A connection never gets stuck: as long as its record is not due, it waits for some event.
pub proof fn law_no_connection_gets_stuck(connection: ConnectionView)
    requires
        connection.phase != Phase::Auditing,
    ensures
        exists|event: ConnectionEvent| connection.expects(event),
{
    match connection.phase {
        Phase::Connecting => assert(connection.expects(ConnectionEvent::Connected)),
        Phase::StartingCapture => assert(connection.expects(ConnectionEvent::CaptureFailed)),
        Phase::Proxying => assert(connection.expects(ConnectionEvent::ProxyClosed)),
        Phase::FinishingCapture => assert(connection.expects(ConnectionEvent::CaptureFinished)),
        Phase::Auditing => {},
    }
}

/// Each event is waited for in one phase and in no other.
pub proof fn law_phases_of_the_events(connection: ConnectionView, cause: String)
    ensures
        connection.expects(ConnectionEvent::Connected) <==> connection.phase is Connecting,
        connection.expects(ConnectionEvent::ConnectFailed(cause)) <==> connection.phase is Connecting,
        connection.expects(ConnectionEvent::ConnectTimedOut) <==> connection.phase is Connecting,
        connection.expects(ConnectionEvent::CaptureStarted) <==> connection.phase
            is StartingCapture,
        connection.expects(ConnectionEvent::CaptureFailed) <==> connection.phase is StartingCapture,
        connection.expects(ConnectionEvent::ProxyClosed) <==> connection.phase is Proxying,
        connection.expects(ConnectionEvent::ProxyFailed(cause)) <==> connection.phase is Proxying,
        connection.expects(ConnectionEvent::ProxyTimedOut) <==> connection.phase is Proxying,
        connection.expects(ConnectionEvent::CaptureFinished) <==> connection.phase
            is FinishingCapture,
{
}

/// The course of a connection: it is captured where its tunnel asks for that, traffic passes
/// whether or not the capture could be started, a capture that was started is completed however
/// the traffic ends, and the end is always the record.
pub proof fn law_course_of_a_connection(connection: ConnectionView, cause: String)
    ensures
        connection.next_phase(ConnectionEvent::Connected) == (if connection.record.capture {
            Phase::StartingCapture
        } else {
            Phase::Proxying
        }),
        connection.next_phase(ConnectionEvent::ConnectFailed(cause)) is Auditing,
        connection.next_phase(ConnectionEvent::ConnectTimedOut) is Auditing,
        connection.next_phase(ConnectionEvent::CaptureStarted) is Proxying,
        connection.next_phase(ConnectionEvent::CaptureFailed) is Proxying,
        connection.observer.capture is Some ==> {
            &&& connection.next_phase(ConnectionEvent::ProxyClosed) is FinishingCapture
            &&& connection.next_phase(ConnectionEvent::ProxyFailed(cause)) is FinishingCapture
            &&& connection.next_phase(ConnectionEvent::ProxyTimedOut) is FinishingCapture
        },
        connection.observer.capture is None ==> {
            &&& connection.next_phase(ConnectionEvent::ProxyClosed) is Auditing
            &&& connection.next_phase(ConnectionEvent::ProxyFailed(cause)) is Auditing
            &&& connection.next_phase(ConnectionEvent::ProxyTimedOut) is Auditing
        },
        connection.next_phase(ConnectionEvent::CaptureFinished) is Auditing,
{
}

/// How a connection ended is recorded with the cause that was given, whatever it is, and with the
/// traffic that had passed; an event that ends nothing, or ends it well, leaves the record alone.
pub proof fn law_recorded_results(connection: ConnectionView, cause: String)
    ensures
        connection.next_result(ConnectionEvent::ConnectFailed(cause)) == "target_connect_failed:"@
            + cause@,
        connection.next_result(ConnectionEvent::ConnectTimedOut) == "target_connect_timeout"@,
        connection.next_result(ConnectionEvent::ProxyTimedOut) == "connection_timeout"@,
        connection.next_result(ConnectionEvent::ProxyFailed(cause)) == proxy_error_result(
            cause@,
            ProxyStats {
                client_to_target: connection.observer.client_to_target,
                target_to_client: connection.observer.target_to_client,
            },
        ),
        connection.next_result(ConnectionEvent::Connected) == connection.result,
        connection.next_result(ConnectionEvent::CaptureStarted) == connection.result,
        connection.next_result(ConnectionEvent::CaptureFailed) == connection.result,
        connection.next_result(ConnectionEvent::ProxyClosed) == connection.result,
        connection.next_result(ConnectionEvent::CaptureFinished) == connection.result,
{
}

/// What belongs to a connection from its beginning on stays, part by part.
pub proof fn law_same_connection(one: ConnectionView, other: ConnectionView)
    requires
        one.same_connection(other),
    ensures
        one.record == other.record,
        one.instance_id == other.instance_id,
        one.connection_id == other.connection_id,
        one.client_ip == other.client_ip,
        one.started_at == other.started_at,
        one.max_capture_bytes == other.max_capture_bytes,
{
}

/// What holds of a connection at every moment, spelled out: before traffic can pass, nothing is
/// counted and nothing captured; a capture is there only where the tunnel asks for one, under the
/// path and with the limit of this connection.
pub proof fn law_what_holds_of_a_connection(connection: ConnectionView)
    requires
        connection.wf(),
    ensures
        connection.phase is Connecting || connection.phase is StartingCapture ==> {
            &&& connection.observer.client_to_target == 0
            &&& connection.observer.target_to_client == 0
            &&& connection.observer.capture is None
        },
        connection.observer.capture matches Some(session) ==> {
            &&& connection.record.capture
            &&& session.relative_path@ == capture_path(
                connection.instance_id,
                connection.connection_id,
            )
            &&& session.observer.max_bytes == connection.max_capture_bytes
        },
        connection.phase is FinishingCapture ==> connection.observer.capture is Some,
{
}

/// A target has five seconds to accept a connection.
pub proof fn law_connect_timeout()
    ensures
        CONNECT_TIMEOUT_SECONDS == 5,
{
}

} // verus!
