//! The gateway: how it starts, what it keeps, and how it answers requests.
use vstd::prelude::*;
use vstd::utf8::encode_utf8;

use crate::capture::{default_capture_root, standard_capture_root};
use crate::error::{GatewayError, Status};
use crate::hosts::{
    allowed_by, check_target, is_letter_digit_dot_or_hyphen, law_well_formed_target, optional_text, parse_allowed_hosts, target_host, target_verdict,
    AllowedHosts,
};
use crate::limits::{
    after_release, after_request, connections_of, total, within_limit, ConnectionCounts,
};
use crate::net::{listen_address, listen_text, literal_of, target_literal};
use crate::paths::{
    components, directory_of, ends_in_name, final_name, has_parent, is_plain, is_portable,
    lemma_root, names_file, names_no_file, path_parent, path_with_extension, renamed,
    replaced_extension,
};
use crate::text::{decimal, last_position, lemma_last_position_in_range, lowered};
use crate::tunnel::{
    after_look, found, is_letter_digit_hyphen_or_underscore, law_valid_key, live, load_registry, merged, valid_key, validate_key, Registry,
    RegistryFile, TunnelRecord, TunnelRequest,
};

verus! {

/// How many seconds pass between two cleanups of the registry.
pub const CLEANUP_INTERVAL_SECONDS: u64 = 30;

/// The fewest bytes that a secret has.
pub const MIN_SECRET_BYTES: usize = 32;

/// What the gateway is started with.
#[derive(Debug, PartialEq, Eq)]
pub struct ServeOptions {
    pub host: Option<String>,
    pub port: Option<u16>,
    pub secret: Option<String>,
    pub state_file: Option<String>,
    pub allowed_target_hosts: Vec<String>,
    pub max_connections: usize,
    pub capture_root: Option<String>,
    pub max_capture_bytes: u64,
    pub max_connections_per_tunnel: usize,
    pub connection_timeout_seconds: u64,
}

/// Why the gateway does not start.
#[derive(Clone, Copy, Debug, PartialEq, Eq, Structural)]
pub enum LaunchError {
    /// There is no secret, or it is too short.
    WeakSecret,
    /// No target host is allowed.
    NoAllowedHosts,
}

impl LaunchError {
    /// What the operator is told.
    pub open spec fn text(self) -> Seq<char> {
        match self {
            LaunchError::WeakSecret => {
                "WSRX_ADMIN_TOKEN must contain at least 32 characters; refusing to start"@
            },
            LaunchError::NoAllowedHosts => {
                "WSRX_ALLOWED_TARGET_HOSTS must contain at least one explicit target host"@
            },
        }
    }

    /// What the operator is told.
    pub fn message(&self) -> (r: String)
        ensures
            r@ == self.text(),
    {
        match self {
            LaunchError::WeakSecret => {
                "WSRX_ADMIN_TOKEN must contain at least 32 characters; refusing to start".to_string()
            },
            LaunchError::NoAllowedHosts => {
                "WSRX_ALLOWED_TARGET_HOSTS must contain at least one explicit target host".to_string()
            },
        }
    }
}

/// The secret that counts: the one that was given, else that of the first variable, else that of
/// the second.
pub open spec fn chosen_secret(
    given: Option<String>,
    first: Option<String>,
    second: Option<String>,
) -> Option<String> {
    if given is Some {
        given
    } else if first is Some {
        first
    } else {
        second
    }
}

/// A secret of sufficient length.
pub open spec fn is_strong(secret: Option<String>) -> bool {
    secret matches Some(secret) && encode_utf8(secret@).len() >= 32
}

/// The larger of a number and one.
pub open spec fn at_least_one(n: int) -> int {
    if n < 1 {
        1
    } else {
        n
    }
}

/// A gateway that may start.
pub struct Launch {
    /// The address to listen on.
    pub listen: String,
    /// How many connections the gateway may have.
    pub connection_slots: usize,
    /// The state of the gateway, without tunnels.
    pub state: GlobalState,
}

/// What the gateway keeps.
pub struct GlobalState {
    secret: String,
    connections: Registry,
    state_file: Option<String>,
    allowed_target_hosts: AllowedHosts,
    capture_root: String,
    max_capture_bytes: u64,
    per_tunnel_connections: ConnectionCounts,
    max_connections_per_tunnel: usize,
    connection_timeout_seconds: u64,
}

/// What the gateway keeps, as plain values.
pub struct GatewayView {
    /// The secret that management requests carry.
    pub secret: Seq<char>,
    /// The tunnels by their keys.
    pub tunnels: Map<Seq<char>, TunnelRecord>,
    /// The file of the registry.
    pub state_file: Option<Seq<char>>,
    /// The hosts that tunnels may lead to.
    pub allowed: Set<Seq<char>>,
    /// The directory for captures and audit logs.
    pub capture_root: Seq<char>,
    /// The most payload bytes to capture of one connection.
    pub max_capture_bytes: u64,
    /// The connections of each tunnel.
    pub counts: Map<Seq<char>, usize>,
    /// The most connections that one tunnel may have.
    pub max_connections_per_tunnel: usize,
    /// How many seconds a connection may last.
    pub connection_timeout_seconds: u64,
}

/// The text that an optional string holds.
pub open spec fn text_in(text: Option<String>) -> Option<Seq<char>> {
    match text {
        Some(text) => Some(text@),
        None => None,
    }
}

impl View for GlobalState {
    type V = GatewayView;

    closed spec fn view(&self) -> GatewayView {
        GatewayView {
            secret: self.secret@,
            tunnels: self.connections@,
            state_file: text_in(self.state_file),
            allowed: self.allowed_target_hosts@,
            capture_root: self.capture_root@,
            max_capture_bytes: self.max_capture_bytes,
            counts: self.per_tunnel_connections@,
            max_connections_per_tunnel: self.max_connections_per_tunnel,
            connection_timeout_seconds: self.connection_timeout_seconds,
        }
    }
}

/// Starts a gateway that has a secret of at least 32 bytes and at least one allowed target host.
/// `admin_token` and `gateway_token` are what the variables `WSRX_ADMIN_TOKEN` and
/// `TUNNEL_GATEWAY_ADMIN_TOKEN` hold.
pub fn launch(
    options: ServeOptions,
    admin_token: Option<String>,
    gateway_token: Option<String>,
) -> (r: Result<Launch, LaunchError>)
    ensures
        r is Err <==> !is_strong(chosen_secret(options.secret, admin_token, gateway_token))
            || allowed_by(options.allowed_target_hosts@) == Set::<Seq<char>>::empty(),
        r matches Err(error) ==> error == (if !is_strong(
            chosen_secret(options.secret, admin_token, gateway_token),
        ) {
            LaunchError::WeakSecret
        } else {
            LaunchError::NoAllowedHosts
        }),
        r matches Ok(launch) ==> {
            let state = launch.state@;
            &&& launch.listen@ == listen_text(options.host, options.port)
            &&& launch.connection_slots == at_least_one(options.max_connections as int)
            &&& launch.state.wf()
            &&& Some(state.secret) == text_in(
                chosen_secret(options.secret, admin_token, gateway_token),
            )
            &&& state.tunnels == Map::<Seq<char>, TunnelRecord>::empty()
            &&& state.state_file == text_in(options.state_file)
            &&& state.allowed == allowed_by(options.allowed_target_hosts@)
            &&& state.max_capture_bytes == options.max_capture_bytes
            &&& state.counts == Map::<Seq<char>, usize>::empty()
            &&& state.max_connections_per_tunnel == at_least_one(
                options.max_connections_per_tunnel as int,
            )
            &&& state.connection_timeout_seconds == at_least_one(
                options.connection_timeout_seconds as int,
            )
        },
        r matches Ok(launch) ==> match (options.capture_root, options.state_file) {
            (Some(root), _) => launch.state@.capture_root == root@,
            (None, None) => launch.state@.capture_root == standard_capture_root(),
            (None, Some(path)) => {
                let root = launch.state@.capture_root;
                &&& is_plain(path@) ==> root == directory_of(path@)
                &&& path@.len() == 0 || path@ == "/"@ ==> root == standard_capture_root()
                &&& is_portable(path@) && !has_parent(path@) ==> root == standard_capture_root()
                &&& is_portable(path@) && has_parent(path@) ==> components(root) == components(
                    path@,
                ).drop_last()
                &&& ends_in_name(path@) ==> root.is_prefix_of(path@) && root.len() < path@.len()
                &&& root == standard_capture_root() || (root.is_prefix_of(path@) && root.len()
                    < path@.len())
            },
        },
{
    let secret: Option<String> = match options.secret {
        Some(secret) => Some(secret),
        None => match admin_token {
            Some(secret) => Some(secret),
            None => gateway_token,
        },
    };
    let secret: String = match secret {
        Some(secret) => {
            if secret.as_str().as_bytes().len() < MIN_SECRET_BYTES {
                return Err(LaunchError::WeakSecret);
            }
            secret
        },
        None => {
            return Err(LaunchError::WeakSecret);
        },
    };
    let allowed_target_hosts = parse_allowed_hosts(options.allowed_target_hosts);
    if allowed_target_hosts.is_empty() {
        return Err(LaunchError::NoAllowedHosts);
    }
    let capture_root: String = match options.capture_root {
        Some(root) => root,
        None => match &options.state_file {
            Some(path) => default_capture_root(Some(path.as_str())),
            None => default_capture_root(None),
        },
    };
    let state = GlobalState {
        secret,
        connections: Registry::new(),
        state_file: options.state_file,
        allowed_target_hosts,
        capture_root,
        max_capture_bytes: options.max_capture_bytes,
        per_tunnel_connections: ConnectionCounts::new(),
        max_connections_per_tunnel: if options.max_connections_per_tunnel < 1 {
            1
        } else {
            options.max_connections_per_tunnel
        },
        connection_timeout_seconds: if options.connection_timeout_seconds < 1 {
            1
        } else {
            options.connection_timeout_seconds
        },
    };
    let connection_slots: usize = if options.max_connections < 1 {
        1
    } else {
        options.max_connections
    };
    Ok(Launch { listen: listen_address(options.host, options.port), connection_slots, state })
}

/// How the file of the registry is written: its directory is made, then a temporary file is
/// written, which takes the place of the file.
#[derive(Debug, PartialEq, Eq)]
pub struct PersistPlan {
    pub directory: Option<String>,
    pub temporary: String,
    pub destination: String,
}

/// What the gateway tells of its health.
#[derive(Debug, PartialEq, Eq)]
pub struct Health {
    pub active_tunnels: usize,
    pub available_connections: usize,
    pub active_tunnel_connections: usize,
}

/// The tunnel that a request opens, or why it is refused.
pub open spec fn request_verdict(
    request: TunnelRequest,
    literal: Option<Seq<char>>,
    allowed: Set<Seq<char>>,
    now: u64,
) -> Result<TunnelRecord, GatewayError> {
    if !valid_key(request.key@) {
        Err(GatewayError::InvalidKey)
    } else {
        match target_verdict(request.target@, literal, allowed) {
            Err(error) => Err(error),
            Ok(_) => if request.record().expired_at(now) {
                Err(GatewayError::ExpiryNotInFuture)
            } else {
                Ok(request.record())
            },
        }
    }
}

impl GlobalState {
    /// No tunnel is listed twice, neither with its record nor with its connections.
    pub closed spec fn is_sound(self) -> bool {
        self.connections.wf() && self.per_tunnel_connections.wf()
    }

    /// The registry and the counters are sound, and no tunnel has more connections than it may
    /// have.
    pub open spec fn wf(self) -> bool {
        &&& self.is_sound()
        &&& self@.max_connections_per_tunnel >= 1
        &&& self@.connection_timeout_seconds >= 1
        &&& within_limit(self@.counts, self@.max_connections_per_tunnel)
    }

    /// All but the tunnels and the counters is the same.
    pub open spec fn same_settings(self, other: Self) -> bool {
        self@ == (GatewayView { tunnels: self@.tunnels, counts: self@.counts, ..other@ })
    }

    /// The secret that management requests carry.
    pub fn secret(&self) -> (r: &str)
        ensures
            r@ == self@.secret,
    {
        self.secret.as_str()
    }

    /// The file of the registry.
    pub fn state_file(&self) -> (r: Option<&str>)
        ensures
            optional_text(r) == self@.state_file,
    {
        match &self.state_file {
            Some(path) => Some(path.as_str()),
            None => None,
        }
    }

    /// The directory for captures and audit logs.
    pub fn capture_root(&self) -> (r: &str)
        ensures
            r@ == self@.capture_root,
    {
        self.capture_root.as_str()
    }

    /// The most payload bytes to capture of one connection.
    pub fn max_capture_bytes(&self) -> (r: u64)
        ensures
            r == self@.max_capture_bytes,
    {
        self.max_capture_bytes
    }

    /// The most connections that one tunnel may have.
    pub fn max_connections_per_tunnel(&self) -> (r: usize)
        ensures
            r == self@.max_connections_per_tunnel,
    {
        self.max_connections_per_tunnel
    }

    /// How many seconds a connection may last.
    pub fn connection_timeout_seconds(&self) -> (r: u64)
        ensures
            r == self@.connection_timeout_seconds,
    {
        self.connection_timeout_seconds
    }

    /// The tunnels, expired ones included.
    pub fn entries(&self) -> (r: Vec<(String, TunnelRecord)>)
        requires
            self.wf(),
        ensures
            merged(r@) == self@.tunnels,
            r@.len() == self@.tunnels.len(),
    {
        self.connections.entries()
    }

    /// The connections of all tunnels together; `None` where a `usize` does not hold the number.
    pub fn connection_total(&self) -> (r: Option<usize>)
        requires
            self.wf(),
        ensures
            r == (if total(self@.counts) <= usize::MAX {
                Some(total(self@.counts) as usize)
            } else {
                None
            }),
    {
        self.per_tunnel_connections.sum()
    }

    /// Takes over the tunnels that the file of the registry holds and that have not expired.
    pub fn restore(&mut self, file: RegistryFile, now: u64)
        requires
            old(self).wf(),
        ensures
            final(self).wf(),
            final(self).same_settings(*old(self)),
            final(self)@.counts == old(self)@.counts,
            final(self)@.tunnels == live(file.tunnels(), now),
    {
        self.connections = load_registry(file, now);
    }

    /// Opens a tunnel.
    pub fn launch_tunnel(&mut self, request: TunnelRequest, now: u64) -> (r: Result<
        TunnelRecord,
        GatewayError,
    >)
        requires
            old(self).wf(),
        ensures
            final(self).wf(),
            r == request_verdict(
                request,
                target_literal(request.target@),
                old(self)@.allowed,
                now,
            ),
            final(self).same_settings(*old(self)),
            final(self)@.counts == old(self)@.counts,
            match r {
                Ok(record) => final(self)@.tunnels == old(self)@.tunnels.insert(
                    request.key@,
                    record,
                ),
                Err(_) => *final(self) == *old(self),
            },
    {
        match literal_of(request.target.as_str()) {
            Some(literal) => self.open_tunnel(request, Some(literal.as_str()), now),
            None => self.open_tunnel(request, None, now),
        }
    }

    /// Opens a tunnel. `literal` is the canonical text of the IPv6 address where the whole target
    /// is a socket address with one.
    pub fn open_tunnel(&mut self, request: TunnelRequest, literal: Option<&str>, now: u64) -> (r:
        Result<TunnelRecord, GatewayError>)
        requires
            old(self).wf(),
        ensures
            final(self).wf(),
            r == request_verdict(
                request,
                optional_text(literal),
                old(self)@.allowed,
                now,
            ),
            final(self).same_settings(*old(self)),
            final(self)@.counts == old(self)@.counts,
            match r {
                Ok(record) => final(self)@.tunnels == old(self)@.tunnels.insert(
                    request.key@,
                    record,
                ),
                Err(_) => *final(self) == *old(self),
            },
    {
        match validate_key(request.key.as_str()) {
            Ok(_) => {},
            Err(error) => {
                return Err(error);
            },
        }
        match check_target(request.target.as_str(), literal, &self.allowed_target_hosts) {
            Ok(_) => {},
            Err(error) => {
                return Err(error);
            },
        }
        let key = request.key.clone();
        let record = request.into_record();
        if record.is_expired(now) {
            return Err(GatewayError::ExpiryNotInFuture);
        }
        self.connections.insert(key.as_str(), record.clone());
        Ok(record)
    }

    /// Closes a tunnel.
    pub fn close_tunnel(&mut self, key: &str) -> (r: Result<(), GatewayError>)
        requires
            old(self).wf(),
        ensures
            final(self).wf(),
            r == (if old(self)@.tunnels.contains_key(key@) {
                Ok(())
            } else {
                Err(GatewayError::TunnelNotFound)
            }),
            final(self).same_settings(*old(self)),
            final(self)@.counts == old(self)@.counts,
            final(self)@.tunnels == old(self)@.tunnels.remove(key@),
    {
        self.connections.close_tunnel(key)
    }

    /// Drops the tunnels that have expired; tells whether there were any.
    pub fn remove_expired(&mut self, now: u64) -> (r: bool)
        requires
            old(self).wf(),
        ensures
            final(self).wf(),
            final(self).same_settings(*old(self)),
            final(self)@.counts == old(self)@.counts,
            final(self)@.tunnels == live(old(self)@.tunnels, now),
            r == (final(self)@.tunnels != old(self)@.tunnels),
    {
        self.connections.remove_expired(now)
    }

    /// The tunnels that have not expired; the others are dropped. Tells too whether there were any
    /// such others.
    pub fn get_tunnels(&mut self, now: u64) -> (r: (Vec<(String, TunnelRecord)>, bool))
        requires
            old(self).wf(),
        ensures
            final(self).wf(),
            final(self).same_settings(*old(self)),
            final(self)@.counts == old(self)@.counts,
            final(self)@.tunnels == live(old(self)@.tunnels, now),
            merged(r.0@) == final(self)@.tunnels,
            r.0@.len() == final(self)@.tunnels.len(),
            r.1 == (final(self)@.tunnels != old(self)@.tunnels),
    {
        let removed = self.remove_expired(now);
        (self.connections.entries(), removed)
    }

    /// The tunnel under a key. One that has expired is dropped.
    pub fn active_record(&mut self, key: &str, now: u64) -> (r: Result<TunnelRecord, GatewayError>)
        requires
            old(self).wf(),
        ensures
            final(self).wf(),
            final(self).same_settings(*old(self)),
            final(self)@.counts == old(self)@.counts,
            r == found(old(self)@.tunnels, key@, now),
            final(self)@.tunnels == after_look(old(self)@.tunnels, key@, now),
    {
        self.connections.active_record(key, now)
    }

    /// How a request whether there is a tunnel is answered.
    pub fn ping(&mut self, key: &str, now: u64) -> (r: Status)
        requires
            old(self).wf(),
        ensures
            final(self).wf(),
            final(self).same_settings(*old(self)),
            final(self)@.counts == old(self)@.counts,
            r == (match found(old(self)@.tunnels, key@, now) {
                Ok(_) => Status::Success,
                Err(error) => error.answer_status(),
            }),
            final(self)@.tunnels == after_look(old(self)@.tunnels, key@, now),
    {
        match self.active_record(key, now) {
            Ok(_) => Status::Success,
            Err(error) => error.status(),
        }
    }

    /// Admits a connection to a tunnel, as far as the tunnel and its limit go.
    pub fn process_traffic(&mut self, key: &str, now: u64) -> (r: Result<
        TunnelRecord,
        GatewayError,
    >)
        requires
            old(self).wf(),
        ensures
            final(self).wf(),
            final(self).same_settings(*old(self)),
            final(self)@.tunnels == after_look(old(self)@.tunnels, key@, now),
            match found(old(self)@.tunnels, key@, now) {
                Err(error) => {
                    &&& r == Err::<TunnelRecord, _>(error)
                    &&& final(self)@.counts == old(self)@.counts
                },
                Ok(record) => {
                    let counts = old(self)@.counts;
                    let limit = old(self)@.max_connections_per_tunnel;
                    if connections_of(counts, key@) >= limit {
                        &&& r == Err::<TunnelRecord, _>(GatewayError::TunnelConnectionLimit)
                        &&& final(self)@.counts == counts
                    } else {
                        &&& r == Ok::<_, GatewayError>(record)
                        &&& final(self)@.counts == after_request(
                            counts,
                            key@,
                            limit,
                        )
                    }
                },
            },
    {
        let record = match self.active_record(key, now) {
            Ok(record) => record,
            Err(error) => {
                return Err(error);
            },
        };
        let ghost counts = self.per_tunnel_connections@;
        match self.per_tunnel_connections.acquire(key, self.max_connections_per_tunnel) {
            Ok(_) => Ok(record),
            Err(error) => {
                assert(self.per_tunnel_connections@ =~= counts);
                Err(error)
            },
        }
    }

    /// Takes a connection that was admitted into the gateway, where there was room for one more;
    /// else the tunnel gets its connection back.
    pub fn claim_slot(&mut self, key: &str, available: bool) -> (r: Result<(), GatewayError>)
        requires
            old(self).wf(),
        ensures
            final(self).wf(),
            final(self).same_settings(*old(self)),
            final(self)@.tunnels == old(self)@.tunnels,
            r == (if available {
                Ok(())
            } else {
                Err(GatewayError::GatewayConnectionLimit)
            }),
            final(self)@.counts == (if available {
                old(self)@.counts
            } else {
                after_release(old(self)@.counts, key@)
            }),
    {
        if available {
            Ok(())
        } else {
            self.release(key);
            Err(GatewayError::GatewayConnectionLimit)
        }
    }

    /// Gives a connection of a tunnel back.
    pub fn release(&mut self, key: &str)
        requires
            old(self).wf(),
        ensures
            final(self).wf(),
            final(self).same_settings(*old(self)),
            final(self)@.tunnels == old(self)@.tunnels,
            final(self)@.counts == after_release(
                old(self)@.counts,
                key@,
            ),
    {
        self.per_tunnel_connections.release(key);
    }

    /// What the gateway tells of its health, of which the number of free connections is given.
    pub fn health(&self, available_connections: usize) -> (r: Health)
        requires
            self.wf(),
            total(self@.counts) <= usize::MAX,
        ensures
            r.active_tunnels == self@.tunnels.len(),
            r.available_connections == available_connections,
            r.active_tunnel_connections == total(self@.counts),
    {
        let active_tunnel_connections: usize = match self.per_tunnel_connections.sum() {
            Some(sum) => sum,
            None => 0,
        };
        Health {
            active_tunnels: self.connections.len(),
            available_connections,
            active_tunnel_connections,
        }
    }

    /// How the file of the registry is written; `None` where the gateway keeps no file. The
    /// temporary file stands beside the file, with the extension `tmp`; the directory to be made is
    /// the one that holds them.
    pub fn persist_registry(&self) -> (r: Option<PersistPlan>)
        ensures
            r is Some <==> self@.state_file is Some,
            r matches Some(plan) ==> {
                let path = self@.state_file->0;
                &&& plan.destination@ == path
                &&& ends_in_name(path) ==> {
                    &&& plan.directory is Some
                    &&& plan.temporary@ == replaced_extension(path, "tmp"@)
                }
                &&& is_plain(path) ==> plan.directory->0@ == directory_of(path)
                &&& is_portable(path) ==> {
                    &&& plan.directory is Some <==> has_parent(path)
                    &&& plan.directory matches Some(directory) ==> components(directory@)
                        == components(path).drop_last()
                    &&& names_file(path) ==> components(plan.temporary@) == components(
                        path,
                    ).drop_last().push(renamed(components(path).last(), "tmp"@))
                    &&& names_no_file(path) ==> plan.temporary@ == path
                }
                &&& path.len() == 0 || path == "/"@ ==> plan.directory is None
                &&& plan.directory matches Some(directory) ==> directory@.is_prefix_of(path)
                    && directory@.len() < path.len()
            },
    {
        match &self.state_file {
            Some(path) => {
                proof {
                    reveal_strlit("tmp");
                    lemma_root();
                }
                Some(
                    PersistPlan {
                        directory: path_parent(path.as_str()),
                        temporary: path_with_extension(path.as_str(), "tmp"),
                        destination: path.clone(),
                    },
                )
            },
            None => None,
        }
    }
}

/// A name with the extension `tmp`.
pub open spec fn is_temporary(name: Seq<char>) -> bool {
    let dot = last_position(name, '.');
    dot > 0 && name.skip(dot + 1) == "tmp"@
}

/// A name without the extension `tmp` changes when it gets it.
proof fn lemma_renamed(name: Seq<char>)
    requires
        !is_temporary(name),
    ensures
        renamed(name, "tmp"@) != name,
{
    reveal_strlit("tmp");
    let dot = last_position(name, '.');
    lemma_last_position_in_range(name, '.');
    if dot > 0 && renamed(name, "tmp"@) == name {
        assert(renamed(name, "tmp"@).skip(dot + 1) == "tmp"@);
    }
}

/// The registry is never written onto its file: unless the file has the extension `tmp` itself, the
/// temporary file is another one, in the same directory.
pub proof fn law_registry_is_written_beside_its_file(path: Seq<char>)
    requires
        ends_in_name(path),
        !is_temporary(final_name(path)),
    ensures
        replaced_extension(path, "tmp"@) != path,
        replaced_extension(path, "tmp"@).len() > last_position(path, '/') + 1,
        replaced_extension(path, "tmp"@).take(last_position(path, '/') + 1) == path.take(
            last_position(path, '/') + 1,
        ),
{
    reveal_strlit("tmp");
    let start = last_position(path, '/') + 1;
    let temporary = replaced_extension(path, "tmp"@);
    lemma_last_position_in_range(path, '/');
    lemma_renamed(final_name(path));
    assert(temporary.take(start) == path.take(start));
    assert(temporary.skip(start) == renamed(final_name(path), "tmp"@));
}

/// However a portable path is written, the temporary file is not the file of the registry, unless
/// that has the extension `tmp` itself; both stand in the same directory.
pub proof fn law_temporary_file_is_another_file(path: Seq<char>, temporary: Seq<char>)
    requires
        is_portable(path),
        names_file(path),
        !is_temporary(components(path).last()),
        components(temporary) == components(path).drop_last().push(
            renamed(components(path).last(), "tmp"@),
        ),
    ensures
        components(temporary) != components(path),
        components(temporary).drop_last() == components(path).drop_last(),
{
    lemma_renamed(components(path).last());
    assert(components(temporary).last() == renamed(components(path).last(), "tmp"@));
    assert(components(temporary).drop_last() == components(path).drop_last());
}

/// A request that is accepted has a valid key, leads to a host on the list and does not expire at
/// once; from then on the tunnel is found under its key until it expires.
pub proof fn law_accepted_request_is_served(
    tunnels: Map<Seq<char>, TunnelRecord>,
    request: TunnelRequest,
    literal: Option<Seq<char>>,
    allowed: Set<Seq<char>>,
    now: u64,
    later: u64,
)
    requires
        request_verdict(request, literal, allowed, now) is Ok,
        !request.record().expired_at(later),
    ensures
        valid_key(request.key@),
        target_host(request.target@, literal) is Ok,
        allowed.contains(target_host(request.target@, literal)->Ok_0),
        !request.record().expired_at(now),
        found(tunnels.insert(request.key@, request.record()), request.key@, later) == Ok::<
            _,
            GatewayError,
        >(request.record()),
{
}

/// The secret that counts is the one that was given; else the first variable's; else the second's.
pub proof fn law_secret_that_counts(a: String, given: Option<String>, first: Option<String>)
    ensures
        chosen_secret(Some(a), given, first) == Some(a),
        chosen_secret(None, Some(a), first) == Some(a),
        chosen_secret(None, None, first) == first,
{
}

/// A secret is strong exactly where it has at least 32 bytes, and none is not.
pub proof fn law_strong_secrets(secret: String)
    ensures
        is_strong(Some(secret)) <==> encode_utf8(secret@).len() > 31,
        !is_strong(None),
{
}

/// A limit of 0 counts as 1; any other counts as it is.
pub proof fn law_least_limit(n: nat)
    ensures
        at_least_one(0) == 1,
        n > 0 ==> at_least_one(n as int) == n,
{
}

/// Settings that are the same are so one by one.
pub proof fn law_same_settings(one: GlobalState, other: GlobalState)
    requires
        one.same_settings(other),
    ensures
        one@.secret == other@.secret,
        one@.state_file == other@.state_file,
        one@.allowed == other@.allowed,
        one@.capture_root == other@.capture_root,
        one@.max_capture_bytes == other@.max_capture_bytes,
        one@.max_connections_per_tunnel == other@.max_connections_per_tunnel,
        one@.connection_timeout_seconds == other@.connection_timeout_seconds,
{
}

/// A request with a valid key, for an allowed host and a port, and with an expiry to come or none,
/// opens the tunnel that it describes.
pub proof fn law_valid_request_is_accepted(
    request: TunnelRequest,
    host: Seq<char>,
    port: nat,
    literal: Option<Seq<char>>,
    allowed: Set<Seq<char>>,
    now: u64,
)
    requires
        16 <= request.key@.len() <= 128,
        forall|i: int|
            0 <= i < request.key@.len() ==> is_letter_digit_hyphen_or_underscore(
                #[trigger] request.key@[i],
            ),
        request.target@ == host.push(':') + decimal(port),
        host.len() > 0,
        forall|i: int| 0 <= i < host.len() ==> is_letter_digit_dot_or_hyphen(#[trigger] host[i]),
        port <= 65_535,
        allowed.contains(lowered(host)),
        request.expires_at matches Some(expiry) ==> expiry > now,
    ensures
        request_verdict(request, literal, allowed, now) == Ok::<_, GatewayError>(request.record()),
{
    law_valid_key(request.key@);
    law_well_formed_target(host, port, literal, allowed);
}

/// A request is refused for its key first, whatever else it says: where that has a wrong length or
/// another character than a key may. Then it is refused for its target, with what is said of that,
/// and at last for an expiry that is not to come.
pub proof fn law_refused_requests(
    request: TunnelRequest,
    literal: Option<Seq<char>>,
    allowed: Set<Seq<char>>,
    now: u64,
    i: int,
)
    ensures
        request.key@.len() < 16 || request.key@.len() > 128 || (0 <= i < request.key@.len()
            && !is_letter_digit_hyphen_or_underscore(request.key@[i])) ==> request_verdict(
            request,
            literal,
            allowed,
            now,
        ) == Err::<TunnelRecord, _>(GatewayError::InvalidKey),
        valid_key(request.key@) ==> (target_verdict(request.target@, literal, allowed) matches Err(
            error,
        ) ==> request_verdict(request, literal, allowed, now) == Err::<TunnelRecord, _>(error)),
        valid_key(request.key@) && target_verdict(request.target@, literal, allowed) is Ok && (
        request.expires_at matches Some(expiry) && expiry <= now) ==> request_verdict(
            request,
            literal,
            allowed,
            now,
        ) == Err::<TunnelRecord, _>(GatewayError::ExpiryNotInFuture),
{
    law_valid_key(request.key@);
}

/// An optional string is taken as what it holds.
pub proof fn law_text_in(text: String)
    ensures
        text_in(Some(text)) == Some(text@),
        text_in(None) is None,
{
}

/// Expired tunnels are looked for twice a minute.
pub proof fn law_cleanup_interval()
    ensures
        2 * CLEANUP_INTERVAL_SECONDS == 60,
{
}

} // verus!
