//! Why the gateway refuses a request, and how it answers.
use vstd::prelude::*;

verus! {

/// The HTTP statuses that the gateway answers with.
#[derive(Clone, Copy, Debug, PartialEq, Eq, Structural)]
pub enum Status {
    Success,
    Created,
    NoContent,
    BadRequest,
    Unauthorized,
    Forbidden,
    NotFound,
    Gone,
    TooManyRequests,
    InternalServerError,
    ServiceUnavailable,
}

impl Status {
    /// The number of the status.
    pub open spec fn number(self) -> u16 {
        match self {
            Status::Success => 200,
            Status::Created => 201,
            Status::NoContent => 204,
            Status::BadRequest => 400,
            Status::Unauthorized => 401,
            Status::Forbidden => 403,
            Status::NotFound => 404,
            Status::Gone => 410,
            Status::TooManyRequests => 429,
            Status::InternalServerError => 500,
            Status::ServiceUnavailable => 503,
        }
    }

    /// The number of the status.
    pub fn code(&self) -> (r: u16)
        ensures
            r == self.number(),
    {
        match self {
            Status::Success => 200,
            Status::Created => 201,
            Status::NoContent => 204,
            Status::BadRequest => 400,
            Status::Unauthorized => 401,
            Status::Forbidden => 403,
            Status::NotFound => 404,
            Status::Gone => 410,
            Status::TooManyRequests => 429,
            Status::InternalServerError => 500,
            Status::ServiceUnavailable => 503,
        }
    }
}

/// Why a request is refused.
#[derive(Debug, PartialEq, Eq)]
pub enum GatewayError {
    /// The key of a tunnel has a wrong length or holds other characters than a URL may.
    InvalidKey,
    /// The target of a tunnel names no port.
    TargetWithoutPort,
    /// The host or the port of a target is malformed.
    InvalidTarget,
    /// The host of a target is not on the list of allowed hosts.
    HostNotAllowed,
    /// A tunnel would have expired already.
    ExpiryNotInFuture,
    /// There is no such tunnel.
    TunnelNotFound,
    /// The tunnel has expired.
    TunnelExpired,
    /// The counters of the tunnels cannot be used.
    CounterUnavailable,
    /// The tunnel has as many connections as it may have.
    TunnelConnectionLimit,
    /// The gateway has as many connections as it may have.
    GatewayConnectionLimit,
    /// The registry could not be written as JSON.
    SerializeFailed(String),
    /// The registry could not be stored.
    PersistFailed(String),
}

impl GatewayError {
    /// The status of the answer.
    pub open spec fn answer_status(self) -> Status {
        match self {
            GatewayError::InvalidKey => Status::BadRequest,
            GatewayError::TargetWithoutPort => Status::BadRequest,
            GatewayError::InvalidTarget => Status::BadRequest,
            GatewayError::HostNotAllowed => Status::Forbidden,
            GatewayError::ExpiryNotInFuture => Status::BadRequest,
            GatewayError::TunnelNotFound => Status::NotFound,
            GatewayError::TunnelExpired => Status::Gone,
            GatewayError::CounterUnavailable => Status::InternalServerError,
            GatewayError::TunnelConnectionLimit => Status::TooManyRequests,
            GatewayError::GatewayConnectionLimit => Status::ServiceUnavailable,
            GatewayError::SerializeFailed(_) => Status::InternalServerError,
            GatewayError::PersistFailed(_) => Status::InternalServerError,
        }
    }

    /// The text of the answer.
    pub open spec fn answer_text(self) -> Seq<char> {
        match self {
            GatewayError::InvalidKey => "key must contain 16-128 URL-safe ASCII characters"@,
            GatewayError::TargetWithoutPort => "target must include a host and port"@,
            GatewayError::InvalidTarget => "invalid tunnel target"@,
            GatewayError::HostNotAllowed => "target host is not allowed"@,
            GatewayError::ExpiryNotInFuture => "expiresAt must be in the future"@,
            GatewayError::TunnelNotFound => "tunnel not found"@,
            GatewayError::TunnelExpired => "tunnel expired"@,
            GatewayError::CounterUnavailable => "connection counter unavailable"@,
            GatewayError::TunnelConnectionLimit => "tunnel connection limit reached"@,
            GatewayError::GatewayConnectionLimit => "gateway connection limit reached"@,
            GatewayError::SerializeFailed(cause) => "failed to serialize tunnel registry: "@
                + cause@,
            GatewayError::PersistFailed(cause) => "failed to persist tunnel registry: "@ + cause@,
        }
    }

    /// The status of the answer.
    pub fn status(&self) -> (r: Status)
        ensures
            r == self.answer_status(),
    {
        match self {
            GatewayError::InvalidKey => Status::BadRequest,
            GatewayError::TargetWithoutPort => Status::BadRequest,
            GatewayError::InvalidTarget => Status::BadRequest,
            GatewayError::HostNotAllowed => Status::Forbidden,
            GatewayError::ExpiryNotInFuture => Status::BadRequest,
            GatewayError::TunnelNotFound => Status::NotFound,
            GatewayError::TunnelExpired => Status::Gone,
            GatewayError::CounterUnavailable => Status::InternalServerError,
            GatewayError::TunnelConnectionLimit => Status::TooManyRequests,
            GatewayError::GatewayConnectionLimit => Status::ServiceUnavailable,
            GatewayError::SerializeFailed(_) => Status::InternalServerError,
            GatewayError::PersistFailed(_) => Status::InternalServerError,
        }
    }

    /// The text of the answer.
    pub fn message(&self) -> (r: String)
        ensures
            r@ == self.answer_text(),
    {
        match self {
            GatewayError::InvalidKey => {
                "key must contain 16-128 URL-safe ASCII characters".to_string()
            },
            GatewayError::TargetWithoutPort => "target must include a host and port".to_string(),
            GatewayError::InvalidTarget => "invalid tunnel target".to_string(),
            GatewayError::HostNotAllowed => "target host is not allowed".to_string(),
            GatewayError::ExpiryNotInFuture => "expiresAt must be in the future".to_string(),
            GatewayError::TunnelNotFound => "tunnel not found".to_string(),
            GatewayError::TunnelExpired => "tunnel expired".to_string(),
            GatewayError::CounterUnavailable => "connection counter unavailable".to_string(),
            GatewayError::TunnelConnectionLimit => "tunnel connection limit reached".to_string(),
            GatewayError::GatewayConnectionLimit => "gateway connection limit reached".to_string(),
            GatewayError::SerializeFailed(cause) => {
                let mut r = "failed to serialize tunnel registry: ".to_string();
                r.append(cause.as_str());
                r
            },
            GatewayError::PersistFailed(cause) => {
                let mut r = "failed to persist tunnel registry: ".to_string();
                r.append(cause.as_str());
                r
            },
        }
    }
}

/// A failure to write the file of the registry.
pub fn internal_io_error(cause: &str) -> (r: GatewayError)
    ensures
        r matches GatewayError::PersistFailed(text) && text@ == cause@,
        r.answer_status() == Status::InternalServerError,
{
    GatewayError::PersistFailed(cause.to_string())
}

/// The answer to a failure of the registry's file tells the cause at its end, whatever the cause,
/// and different causes get different answers.
pub proof fn law_answers_tell_the_cause(cause: String, other: String)
    ensures
        GatewayError::SerializeFailed(cause).answer_text() == "failed to serialize tunnel registry: "@
            + cause@,
        GatewayError::PersistFailed(cause).answer_text() == "failed to persist tunnel registry: "@
            + cause@,
        GatewayError::PersistFailed(cause).answer_text() == GatewayError::PersistFailed(
            other,
        ).answer_text() ==> cause@ == other@,
        GatewayError::SerializeFailed(cause).answer_status().number() == 500,
        GatewayError::PersistFailed(cause).answer_status().number() == 500,
{
    let beginning = "failed to persist tunnel registry: "@;
    let n = beginning.len() as int;
    assert((beginning + cause@).skip(n) == cause@);
    assert((beginning + other@).skip(n) == other@);
}

} // verus!
