//! The local end of a tunnel: which remote addresses it connects to.
use vstd::prelude::*;

use crate::net::{listen_address, listen_text};
use crate::text::same_text;

verus! {

/// How many seconds a remote tunnel has to accept a connection.
pub const REMOTE_TIMEOUT_SECONDS: u64 = 15;

/// Why a remote address is refused.
#[derive(Clone, Copy, Debug, PartialEq, Eq, Structural)]
pub enum ConnectError {
    /// The address is no URL.
    InvalidAddress,
    /// The address is a URL for another protocol than WebSocket.
    UnsupportedScheme,
}

impl ConnectError {
    /// What the user is told.
    pub open spec fn text(self) -> Seq<char> {
        match self {
            ConnectError::InvalidAddress => {
                "连接地址无效，请粘贴题目页提供的完整 ws:// 或 wss:// 地址。"@
            },
            ConnectError::UnsupportedScheme => "连接地址协议无效，只支持 ws:// 或 wss://。"@,
        }
    }

    /// What the user is told.
    pub fn message(&self) -> (r: String)
        ensures
            r@ == self.text(),
    {
        match self {
            ConnectError::InvalidAddress => {
                "连接地址无效，请粘贴题目页提供的完整 ws:// 或 wss:// 地址。".to_string()
            },
            ConnectError::UnsupportedScheme => {
                "连接地址协议无效，只支持 ws:// 或 wss://。".to_string()
            },
        }
    }
}

/// The scheme and the normal form of the absolute URL that a text writes, as `Url::parse` reads
/// it; `None` where it reads no URL.
pub uninterp spec fn parsed_url(address: Seq<char>) -> Option<(Seq<char>, Seq<char>)>;

/// A scheme of WebSocket URLs.
pub open spec fn is_websocket_scheme(scheme: Seq<char>) -> bool {
    scheme == "ws"@ || scheme == "wss"@
}

/// `Url::parse`, from the crate `url`: the scheme and the normal form of the absolute URL that a
/// text writes. The normal form of a WebSocket URL begins with its scheme, a colon and two
/// slashes. How a URL is read otherwise is not stated.
#[verifier::external_body]
fn parse_url(address: &str) -> (r: Option<(String, String)>)
    ensures
        r is Some <==> parsed_url(address@) is Some,
        r matches Some((scheme, text)) ==> parsed_url(address@) == Some((scheme@, text@)),
        r matches Some((scheme, text)) ==> is_websocket_scheme(scheme@) ==> (scheme@
            + "://"@).is_prefix_of(text@),
{
    match url::Url::parse(address) {
        Ok(url) => Some((url.scheme().to_string(), url.as_str().to_string())),
        Err(_) => None,
    }
}

/// The remote address that a parsed URL names, or why it is refused.
pub open spec fn remote_of(parsed: Option<(Seq<char>, Seq<char>)>) -> Result<
    Seq<char>,
    ConnectError,
> {
    match parsed {
        Some((scheme, text)) => if is_websocket_scheme(scheme) {
            Ok(text)
        } else {
            Err(ConnectError::UnsupportedScheme)
        },
        None => Err(ConnectError::InvalidAddress),
    }
}

/// The scheme and the normal form of a parsed URL as texts.
pub open spec fn url_texts(parsed: Option<(String, String)>) -> Option<(Seq<char>, Seq<char>)> {
    match parsed {
        Some((scheme, text)) => Some((scheme@, text@)),
        None => None,
    }
}

/// Accepts a parsed URL for the WebSocket protocol, given by its scheme and its normal form.
pub fn remote_address(parsed: Option<(String, String)>) -> (r: Result<String, ConnectError>)
    ensures
        match remote_of(url_texts(parsed)) {
            Ok(remote) => r is Ok && r->Ok_0@ == remote,
            Err(error) => r is Err && r->Err_0 == error,
        },
{
    match parsed {
        Some((scheme, text)) => {
            if same_text(scheme.as_str(), "ws") || same_text(scheme.as_str(), "wss") {
                Ok(text)
            } else {
                Err(ConnectError::UnsupportedScheme)
            }
        },
        None => Err(ConnectError::InvalidAddress),
    }
}

/// What the local end of a tunnel does.
#[derive(Debug, PartialEq, Eq)]
pub struct ConnectPlan {
    /// The address to listen on.
    pub listen: String,
    /// The remote address that each connection is taken to.
    pub remote: String,
}

/// The local end of a tunnel to a WebSocket address.
pub fn launch(address: &str, host: Option<String>, port: Option<u16>) -> (r: Result<
    ConnectPlan,
    ConnectError,
>)
    ensures
        match remote_of(parsed_url(address@)) {
            Ok(remote) => r is Ok && r->Ok_0.remote@ == remote,
            Err(error) => r is Err && r->Err_0 == error,
        },
        r matches Ok(plan) ==> {
            &&& plan.listen@ == listen_text(host, port)
            &&& ("ws://"@).is_prefix_of(plan.remote@) || ("wss://"@).is_prefix_of(plan.remote@)
        },
{
    let parsed = parse_url(address);
    assert(url_texts(parsed) == parsed_url(address@));
    proof {
        reveal_strlit("ws");
        reveal_strlit("wss");
        reveal_strlit("://");
        reveal_strlit("ws://");
        reveal_strlit("wss://");
        assert("ws"@ + "://"@ == "ws://"@);
        assert("wss"@ + "://"@ == "wss://"@);
    }
    match remote_address(parsed) {
        Ok(remote) => Ok(ConnectPlan { listen: listen_address(host, port), remote }),
        Err(error) => Err(error),
    }
}

/// A URL leads to a remote tunnel exactly where its scheme is that of WebSocket, plain or secure;
/// the tunnel is then at the URL itself.
pub proof fn law_only_websocket_urls_are_taken(scheme: Seq<char>, text: Seq<char>)
    ensures
        scheme == seq!['w', 's'] || scheme == seq!['w', 's', 's'] ==> remote_of(
            Some((scheme, text)),
        ) == Ok::<_, ConnectError>(text),
        scheme != seq!['w', 's'] && scheme != seq!['w', 's', 's'] ==> remote_of(
            Some((scheme, text)),
        ) == Err::<Seq<char>, _>(ConnectError::UnsupportedScheme),
        remote_of(None) == Err::<Seq<char>, _>(ConnectError::InvalidAddress),
{
    reveal_strlit("ws");
    reveal_strlit("wss");
    assert("ws"@ == seq!['w', 's']);
    assert("wss"@ == seq!['w', 's', 's']);
}

/// A URL is judged by its own scheme and its own text.
pub proof fn law_url_texts(scheme: String, text: String)
    ensures
        url_texts(Some((scheme, text))) == Some((scheme@, text@)),
        url_texts(None) is None,
{
}

/// A remote tunnel has a quarter of a minute to accept a connection.
pub proof fn law_remote_timeout()
    ensures
        4 * REMOTE_TIMEOUT_SECONDS == 60,
{
}

} // verus!
