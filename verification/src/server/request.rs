//! The server-side WebSocket request.

use crate::result::{WebSocketError, WebSocketResult};
use crate::server::upgrade::{
    check_connection_header, check_upgrade_header, connection_names,
    lemma_connection_names_any_order, unicase_equal, upgrades_to_websocket, ConnectionOption,
    HyperIntoWsError, Method, ProtocolVersion, UpgradeHeaders, WebSocketVersion,
};
use vstd::prelude::*;

verus! {

/// Represents a server-side (incoming) request.
#[derive(Debug, Clone, PartialEq, Eq)]
pub struct Request {
    /// The HTTP method used to create the request. All values except `Method::Get` are
    /// rejected by `validate()`.
    pub method: Method,
    /// The target URI for this request.
    pub url: String,
    /// The HTTP version of this request.
    pub version: ProtocolVersion,
    /// The headers of this request.
    pub headers: UpgradeHeaders,
}

/// The error with which a request is refused, if any: the method must be
/// GET, the HTTP version 1.1 (HTTP 2 is not supported), the WebSocket
/// version 13, and the key, an `Upgrade: websocket` and a `Connection:
/// Upgrade` must be present.
pub open spec fn request_error(r: Request) -> Option<HyperIntoWsError> {
    if r.method != Method::Get {
        Some(HyperIntoWsError::MethodNotGet)
    } else if r.version == ProtocolVersion::Http09 || r.version == ProtocolVersion::Http10
        || r.version == ProtocolVersion::Http20 {
        Some(HyperIntoWsError::UnsupportedHttpVersion)
    } else if !(r.headers.websocket_version matches Some(v) && v is WebSocket13) {
        Some(HyperIntoWsError::UnsupportedWebsocketVersion)
    } else if r.headers.key is None {
        Some(HyperIntoWsError::NoSecWsKeyHeader)
    } else if r.headers.upgrade is None {
        Some(HyperIntoWsError::NoUpgradeHeader)
    } else if !upgrades_to_websocket(r.headers.upgrade.unwrap()@) {
        Some(HyperIntoWsError::NoWsUpgradeHeader)
    } else if r.headers.connection is None {
        Some(HyperIntoWsError::NoConnectionHeader)
    } else if !connection_names(r.headers.connection.unwrap()@, "Upgrade"@) {
        Some(HyperIntoWsError::NoWsConnectionHeader)
    } else {
        None
    }
}

impl Request {
    /// Short-cut to obtain the WebSocketKey value.
    pub fn key(&self) -> (k: Option<&String>)
        ensures
            k == match self.headers.key {
                Some(ref s) => Some(s),
                None => None::<&String>,
            },
    {
        self.headers.key.as_ref()
    }

    /// Short-cut to obtain the WebSocketVersion value.
    pub fn version(&self) -> (v: Option<&WebSocketVersion>)
        ensures
            v == match self.headers.websocket_version {
                Some(ref s) => Some(s),
                None => None::<&WebSocketVersion>,
            },
    {
        self.headers.websocket_version.as_ref()
    }

    /// Short-cut to obtain the WebSocketProtocol value.
    pub fn protocol(&self) -> (p: Option<&Vec<String>>)
        ensures
            p == match self.headers.protocol {
                Some(ref s) => Some(s),
                None => None::<&Vec<String>>,
            },
    {
        self.headers.protocol.as_ref()
    }

    /// Short-cut to obtain the WebSocketExtensions value.
    pub fn extensions(&self) -> (e: Option<&Vec<String>>)
        ensures
            e == match self.headers.extensions {
                Some(ref s) => Some(s),
                None => None::<&Vec<String>>,
            },
    {
        self.headers.extensions.as_ref()
    }

    /// Short-cut to obtain the Origin value.
    pub fn origin(&self) -> (o: Option<&String>)
        ensures
            o == match self.headers.origin {
                Some(ref s) => Some(s),
                None => None::<&String>,
            },
    {
        self.headers.origin.as_ref()
    }

    /// Check if this constitutes a valid WebSocket upgrade request.
    pub fn validate(&self) -> (r: WebSocketResult<()>)
        ensures
            match request_error(*self) {
                Some(e) => r == Err::<(), WebSocketError>(WebSocketError::RequestError(e)),
                None => r is Ok,
            },
    {
        match self.method {
            Method::Get => {},
            _ => {
                return Err(WebSocketError::RequestError(HyperIntoWsError::MethodNotGet));
            },
        }
        match self.version {
            ProtocolVersion::Http09 | ProtocolVersion::Http10 | ProtocolVersion::Http20 => {
                return Err(WebSocketError::RequestError(HyperIntoWsError::UnsupportedHttpVersion));
            },
            _ => {},
        }
        match self.version() {
            Some(WebSocketVersion::WebSocket13) => {},
            _ => {
                return Err(
                    WebSocketError::RequestError(HyperIntoWsError::UnsupportedWebsocketVersion),
                );
            },
        }
        if self.key().is_none() {
            return Err(WebSocketError::RequestError(HyperIntoWsError::NoSecWsKeyHeader));
        }
        match &self.headers.upgrade {
            Some(upgrade) => {
                if !check_upgrade_header(upgrade) {
                    return Err(WebSocketError::RequestError(HyperIntoWsError::NoWsUpgradeHeader));
                }
            },
            None => {
                return Err(WebSocketError::RequestError(HyperIntoWsError::NoUpgradeHeader));
            },
        }
        match &self.headers.connection {
            Some(connection) => {
                if !check_connection_header(connection, "Upgrade") {
                    return Err(WebSocketError::RequestError(HyperIntoWsError::NoWsConnectionHeader));
                }
            },
            None => {
                return Err(WebSocketError::RequestError(HyperIntoWsError::NoConnectionHeader));
            },
        }
        Ok(())
    }
}

/// A request is never refused for its `Connection` header when some option
/// of that header, wherever it stands, names `Upgrade` (ignoring case); and
/// the check does not depend on the order of the options.
pub proof fn lemma_request_connection_anywhere(r: Request, i: int, reordered: Request)
    requires
        r.headers.connection matches Some(o) && 0 <= i < o@.len() && (o@[i] matches ConnectionOption::ConnectionHeader(h)
            && unicase_equal(h@, "Upgrade"@)),
        reordered.method == r.method,
        reordered.version == r.version,
        reordered.headers.websocket_version == r.headers.websocket_version,
        reordered.headers.key == r.headers.key,
        reordered.headers.upgrade == r.headers.upgrade,
        reordered.headers.connection matches Some(o2) && o2@.to_multiset()
            == r.headers.connection.unwrap()@.to_multiset(),
    ensures
        request_error(r) != Some(HyperIntoWsError::NoWsConnectionHeader),
        request_error(r) == request_error(reordered),
{
    let o = r.headers.connection.unwrap()@;
    assert(connection_names(o, "Upgrade"@));
    lemma_connection_names_any_order(o, reordered.headers.connection.unwrap()@, "Upgrade"@);
}

} // verus!
