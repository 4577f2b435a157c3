//! Checking that an HTTP request is a valid WebSocket upgrade request.

use crate::result::{IoErrorKind, WebSocketResult};
use crate::server::request::Request;
use crate::util::header::{
    headers_bytes, inserted_value, lower_str, removed_entries, HeaderCollection, WriteHttpHeaders,
};
use crate::util::strcmp::ascii_eq_ignore_case;
use crate::util::text::texts;
use crate::ws::handshake::response::{
    accept_value, handshake_successful, key_hashable, version_13_if_given, WebSocketResponse,
};
use crate::ws::util::buffer::extend_bytes;
use vstd::prelude::*;
use vstd::utf8::{encode_utf8, is_ascii_chars};

verus! {

/// The method of an HTTP request.
#[derive(Debug, Clone, PartialEq, Eq)]
pub enum Method {
    /// OPTIONS
    Options,
    /// GET
    Get,
    /// POST
    Post,
    /// PUT
    Put,
    /// DELETE
    Delete,
    /// HEAD
    Head,
    /// TRACE
    Trace,
    /// CONNECT
    Connect,
    /// PATCH
    Patch,
    /// Any other method, by its name.
    Extension(String),
}

/// The version of the HTTP protocol a request is made with.
#[derive(Debug, Clone, Copy, PartialEq, Eq, Structural)]
pub enum ProtocolVersion {
    /// HTTP/0.9
    Http09,
    /// HTTP/1.0
    Http10,
    /// HTTP/1.1
    Http11,
    /// HTTP/2.0
    Http20,
}

/// The WebSocket version a request asks for.
#[derive(Debug, Clone, PartialEq, Eq)]
pub enum WebSocketVersion {
    /// The version of RFC 6455.
    WebSocket13,
    /// Any other version, as written.
    Unknown(String),
}

/// The name of a protocol in an `Upgrade` header.
#[derive(Debug, Clone, PartialEq, Eq)]
pub enum ProtocolName {
    /// `HTTP`
    Http,
    /// `TLS`
    Tls,
    /// `websocket`
    WebSocket,
    /// `h2c`
    H2c,
    /// Any other protocol, as written.
    Unregistered(String),
}

/// A protocol in an `Upgrade` header.
#[derive(Debug, Clone, PartialEq, Eq)]
pub struct Protocol {
    /// The protocol's name.
    pub name: ProtocolName,
    /// The protocol's version, if given.
    pub version: Option<String>,
}

/// An option in a `Connection` header.
#[derive(Debug, Clone, PartialEq, Eq)]
pub enum ConnectionOption {
    /// `keep-alive`
    KeepAlive,
    /// `close`
    Close,
    /// Any other option: the name of a header field.
    ConnectionHeader(String),
}

/// The headers of a request that an upgrade depends on.
#[derive(Debug, Clone, PartialEq, Eq)]
pub struct UpgradeHeaders {
    /// The `Sec-WebSocket-Version` header, if present.
    pub websocket_version: Option<WebSocketVersion>,
    /// The `Sec-WebSocket-Key` header, if present.
    pub key: Option<String>,
    /// The `Upgrade` header, if present.
    pub upgrade: Option<Vec<Protocol>>,
    /// The `Connection` header, if present.
    pub connection: Option<Vec<ConnectionOption>>,
    /// The `Sec-WebSocket-Protocol` header, if present.
    pub protocol: Option<Vec<String>>,
    /// The `Sec-WebSocket-Extensions` header, if present.
    pub extensions: Option<Vec<String>>,
    /// The `Origin` header, if present.
    pub origin: Option<String>,
}

/// Errors that can occur when one tries to upgrade a connection to a
/// websocket connection.
#[derive(Debug, Clone, Copy, PartialEq, Eq, Structural)]
pub enum HyperIntoWsError {
    /// The HTTP method in a valid websocket upgrade request must be GET
    MethodNotGet,
    /// Currently HTTP 2 is not supported
    UnsupportedHttpVersion,
    /// Currently only WebSocket13 is supported (RFC6455)
    UnsupportedWebsocketVersion,
    /// A websocket upgrade request must contain a key
    NoSecWsKeyHeader,
    /// A websocket upgrade request must ask to upgrade to a `websocket`
    NoWsUpgradeHeader,
    /// A websocket upgrade request must contain an `Upgrade` header
    NoUpgradeHeader,
    /// A websocket upgrade request's `Connection` header must be `Upgrade`
    NoWsConnectionHeader,
    /// A websocket upgrade request must contain a `Connection` header
    NoConnectionHeader,
    /// IO error from reading the underlying socket
    Io(IoErrorKind),
    /// Error while parsing an incoming request
    Parsing,
}

/// The human readable text of an error of this kind.
pub open spec fn upgrade_error_text(e: HyperIntoWsError) -> Seq<char> {
    match e {
        HyperIntoWsError::MethodNotGet => "Request method must be GET"@,
        HyperIntoWsError::UnsupportedHttpVersion => "Unsupported request HTTP version"@,
        HyperIntoWsError::UnsupportedWebsocketVersion => "Unsupported WebSocket version"@,
        HyperIntoWsError::NoSecWsKeyHeader => "Missing Sec-WebSocket-Key header"@,
        HyperIntoWsError::NoWsUpgradeHeader => "Invalid Upgrade WebSocket header"@,
        HyperIntoWsError::NoUpgradeHeader => "Missing Upgrade WebSocket header"@,
        HyperIntoWsError::NoWsConnectionHeader => "Invalid Connection WebSocket header"@,
        HyperIntoWsError::NoConnectionHeader => "Missing Connection WebSocket header"@,
        HyperIntoWsError::Io(IoErrorKind::InvalidData) => "invalid data"@,
        HyperIntoWsError::Io(IoErrorKind::UnexpectedEof) => "unexpected end of file"@,
        HyperIntoWsError::Io(IoErrorKind::InvalidInput) => "invalid input parameter"@,
        HyperIntoWsError::Parsing => "Invalid HTTP request"@,
    }
}

impl HyperIntoWsError {
    /// The human readable text of this error.
    pub fn description(&self) -> (r: &'static str)
        ensures
            r@ == upgrade_error_text(*self),
    {
        match self {
            HyperIntoWsError::MethodNotGet => "Request method must be GET",
            HyperIntoWsError::UnsupportedHttpVersion => "Unsupported request HTTP version",
            HyperIntoWsError::UnsupportedWebsocketVersion => "Unsupported WebSocket version",
            HyperIntoWsError::NoSecWsKeyHeader => "Missing Sec-WebSocket-Key header",
            HyperIntoWsError::NoWsUpgradeHeader => "Invalid Upgrade WebSocket header",
            HyperIntoWsError::NoUpgradeHeader => "Missing Upgrade WebSocket header",
            HyperIntoWsError::NoWsConnectionHeader => "Invalid Connection WebSocket header",
            HyperIntoWsError::NoConnectionHeader => "Missing Connection WebSocket header",
            HyperIntoWsError::Io(IoErrorKind::InvalidData) => "invalid data",
            HyperIntoWsError::Io(IoErrorKind::UnexpectedEof) => "unexpected end of file",
            HyperIntoWsError::Io(IoErrorKind::InvalidInput) => "invalid input parameter",
            HyperIntoWsError::Parsing => "Invalid HTTP request",
        }
    }
}

/// Whether `a` and `b` are equal when case is ignored, as `unicase` compares
/// them (with full Unicode case folding).
pub uninterp spec fn unicase_equal(a: Seq<char>, b: Seq<char>) -> bool;

/// `unicase::eq`: equality ignoring case. Its documentation says that two
/// ASCII strings are compared ignoring ASCII case; other strings are compared
/// by Unicode case folding, which is named by `unicase_equal` and not stated.
#[verifier::external_body]
pub(crate) fn unicase_eq(a: &str, b: &str) -> (r: bool)
    ensures
        r == unicase_equal(a@, b@),
        is_ascii_chars(a@) && is_ascii_chars(b@) ==> r == ascii_eq_ignore_case(a@, b@),
{
    unicase::eq(a, b)
}

/// Whether some option of a `Connection` header names the header field `name`.
pub open spec fn connection_names(options: Seq<ConnectionOption>, name: Seq<char>) -> bool {
    exists|i: int|
        0 <= i < options.len() && (#[trigger] options[i] matches ConnectionOption::ConnectionHeader(h)
            && unicase_equal(h@, name))
}

/// Whether some protocol of an `Upgrade` header is `websocket`.
pub open spec fn upgrades_to_websocket(protocols: Seq<Protocol>) -> bool {
    exists|i: int| 0 <= i < protocols.len() && #[trigger] protocols[i].name is WebSocket
}

/// Whether some option of `options` names the header field `name`.
pub(crate) fn check_connection_header(options: &Vec<ConnectionOption>, name: &str) -> (b: bool)
    ensures
        b == connection_names(options@, name@),
{
    let mut i: usize = 0;
    while i < options.len()
        invariant
            i <= options@.len(),
            forall|j: int|
                0 <= j < i ==> !(#[trigger] options@[j] matches ConnectionOption::ConnectionHeader(h)
                    && unicase_equal(h@, name@)),
        decreases options@.len() - i,
    {
        if let ConnectionOption::ConnectionHeader(h) = &options[i] {
            if unicase_eq(h.as_str(), name) {
                return true;
            }
        }
        i = i + 1;
    }
    false
}

/// Whether some protocol of `protocols` is `websocket`.
pub(crate) fn check_upgrade_header(protocols: &Vec<Protocol>) -> (b: bool)
    ensures
        b == upgrades_to_websocket(protocols@),
{
    let mut i: usize = 0;
    while i < protocols.len()
        invariant
            i <= protocols@.len(),
            forall|j: int| 0 <= j < i ==> !(#[trigger] protocols@[j].name is WebSocket),
        decreases protocols@.len() - i,
    {
        if let ProtocolName::WebSocket = protocols[i].name {
            return true;
        }
        i = i + 1;
    }
    false
}

/// The error with which a request is refused as an upgrade request, if any:
/// the method must be GET, the HTTP version 1.1 (HTTP 2 is not supported),
/// a WebSocket version (if given) 13, and the key, an `Upgrade: websocket`
/// and a `Connection: upgrade` must be present.
pub open spec fn upgrade_error(method: Method, version: ProtocolVersion, headers: UpgradeHeaders) -> Option<
    HyperIntoWsError,
> {
    if method != Method::Get {
        Some(HyperIntoWsError::MethodNotGet)
    } else if version == ProtocolVersion::Http09 || version == ProtocolVersion::Http10
        || version == ProtocolVersion::Http20 {
        Some(HyperIntoWsError::UnsupportedHttpVersion)
    } else if headers.websocket_version matches Some(v) && !(v is WebSocket13) {
        Some(HyperIntoWsError::UnsupportedWebsocketVersion)
    } else if headers.key is None {
        Some(HyperIntoWsError::NoSecWsKeyHeader)
    } else if headers.upgrade is None {
        Some(HyperIntoWsError::NoUpgradeHeader)
    } else if !upgrades_to_websocket(headers.upgrade.unwrap()@) {
        Some(HyperIntoWsError::NoWsUpgradeHeader)
    } else if headers.connection is None {
        Some(HyperIntoWsError::NoConnectionHeader)
    } else if !connection_names(headers.connection.unwrap()@, "upgrade"@) {
        Some(HyperIntoWsError::NoWsConnectionHeader)
    } else {
        None
    }
}

/// Whether the `Connection` options name `upgrade` does not depend on their
/// order: options that are a rearrangement of each other both name it or
/// both do not.
pub proof fn lemma_connection_names_any_order(a: Seq<ConnectionOption>, b: Seq<ConnectionOption>, name: Seq<char>)
    requires
        a.to_multiset() == b.to_multiset(),
    ensures
        connection_names(a, name) == connection_names(b, name),
{
    broadcast use vstd::seq_lib::group_to_multiset_ensures;

    if connection_names(a, name) {
        let i = choose|i: int|
            0 <= i < a.len() && (#[trigger] a[i] matches ConnectionOption::ConnectionHeader(h)
                && unicase_equal(h@, name));
        assert(a.contains(a[i]));
        assert(a.to_multiset().count(a[i]) > 0);
        assert(b.to_multiset().count(a[i]) > 0);
        assert(b.contains(a[i]));
        let j = choose|j: int| 0 <= j < b.len() && b[j] == a[i];
        assert(b[j] matches ConnectionOption::ConnectionHeader(h) && unicase_equal(h@, name));
    }
    if connection_names(b, name) {
        let i = choose|i: int|
            0 <= i < b.len() && (#[trigger] b[i] matches ConnectionOption::ConnectionHeader(h)
                && unicase_equal(h@, name));
        assert(b.contains(b[i]));
        assert(b.to_multiset().count(b[i]) > 0);
        assert(a.to_multiset().count(b[i]) > 0);
        assert(a.contains(b[i]));
        let j = choose|j: int| 0 <= j < a.len() && a[j] == b[i];
        assert(a[j] matches ConnectionOption::ConnectionHeader(h) && unicase_equal(h@, name));
    }
}

/// An upgrade request is never refused for its `Connection` header when some
/// option of that header, wherever it stands, names `upgrade` (ignoring
/// case); and the check does not depend on the order of the options.
pub proof fn lemma_connection_option_anywhere(
    method: Method,
    version: ProtocolVersion,
    headers: UpgradeHeaders,
    i: int,
    reordered: UpgradeHeaders,
)
    requires
        headers.connection matches Some(o) && 0 <= i < o@.len() && (o@[i] matches ConnectionOption::ConnectionHeader(h)
            && unicase_equal(h@, "upgrade"@)),
        reordered.websocket_version == headers.websocket_version,
        reordered.key == headers.key,
        reordered.upgrade == headers.upgrade,
        reordered.connection matches Some(o2) && o2@.to_multiset() == headers.connection.unwrap()@.to_multiset(),
    ensures
        upgrade_error(method, version, headers) != Some(HyperIntoWsError::NoWsConnectionHeader),
        upgrade_error(method, version, headers) == upgrade_error(method, version, reordered),
{
    let o = headers.connection.unwrap()@;
    assert(connection_names(o, "upgrade"@));
    lemma_connection_names_any_order(o, reordered.connection.unwrap()@, "upgrade"@);
}

/// Checks that a request (its method, HTTP version and headers) is a valid
/// WebSocket upgrade request.
pub fn validate(method: &Method, version: &ProtocolVersion, headers: &UpgradeHeaders) -> (r: Result<
    (),
    HyperIntoWsError,
>)
    ensures
        match upgrade_error(*method, *version, *headers) {
            Some(e) => r == Err::<(), HyperIntoWsError>(e),
            None => r is Ok,
        },
{
    match method {
        Method::Get => {},
        _ => {
            return Err(HyperIntoWsError::MethodNotGet);
        },
    }
    match version {
        ProtocolVersion::Http09 | ProtocolVersion::Http10 | ProtocolVersion::Http20 => {
            return Err(HyperIntoWsError::UnsupportedHttpVersion);
        },
        _ => {},
    }
    if let Some(v) = &headers.websocket_version {
        match v {
            WebSocketVersion::WebSocket13 => {},
            _ => {
                return Err(HyperIntoWsError::UnsupportedWebsocketVersion);
            },
        }
    }
    if headers.key.is_none() {
        return Err(HyperIntoWsError::NoSecWsKeyHeader);
    }
    match &headers.upgrade {
        Some(upgrade) => {
            if !check_upgrade_header(upgrade) {
                return Err(HyperIntoWsError::NoWsUpgradeHeader);
            }
        },
        None => {
            return Err(HyperIntoWsError::NoUpgradeHeader);
        },
    }
    match &headers.connection {
        Some(connection) => {
            if !check_connection_header(connection, "upgrade") {
                return Err(HyperIntoWsError::NoWsConnectionHeader);
            }
        },
        None => {
            return Err(HyperIntoWsError::NoConnectionHeader);
        },
    }
    Ok(())
}


/// Any error that could occur when attempting to parse data into a
/// websocket upgrade request.
#[derive(Debug, Clone, Copy, PartialEq, Eq, Structural)]
pub enum IntoWsError {
    /// If the request was not actually asking for a websocket connection
    RequestIsNotUpgrade,
}

/// The response header naming the protocol the server chose.
pub const PROTOCOL_FIELD: &'static str = "Sec-WebSocket-Protocol";

/// The response header naming the extensions the server chose.
pub const EXTENSIONS_FIELD: &'static str = "Sec-WebSocket-Extensions";

/// The response header that proves the server read the client's key.
pub const ACCEPT_FIELD: &'static str = "Sec-WebSocket-Accept";

/// The status with which an upgrade is accepted.
pub const SWITCHING_PROTOCOLS: u16 = 101;

/// The status with which an upgrade is refused.
pub const BAD_REQUEST: u16 = 400;

/// The headers `m` after each of `items` is added under `key`, in order, a
/// value already there gaining `, ` and the item.
pub open spec fn added_values(m: Map<Seq<char>, Seq<char>>, key: Seq<char>, items: Seq<Seq<char>>) -> Map<
    Seq<char>,
    Seq<char>,
>
    decreases items.len(),
{
    if items.len() == 0 {
        m
    } else {
        let before = added_values(m, key, items.drop_last());
        before.insert(key, inserted_value(before, key, items.last()))
    }
}

/// The headers `m` after each entry of `entries` is set, replacing any value
/// of the same field.
pub open spec fn set_entries(m: Map<Seq<char>, Seq<char>>, entries: Seq<(Seq<char>, Seq<char>)>) -> Map<
    Seq<char>,
    Seq<char>,
>
    decreases entries.len(),
{
    if entries.len() == 0 {
        m
    } else {
        set_entries(m, entries.drop_last()).insert(lower_str(entries.last().0), entries.last().1)
    }
}

/// The entries `s` after each entry of `entries` is set, in order: an entry
/// of the same field name is removed and the new one added last.
pub open spec fn set_entries_seq(s: Seq<(Seq<char>, Seq<char>)>, entries: Seq<(Seq<char>, Seq<char>)>) -> Seq<
    (Seq<char>, Seq<char>),
>
    decreases entries.len(),
{
    if entries.len() == 0 {
        s
    } else {
        let k = lower_str(entries.last().0);
        removed_entries(set_entries_seq(s, entries.drop_last()), k).push((k, entries.last().1))
    }
}

/// The response headers of an accepted upgrade: `m` with the custom entries
/// set, then the accept value of `key`, `Connection: Upgrade` and
/// `Upgrade: websocket`.
pub open spec fn accepted_headers(
    m: Map<Seq<char>, Seq<char>>,
    custom: Seq<(Seq<char>, Seq<char>)>,
    key: Seq<char>,
) -> Map<Seq<char>, Seq<char>> {
    set_entries(m, custom).insert(lower_str(ACCEPT_FIELD@), accept_value(key)).insert(
        lower_str("Connection"@),
        "Upgrade"@,
    ).insert(lower_str("Upgrade"@), "websocket"@)
}

/// How an HTTP version is written.
pub open spec fn protocol_version_text(v: ProtocolVersion) -> Seq<char> {
    match v {
        ProtocolVersion::Http09 => "HTTP/0.9"@,
        ProtocolVersion::Http10 => "HTTP/1.0"@,
        ProtocolVersion::Http11 => "HTTP/1.1"@,
        ProtocolVersion::Http20 => "HTTP/2.0"@,
    }
}

/// How a status of an upgrade response is written: its code and its reason.
pub open spec fn status_text(status: u16) -> Seq<char> {
    if status == SWITCHING_PROTOCOLS {
        "101 Switching Protocols"@
    } else {
        "400 Bad Request"@
    }
}

/// The bytes of a response to an upgrade: the status line, the header lines
/// and an empty line.
pub open spec fn upgrade_response_bytes(
    version: ProtocolVersion,
    status: u16,
    entries: Seq<(Seq<char>, Seq<char>)>,
) -> Seq<u8> {
    encode_utf8(protocol_version_text(version)) + encode_utf8(" "@) + encode_utf8(status_text(status))
        + encode_utf8("\r\n"@) + headers_bytes(entries) + encode_utf8("\r\n"@)
}

/// An accepted upgrade answers the client's key: whatever headers were
/// chosen before, and whatever custom headers were added, the response to an
/// accepted upgrade is a successful handshake for the key of the request, as
/// long as those headers give no WebSocket version other than 13 (accepting
/// sets no version of its own).
pub proof fn lemma_accepted_upgrade_successful(
    m: Map<Seq<char>, Seq<char>>,
    custom: Seq<(Seq<char>, Seq<char>)>,
    key: Seq<char>,
)
    requires
        version_13_if_given(set_entries(m, custom)),
    ensures
        handshake_successful(
            SWITCHING_PROTOCOLS as usize,
            accepted_headers(m, custom, key),
            key,
        ),
{
    reveal_strlit("Upgrade");
    reveal_strlit("Connection");
    reveal_strlit("Sec-WebSocket-Accept");
    reveal_strlit("websocket");
    let up = lower_str("Upgrade"@);
    let conn = lower_str("Connection"@);
    let acc = lower_str(ACCEPT_FIELD@);
    assert(ACCEPT_FIELD@ == "Sec-WebSocket-Accept"@);
    assert(up.len() == 7 && conn.len() == 10 && acc.len() == 20);
    assert(up != conn && up != acc && conn != acc);
    assert(is_ascii_chars("websocket"@));
    assert(is_ascii_chars("Upgrade"@));
    let h = accepted_headers(m, custom, key);
    assert(h.contains_key(up) && h[up] == "websocket"@);
    assert(h.contains_key(conn) && h[conn] == "Upgrade"@);
    assert(h.contains_key(acc) && h[acc] == accept_value(key));
    assert(ascii_eq_ignore_case("websocket"@, "websocket"@));
    assert(ascii_eq_ignore_case("Upgrade"@, "Upgrade"@));
    reveal_strlit("Sec-WebSocket-Version");
    let ver = lower_str("Sec-WebSocket-Version"@);
    assert(ver.len() == 21);
    assert(ver != up && ver != conn && ver != acc);
    let s0 = set_entries(m, custom);
    assert(h.contains_key(ver) == s0.contains_key(ver));
    assert(h.contains_key(ver) ==> h[ver] == s0[ver]);
}

/// Intermediate representation of a half created websocket session.
/// Should be used to examine the client's handshake
/// accept the protocols requested, route the path, etc.
///
/// Users should then call `accept` or `reject` to complete the handshake
/// and start a session.
pub struct WsUpgrade<S> {
    /// The headers that will be used in the handshake response.
    pub headers: HeaderCollection,
    /// The stream that will be used to read from / write to.
    pub stream: S,
    /// The handshake request, filled with useful metadata.
    pub request: Request,
    /// Some buffered data from the stream, if it exists.
    pub buffer: Vec<u8>,
}

/// Starts an upgrade from a request read from `stream`, with `buffer` the
/// bytes read past the request. The request must be a valid upgrade request;
/// if it is not, the stream and the buffer are handed back with the error.
pub fn into_ws<S>(stream: S, request: Request, buffer: Vec<u8>) -> (r: Result<
    WsUpgrade<S>,
    (S, Option<Request>, Vec<u8>, HyperIntoWsError),
>)
    ensures
        match r {
            Ok(u) => upgrade_error(request.method, request.version, request.headers) is None
                && u.stream == stream && u.request == request && u.buffer@ == buffer@
                && u.headers@ == Map::<Seq<char>, Seq<char>>::empty(),
            Err((s, req, b, e)) => upgrade_error(request.method, request.version, request.headers)
                == Some(e) && s == stream && req is None && b@ == buffer@,
        },
{
    match validate(&request.method, &request.version, &request.headers) {
        Ok(()) => Ok(WsUpgrade { headers: HeaderCollection::new(), stream, request, buffer }),
        Err(e) => Err((stream, None, buffer, e)),
    }
}

impl<S> WsUpgrade<S> {
    /// Select a protocol to use in the handshake response.
    pub fn use_protocol(self, protocol: &str) -> (u: Self)
        ensures
            u.headers@ == self.headers@.insert(
                lower_str(PROTOCOL_FIELD@),
                inserted_value(self.headers@, lower_str(PROTOCOL_FIELD@), protocol@),
            ),
            u.stream == self.stream,
            u.request == self.request,
            u.buffer@ == self.buffer@,
    {
        let mut u = self;
        u.headers.insert(PROTOCOL_FIELD, protocol);
        u
    }

    /// Select an extension to use in the handshake response.
    pub fn use_extension(self, extension: &str) -> (u: Self)
        ensures
            u.headers@ == self.headers@.insert(
                lower_str(EXTENSIONS_FIELD@),
                inserted_value(self.headers@, lower_str(EXTENSIONS_FIELD@), extension@),
            ),
            u.stream == self.stream,
            u.request == self.request,
            u.buffer@ == self.buffer@,
    {
        let mut u = self;
        u.headers.insert(EXTENSIONS_FIELD, extension);
        u
    }

    /// Select multiple extensions to use in the connection. With none, the
    /// extensions header is still present, empty if it was absent.
    pub fn use_extensions(self, extensions: Vec<String>) -> (u: Self)
        ensures
            u.headers@ == if extensions@.len() == 0 && !self.headers@.contains_key(
                lower_str(EXTENSIONS_FIELD@),
            ) {
                self.headers@.insert(lower_str(EXTENSIONS_FIELD@), Seq::empty())
            } else {
                added_values(self.headers@, lower_str(EXTENSIONS_FIELD@), texts(extensions@))
            },
            u.stream == self.stream,
            u.request == self.request,
            u.buffer@ == self.buffer@,
    {
        let mut u = self;
        let ghost start = u.headers@;
        let ghost key = lower_str(EXTENSIONS_FIELD@);
        if extensions.len() == 0 {
            if !u.headers.contains_field(EXTENSIONS_FIELD) {
                u.headers.insert(EXTENSIONS_FIELD, "");
                proof {
                    reveal_strlit("");
                    assert(""@ =~= Seq::<char>::empty());
                    assert(u.headers@ == start.insert(key, Seq::empty()));
                }
            }
            proof {
                assert(texts(extensions@) =~= Seq::<Seq<char>>::empty());
                assert(added_values(start, key, texts(extensions@)) == start);
            }
            return u;
        }
        let mut i: usize = 0;
        while i < extensions.len()
            invariant
                i <= extensions@.len(),
                key == lower_str(EXTENSIONS_FIELD@),
                u.stream == self.stream,
                u.request == self.request,
                u.buffer@ == self.buffer@,
                u.headers@ == added_values(start, key, texts(extensions@).take(i as int)),
            decreases extensions@.len() - i,
        {
            proof {
                lemma_texts_take(extensions@, i as int);
            }
            u.headers.insert(EXTENSIONS_FIELD, extensions[i].as_str());
            i = i + 1;
        }
        assert(texts(extensions@).take(i as int) =~= texts(extensions@));
        u
    }

    /// Drop the connection without saying anything.
    pub fn drop(self) {
    }

    /// A list of protocols requested from the client.
    pub fn protocols(&self) -> (p: &[String])
        ensures
            p@ == match self.request.headers.protocol {
                Some(v) => v@,
                None => Seq::<String>::empty(),
            },
    {
        match &self.request.headers.protocol {
            Some(v) => v.as_slice(),
            None => &[],
        }
    }

    /// A list of extensions requested from the client.
    pub fn extensions(&self) -> (e: &[String])
        ensures
            e@ == match self.request.headers.extensions {
                Some(v) => v@,
                None => Seq::<String>::empty(),
            },
    {
        match &self.request.headers.extensions {
            Some(v) => v.as_slice(),
            None => &[],
        }
    }

    /// The client's websocket accept key.
    pub fn key(&self) -> (k: Option<&String>)
        ensures
            k == match self.request.headers.key {
                Some(ref s) => Some(s),
                None => None::<&String>,
            },
    {
        self.request.headers.key.as_ref()
    }

    /// The client's websocket version.
    pub fn version(&self) -> (v: Option<&WebSocketVersion>)
        ensures
            v == match self.request.headers.websocket_version {
                Some(ref s) => Some(s),
                None => None::<&WebSocketVersion>,
            },
    {
        self.request.headers.websocket_version.as_ref()
    }

    /// Origin of the client
    pub fn origin(&self) -> (o: Option<&String>)
        ensures
            o == match self.request.headers.origin {
                Some(ref s) => Some(s),
                None => None::<&String>,
            },
    {
        self.request.headers.origin.as_ref()
    }

    /// Sets the custom headers, then the headers that accept the upgrade:
    /// the accept value of the client's key, `Connection: Upgrade` and
    /// `Upgrade: websocket`. Returns the status of an accepted upgrade.
    pub fn prepare_headers(&mut self, custom: Option<&HeaderCollection>) -> (status: u16)
        requires
            old(self).request.headers.key is Some,
            key_hashable(old(self).request.headers.key.unwrap()@),
        ensures
            status == SWITCHING_PROTOCOLS,
            final(self).headers@ == accepted_headers(
                old(self).headers@,
                match custom {
                    Some(c) => c.entries(),
                    None => Seq::empty(),
                },
                old(self).request.headers.key.unwrap()@,
            ),
            final(self).stream == old(self).stream,
            final(self).request == old(self).request,
            final(self).buffer@ == old(self).buffer@,
    {
        if let Some(c) = custom {
            set_all(&mut self.headers, c);
        } else {
            assert(set_entries(self.headers@, Seq::empty()) == self.headers@);
        }
        let accept = match &self.request.headers.key {
            Some(k) => WebSocketResponse::gen_accept(k.as_str()),
            None => String::new(),
        };
        self.headers.set(ACCEPT_FIELD, accept.as_str());
        self.headers.set("Connection", "Upgrade");
        self.headers.set("Upgrade", "websocket");
        SWITCHING_PROTOCOLS
    }
}

/// Sets each entry of `custom` in `headers`, in order.
fn set_all(headers: &mut HeaderCollection, custom: &HeaderCollection)
    ensures
        final(headers)@ == set_entries(old(headers)@, custom.entries()),
        final(headers).entries() == set_entries_seq(old(headers).entries(), custom.entries()),
{
    let ghost start = headers@;
    let ghost start_entries = headers.entries();
    let ghost all = custom.entries();
    let mut it = custom.iter();
    let ghost mut i: int = 0;
    loop
        invariant
            start == old(headers)@,
            start_entries == old(headers).entries(),
            headers.entries() == set_entries_seq(start_entries, all.take(i)),
            all == custom.entries(),
            it.remaining() == all.skip(i),
            0 <= i <= all.len(),
            headers@ == set_entries(start, all.take(i)),
        decreases all.len() - i,
    {
        match it.next() {
            Some((field, value)) => {
                assert(i < all.len());
                headers.set(field.as_str(), value.as_str());
                proof {
                    assert(all.take(i + 1).drop_last() =~= all.take(i));
                    assert(all.take(i + 1).last() == all[i]);
                    assert(all.skip(i)[0] == all[i]);
                    assert(all.skip(i).skip(1) =~= all.skip(i + 1));
                    i = i + 1;
                }
            },
            None => {
                assert(all.take(i) =~= all);
                return;
            },
        }
    }
}

/// The texts of the first `i + 1` strings are those of the first `i` and the
/// text of string `i`.
proof fn lemma_texts_take(s: Seq<String>, i: int)
    requires
        0 <= i < s.len(),
    ensures
        texts(s).take(i + 1).drop_last() == texts(s).take(i),
        texts(s).take(i + 1).last() == s[i]@,
{
    assert(texts(s).take(i + 1).drop_last() =~= texts(s).take(i));
}

/// How an HTTP version is written.
fn version_str(v: &ProtocolVersion) -> (s: &'static str)
    ensures
        s@ == protocol_version_text(*v),
{
    match v {
        ProtocolVersion::Http09 => "HTTP/0.9",
        ProtocolVersion::Http10 => "HTTP/1.0",
        ProtocolVersion::Http11 => "HTTP/1.1",
        ProtocolVersion::Http20 => "HTTP/2.0",
    }
}

impl WsUpgrade<Vec<u8>> {
    /// Writes the response with `status` and the response headers to the stream.
    fn send(&mut self, status: u16) -> (r: WebSocketResult<()>)
        requires
            status == SWITCHING_PROTOCOLS || status == BAD_REQUEST,
        ensures
            r is Ok,
            final(self).stream@ == old(self).stream@ + upgrade_response_bytes(
                old(self).request.version,
                status,
                old(self).headers.entries(),
            ),
            final(self).headers == old(self).headers,
            final(self).request == old(self).request,
            final(self).buffer@ == old(self).buffer@,
    {
        let version = version_str(&self.request.version);
        let status_str = if status == SWITCHING_PROTOCOLS {
            "101 Switching Protocols"
        } else {
            "400 Bad Request"
        };
        extend_bytes(&mut self.stream, version.as_bytes());
        extend_bytes(&mut self.stream, " ".as_bytes());
        extend_bytes(&mut self.stream, status_str.as_bytes());
        extend_bytes(&mut self.stream, "\r\n".as_bytes());
        self.stream.write_http_headers(&self.headers)?;
        extend_bytes(&mut self.stream, "\r\n".as_bytes());
        Ok(())
    }

    /// Accepts the upgrade: sends the response that accepts it and returns
    /// the stream, the bytes read past the request, and the headers sent.
    pub fn accept(self) -> (r: (Vec<u8>, Vec<u8>, HeaderCollection))
        requires
            self.request.headers.key is Some,
            key_hashable(self.request.headers.key.unwrap()@),
        ensures
            r.2@ == accepted_headers(self.headers@, Seq::empty(), self.request.headers.key.unwrap()@),
            r.0@ == self.stream@ + upgrade_response_bytes(
                self.request.version,
                SWITCHING_PROTOCOLS,
                r.2.entries(),
            ),
            r.1@ == self.buffer@,
    {
        self.internal_accept(None)
    }

    /// Accepts the upgrade as `accept` does, with `custom_headers` set in the
    /// response first.
    pub fn accept_with(self, custom_headers: &HeaderCollection) -> (r: (Vec<u8>, Vec<u8>, HeaderCollection))
        requires
            self.request.headers.key is Some,
            key_hashable(self.request.headers.key.unwrap()@),
        ensures
            r.2@ == accepted_headers(
                self.headers@,
                custom_headers.entries(),
                self.request.headers.key.unwrap()@,
            ),
            r.0@ == self.stream@ + upgrade_response_bytes(
                self.request.version,
                SWITCHING_PROTOCOLS,
                r.2.entries(),
            ),
            r.1@ == self.buffer@,
    {
        self.internal_accept(Some(custom_headers))
    }

    fn internal_accept(self, custom_headers: Option<&HeaderCollection>) -> (r: (Vec<u8>, Vec<u8>, HeaderCollection))
        requires
            self.request.headers.key is Some,
            key_hashable(self.request.headers.key.unwrap()@),
        ensures
            r.2@ == accepted_headers(
                self.headers@,
                match custom_headers {
                    Some(c) => c.entries(),
                    None => Seq::empty(),
                },
                self.request.headers.key.unwrap()@,
            ),
            r.0@ == self.stream@ + upgrade_response_bytes(
                self.request.version,
                SWITCHING_PROTOCOLS,
                r.2.entries(),
            ),
            r.1@ == self.buffer@,
    {
        let mut u = self;
        let status = u.prepare_headers(custom_headers);
        let _ = u.send(status);
        let WsUpgrade { headers, stream, request: _, buffer } = u;
        (stream, buffer, headers)
    }

    /// Refuses the upgrade: sends a Bad Request response with the response
    /// headers, and returns the stream and the bytes read past the request.
    pub fn reject(self) -> (r: (Vec<u8>, Vec<u8>))
        ensures
            r.0@ == self.stream@ + upgrade_response_bytes(
                self.request.version,
                BAD_REQUEST,
                self.headers.entries(),
            ),
            r.1@ == self.buffer@,
    {
        self.internal_reject(None)
    }

    /// Refuses the upgrade as `reject` does, with `headers` set in the
    /// response first.
    pub fn reject_with(self, headers: &HeaderCollection) -> (r: (Vec<u8>, Vec<u8>))
        ensures
            r.0@ == self.stream@ + upgrade_response_bytes(
                self.request.version,
                BAD_REQUEST,
                set_entries_seq(self.headers.entries(), headers.entries()),
            ),
            r.1@ == self.buffer@,
    {
        self.internal_reject(Some(headers))
    }

    fn internal_reject(self, headers: Option<&HeaderCollection>) -> (r: (Vec<u8>, Vec<u8>))
        ensures
            r.0@ == self.stream@ + upgrade_response_bytes(
                self.request.version,
                BAD_REQUEST,
                set_entries_seq(
                    self.headers.entries(),
                    match headers {
                        Some(c) => c.entries(),
                        None => Seq::empty(),
                    },
                ),
            ),
            r.1@ == self.buffer@,
    {
        let mut u = self;
        if let Some(custom) = headers {
            set_all(&mut u.headers, custom);
        } else {
            assert(set_entries_seq(u.headers.entries(), Seq::empty()) == u.headers.entries());
        }
        let _ = u.send(BAD_REQUEST);
        (u.stream, u.buffer)
    }
}

} // verus!
