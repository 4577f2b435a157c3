//! Utility functions for dealing with WebSocket URLs.

use crate::result::{WSUrlErrorKind, WebSocketError, WebSocketResult};
use vstd::prelude::*;
use vstd::string::StringExecFns;

verus! {

/// A parsed URL: the parts of it that a WebSocket connection needs.
#[derive(Debug, Clone, PartialEq, Eq)]
pub struct Url {
    /// The scheme, such as `ws` or `wss`.
    pub scheme: String,
    /// The host, as the URL writes it, if the URL has one.
    pub host: Option<String>,
    /// The port written in the URL, if any.
    pub port: Option<u16>,
    /// The port used when none is written, if the scheme has one.
    pub default_port: Option<u16>,
    /// The segments of the path, if the URL has a hierarchical path.
    pub path: Option<Vec<String>>,
    /// The query, without its `?`, if any.
    pub query: Option<String>,
    /// The fragment, without its `#`, if any.
    pub fragment: Option<String>,
}

/// The mathematical content of a parsed URL.
pub struct UrlView {
    pub scheme: Seq<char>,
    pub host: Option<Seq<char>>,
    pub port: Option<u16>,
    pub default_port: Option<u16>,
    pub path: Option<Seq<Seq<char>>>,
    pub query: Option<Seq<char>>,
    pub fragment: Option<Seq<char>>,
}

/// The characters of an optional string.
pub open spec fn opt_chars(s: Option<String>) -> Option<Seq<char>> {
    match s {
        Some(t) => Some(t@),
        None => None,
    }
}

impl View for Url {
    type V = UrlView;

    open spec fn view(&self) -> UrlView {
        UrlView {
            scheme: self.scheme@,
            host: opt_chars(self.host),
            port: self.port,
            default_port: self.default_port,
            path: match self.path {
                Some(p) => Some(p@.map_values(|s: String| s@)),
                None => None,
            },
            query: opt_chars(self.query),
            fragment: opt_chars(self.fragment),
        }
    }
}

/// A host to connect to, with the port to connect on.
#[derive(Debug, Clone, PartialEq, Eq)]
pub struct Host {
    /// The name (or address) of the host.
    pub hostname: String,
    /// The port, if known.
    pub port: Option<u16>,
}

/// The mathematical content of a host.
pub struct HostView {
    pub hostname: Seq<char>,
    pub port: Option<u16>,
}

impl View for Host {
    type V = HostView;

    open spec fn view(&self) -> HostView {
        HostView { hostname: self.hostname@, port: self.port }
    }
}

/// The path segments joined by `/`.
pub open spec fn join_path(segments: Seq<Seq<char>>) -> Seq<char>
    decreases segments.len(),
{
    if segments.len() == 0 {
        Seq::empty()
    } else if segments.len() == 1 {
        segments[0]
    } else {
        join_path(segments.drop_last()) + seq!['/'] + segments.last()
    }
}

/// The resource name a path and query make: `/`, the joined path, then `?`
/// and the query if there is one.
pub open spec fn resource_of(path: Seq<Seq<char>>, query: Option<Seq<char>>) -> Seq<char> {
    seq!['/'] + join_path(path) + match query {
        Some(q) => seq!['?'] + q,
        None => Seq::empty(),
    }
}

/// Whether a URL has the host and path that reading its components needs,
/// when it is otherwise a valid WebSocket URL.
pub open spec fn url_parts_present(u: UrlView) -> bool {
    u.fragment is Some || !(u.scheme == seq!['w', 's'] || u.scheme == seq!['w', 's', 's']) || (
    u.host is Some && u.path is Some)
}

/// The host, resource name and secure flag of a URL, or the error with which
/// it is refused (RFC 6455, section 3): no fragment, and a `ws` or `wss` scheme.
pub open spec fn url_components(u: UrlView) -> Result<(HostView, Seq<char>, bool), WebSocketError> {
    if u.fragment is Some {
        Err(WebSocketError::WebSocketUrlError(WSUrlErrorKind::CannotSetFragment))
    } else if u.scheme != seq!['w', 's'] && u.scheme != seq!['w', 's', 's'] {
        Err(WebSocketError::WebSocketUrlError(WSUrlErrorKind::InvalidScheme))
    } else {
        Ok(
            (
                HostView {
                    hostname: u.host.unwrap(),
                    port: match u.port {
                        Some(p) => Some(p),
                        None => u.default_port,
                    },
                },
                resource_of(u.path.unwrap(), u.query),
                u.scheme == seq!['w', 's', 's'],
            ),
        )
    }
}

/// The path segments of `path` joined by `/`.
pub(crate) fn join_segments(path: &Vec<String>) -> (s: String)
    ensures
        s@ == join_path(path@.map_values(|t: String| t@)),
{
    let ghost segs = path@.map_values(|t: String| t@);
    let mut s = String::new();
    let mut i: usize = 0;
    proof {
        reveal_strlit("/");
    }
    while i < path.len()
        invariant
            i <= path@.len(),
            segs == path@.map_values(|t: String| t@),
            "/"@ == seq!['/'],
            s@ == join_path(segs.take(i as int)),
        decreases path@.len() - i,
    {
        if i > 0 {
            s.append("/");
        }
        s.append(path[i].as_str());
        proof {
            assert(segs.take((i + 1) as int).drop_last() =~= segs.take(i as int));
            if i == 0 {
                assert(s@ =~= segs[0]);
            }
        }
        i = i + 1;
    }
    assert(segs.take(i as int) =~= segs);
    s
}

/// Gets the host, port, resource, and secure flag from a url
pub fn parse_url(url: &Url) -> (r: WebSocketResult<(Host, String, bool)>)
    requires
        url_parts_present(url@),
    ensures
        match r {
            Ok((host, resource, secure)) => url_components(url@) == Ok::<
                (HostView, Seq<char>, bool),
                WebSocketError,
            >((host@, resource@, secure)),
            Err(e) => url_components(url@) == Err::<(HostView, Seq<char>, bool), WebSocketError>(e),
        },
{
    if url.fragment.is_some() {
        return Err(WebSocketError::WebSocketUrlError(WSUrlErrorKind::CannotSetFragment));
    }
    let ws = "ws".to_owned();
    let wss = "wss".to_owned();
    proof {
        reveal_strlit("ws");
        reveal_strlit("wss");
        reveal_strlit("/");
        reveal_strlit("?");
    }
    assert(ws@ == seq!['w', 's']);
    assert(wss@ == seq!['w', 's', 's']);
    let secure = if url.scheme == ws {
        false
    } else if url.scheme == wss {
        true
    } else {
        return Err(WebSocketError::WebSocketUrlError(WSUrlErrorKind::InvalidScheme));
    };
    let hostname = match &url.host {
        Some(h) => h.clone(),
        None => {
            return Err(WebSocketError::WebSocketUrlError(WSUrlErrorKind::NoHostName));
        },
    };
    let port = match url.port {
        Some(p) => Some(p),
        None => url.default_port,
    };
    let mut resource = "/".to_owned();
    match &url.path {
        Some(p) => {
            let joined = join_segments(p);
            resource.append(joined.as_str());
        },
        None => {
            return Err(WebSocketError::WebSocketUrlError(WSUrlErrorKind::NoHostName));
        },
    }
    match &url.query {
        Some(q) => {
            resource.append("?");
            resource.append(q.as_str());
        },
        None => {},
    }
    proof {
        let u = url@;
        assert(resource@ =~= resource_of(u.path.unwrap(), u.query));
    }
    Ok((Host { hostname, port }, resource, secure))
}

/// The error `url::Url::parse` reports for a string it refuses.
#[verifier::external_type_specification]
#[verifier::external_body]
pub struct ExUrlParseError(url::ParseError);

/// The URL that `url::Url::parse` makes of a string, or none when it refuses it.
pub uninterp spec fn parsed_url(input: Seq<char>) -> Option<UrlView>;

/// `url::Url::parse`, with the parts read back through its accessors. What it
/// gives depends on the string alone; that dependence is named `parsed_url`,
/// and nothing else is claimed of it.
#[verifier::external_body]
pub(crate) fn url_parse(input: &str) -> (r: Result<Url, url::ParseError>)
    ensures
        match r {
            Ok(u) => parsed_url(input@) == Some(u@),
            Err(_) => parsed_url(input@) is None,
        },
{
    let u = url::Url::parse(input)?;
    Ok(
        Url {
            scheme: u.scheme().to_owned(),
            host: u.host_str().map(str::to_owned),
            port: u.port(),
            default_port: u.port_or_known_default(),
            path: u.path_segments().map(|p| p.map(str::to_owned).collect()),
            query: u.query().map(str::to_owned),
            fragment: u.fragment().map(str::to_owned),
        },
    )
}

/// The components of the URL a string parses to, or the error with which it
/// is refused: a string that does not parse gives `UrlError`, and a URL
/// without a host or path gives `NoHostName`.
pub open spec fn url_str_components(input: Seq<char>) -> Result<
    (HostView, Seq<char>, bool),
    WebSocketError,
> {
    match parsed_url(input) {
        None => Err(WebSocketError::UrlError),
        Some(u) => if url_parts_present(u) {
            url_components(u)
        } else {
            Err(WebSocketError::WebSocketUrlError(WSUrlErrorKind::NoHostName))
        },
    }
}

/// Gets the host, port, resource and secure from the string representation of a url
pub fn parse_url_str(url_str: &str) -> (r: WebSocketResult<(Host, String, bool)>)
    ensures
        match r {
            Ok((host, resource, secure)) => url_str_components(url_str@) == Ok::<
                (HostView, Seq<char>, bool),
                WebSocketError,
            >((host@, resource@, secure)),
            Err(e) => url_str_components(url_str@) == Err::<
                (HostView, Seq<char>, bool),
                WebSocketError,
            >(e),
        },
{
    let parsed_url = match url_parse(url_str) {
        Ok(u) => u,
        Err(_) => {
            return Err(WebSocketError::UrlError);
        },
    };
    components_of_parsed(&parsed_url)
}

/// The components of a URL that may lack a host or path: `NoHostName` when a
/// WebSocket URL does.
fn components_of_parsed(url: &Url) -> (r: WebSocketResult<(Host, String, bool)>)
    ensures
        match r {
            Ok((host, resource, secure)) => url_parts_present(url@) && url_components(url@) == Ok::<
                (HostView, Seq<char>, bool),
                WebSocketError,
            >((host@, resource@, secure)),
            Err(e) => if url_parts_present(url@) {
                url_components(url@) == Err::<(HostView, Seq<char>, bool), WebSocketError>(e)
            } else {
                e == WebSocketError::WebSocketUrlError(WSUrlErrorKind::NoHostName)
            },
        },
{
    let ws = "ws".to_owned();
    let wss = "wss".to_owned();
    proof {
        reveal_strlit("ws");
        reveal_strlit("wss");
    }
    assert(ws@ == seq!['w', 's']);
    assert(wss@ == seq!['w', 's', 's']);
    if url.fragment.is_none() && (url.scheme == ws || url.scheme == wss) && (url.host.is_none()
        || url.path.is_none()) {
        return Err(WebSocketError::WebSocketUrlError(WSUrlErrorKind::NoHostName));
    }
    parse_url(url)
}

/// The components of a host, resource name and secure flag: the port
/// defaults to 443 for a secure connection and 80 otherwise, and an empty
/// resource name stands for `/`.
pub open spec fn host_components(host: HostView, resource: Seq<char>, secure: bool) -> (
    HostView,
    Seq<char>,
    bool,
) {
    (
        HostView {
            hostname: host.hostname,
            port: Some(
                match host.port {
                    Some(p) => p,
                    None => if secure {
                        443u16
                    } else {
                        80u16
                    },
                },
            ),
        },
        if resource.len() == 0 {
            seq!['/']
        } else {
            resource
        },
        secure,
    )
}

/// The components of a host, resource name and secure flag.
fn components_of_host(host: &Host, resource: &str, secure: bool) -> (r: (Host, String, bool))
    ensures
        (r.0@, r.1@, r.2) == host_components(host@, resource@, secure),
{
    let port = match host.port {
        Some(p) => p,
        None => if secure {
            443
        } else {
            80
        },
    };
    let resource_name = if resource.is_empty() {
        proof {
            reveal_strlit("/");
        }
        "/".to_owned()
    } else {
        resource.to_owned()
    };
    (Host { hostname: host.hostname.clone(), port: Some(port) }, resource_name, secure)
}

/// Trait that gets required WebSocket URL components
pub trait ToWebSocketUrlComponents {
    /// Retrieve the required WebSocket URL components from this
    fn to_components(&self) -> WebSocketResult<(Host, String, bool)>;
}

impl ToWebSocketUrlComponents for str {
    fn to_components(&self) -> (r: WebSocketResult<(Host, String, bool)>)
        ensures
            match r {
                Ok((host, resource, secure)) => url_str_components(self@) == Ok::<
                    (HostView, Seq<char>, bool),
                    WebSocketError,
                >((host@, resource@, secure)),
                Err(e) => url_str_components(self@) == Err::<
                    (HostView, Seq<char>, bool),
                    WebSocketError,
                >(e),
            },
    {
        parse_url_str(self)
    }
}

impl ToWebSocketUrlComponents for Url {
    fn to_components(&self) -> (r: WebSocketResult<(Host, String, bool)>)
        ensures
            match r {
                Ok((host, resource, secure)) => url_parts_present(self@) && url_components(self@)
                    == Ok::<(HostView, Seq<char>, bool), WebSocketError>(
                    (host@, resource@, secure),
                ),
                Err(e) => if url_parts_present(self@) {
                    url_components(self@) == Err::<(HostView, Seq<char>, bool), WebSocketError>(e)
                } else {
                    e == WebSocketError::WebSocketUrlError(WSUrlErrorKind::NoHostName)
                },
            },
    {
        components_of_parsed(self)
    }
}

impl ToWebSocketUrlComponents for (Host, String, bool) {
    /// Convert a Host, resource name and secure flag to WebSocket URL components.
    fn to_components(&self) -> (r: WebSocketResult<(Host, String, bool)>)
        ensures
            r matches Ok(c) && (c.0@, c.1@, c.2) == host_components(self.0@, self.1@, self.2),
    {
        Ok(components_of_host(&self.0, self.1.as_str(), self.2))
    }
}

impl<'a> ToWebSocketUrlComponents for (Host, &'a str, bool) {
    /// Convert a Host, resource name and secure flag to WebSocket URL components.
    fn to_components(&self) -> (r: WebSocketResult<(Host, String, bool)>)
        ensures
            r matches Ok(c) && (c.0@, c.1@, c.2) == host_components(self.0@, self.1@, self.2),
    {
        Ok(components_of_host(&self.0, self.1, self.2))
    }
}

impl<'a> ToWebSocketUrlComponents for (Host, &'a str) {
    /// Convert a Host and resource name to WebSocket URL components, assuming an insecure connection.
    fn to_components(&self) -> (r: WebSocketResult<(Host, String, bool)>)
        ensures
            r matches Ok(c) && (c.0@, c.1@, c.2) == host_components(self.0@, self.1@, false),
    {
        Ok(components_of_host(&self.0, self.1, false))
    }
}

impl ToWebSocketUrlComponents for (Host, String) {
    /// Convert a Host and resource name to WebSocket URL components, assuming an insecure connection.
    fn to_components(&self) -> (r: WebSocketResult<(Host, String, bool)>)
        ensures
            r matches Ok(c) && (c.0@, c.1@, c.2) == host_components(self.0@, self.1@, false),
    {
        Ok(components_of_host(&self.0, self.1.as_str(), false))
    }
}

/// Joining a path keeps every segment: one segment is joined as itself, and
/// joining two non-empty runs of segments is joining each and putting a `/`
/// between them, so a segment added at the end follows the joined path after
/// a `/`.
pub proof fn lemma_join_path_concat(a: Seq<Seq<char>>, b: Seq<Seq<char>>)
    requires
        a.len() > 0,
        b.len() > 0,
    ensures
        join_path(seq![b[0]]) == b[0],
        join_path(a + b) == join_path(a) + seq!['/'] + join_path(b),
        join_path(a.push(b[0])) == join_path(a) + seq!['/'] + b[0],
    decreases b.len(),
{
    assert(a.push(b[0]).drop_last() =~= a);
    if b.len() == 1 {
        assert(a + b =~= a.push(b[0]));
    } else {
        let bl = b.drop_last();
        lemma_join_path_concat(a, bl);
        assert((a + b).drop_last() =~= a + bl);
        assert((a + b).last() == b.last());
        assert(join_path(b) == join_path(bl) + seq!['/'] + b.last());
        assert(join_path(a + b) =~= join_path(a) + seq!['/'] + join_path(b));
    }
}

/// The length of a joined path is the sum of the lengths of its segments and
/// one `/` between each two of them.
pub proof fn lemma_join_path_len(segments: Seq<Seq<char>>)
    requires
        segments.len() > 0,
    ensures
        join_path(segments).len() == segments_len(segments) + segments.len() - 1,
    decreases segments.len(),
{
    if segments.len() > 1 {
        lemma_join_path_len(segments.drop_last());
    } else {
        assert(segments_len(segments.drop_last()) == 0);
        assert(segments.last() == segments[0]);
    }
}

/// The sum of the lengths of the segments.
pub open spec fn segments_len(segments: Seq<Seq<char>>) -> nat
    decreases segments.len(),
{
    if segments.len() == 0 {
        0
    } else {
        segments_len(segments.drop_last()) + segments.last().len()
    }
}

} // verus!
