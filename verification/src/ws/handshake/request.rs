//! The client's side of the opening handshake: the request.

use crate::result::{IoErrorKind, WSUrlErrorKind, WebSocketError, WebSocketResult};
use crate::util::header::{headers_bytes, headers_readable, read_headers, ReadHttpHeaders, WriteHttpHeaders};
use crate::util::readuntilstr::{read_until, ReadUntilStr};
use crate::util::text::{chars_of, digit, find_char, find_char_from, is_digit, matches_at, string_of};
use crate::ws::handshake::version::{byte_of_digits, digit_run_end, minor_after, read_digit_run, version_text};
use crate::ws::util::buffer::extend_bytes;
use vstd::utf8::encode_utf8;
use crate::util::base64::{base64, to_base64};
use crate::util::header::{inserted_value, lower_str, HeaderCollection};
use crate::util::text::{decimal, decimal_string, opt_text, opt_texts, push_char, split_header_list};
use crate::ws::handshake::response::{header_value, header_values};
use crate::ws::handshake::version::HttpVersion;
use crate::ws::util::url::{join_path, parsed_url, url_parse, UrlView};
use vstd::prelude::*;
use vstd::string::StringExecFns;

verus! {

/// Represents a WebSocket handshake request, which is sent from the client to the server.
/// Use the new() function to create a new request.
#[derive(Debug)]
pub struct WebSocketRequest {
    /// The resource name of the request. E.g. /path/to/resource for the URI ws://www.example.com/path/to/resource
    pub resource_name: String,
    /// The HTTP version of this request
    pub http_version: HttpVersion,
    /// The collection of headers contained in this request
    pub headers: HeaderCollection,
}

/// The host (with its port) and resource name a request for the URL `u` is
/// sent to, or the error with which the URL is refused: it must be a `ws`
/// URL with a host, a known port and a path.
pub open spec fn request_target(u: UrlView) -> Result<(Seq<char>, Seq<char>), WebSocketError> {
    if u.scheme != seq!['w', 's'] {
        Err(WebSocketError::WebSocketUrlError(WSUrlErrorKind::InvalidScheme))
    } else if u.host is None || (u.port is None && u.default_port is None) || u.path is None {
        Err(WebSocketError::WebSocketUrlError(WSUrlErrorKind::NoHostName))
    } else {
        let port = match u.port {
            Some(p) => p,
            None => u.default_port.unwrap(),
        };
        Ok(
            (
                u.host.unwrap().push(':') + decimal(port as nat),
                seq!['/'] + join_path(u.path.unwrap()),
            ),
        )
    }
}

/// The host and resource name a request for the URI `uri` is sent to, or the
/// error with which the URI is refused.
pub open spec fn uri_target(uri: Seq<char>) -> Result<(Seq<char>, Seq<char>), WebSocketError> {
    match parsed_url(uri) {
        None => Err(WebSocketError::UrlError),
        Some(u) => request_target(u),
    }
}

/// The headers after inserting each of `values` under `name`, in order.
pub open spec fn insert_each(m: Map<Seq<char>, Seq<char>>, name: Seq<char>, values: Seq<Seq<char>>) -> Map<
    Seq<char>,
    Seq<char>,
>
    decreases values.len(),
{
    if values.len() == 0 {
        m
    } else {
        let m2 = insert_each(m, name, values.drop_last());
        m2.insert(lower_str(name), inserted_value(m2, lower_str(name), values.last()))
    }
}

/// The headers after inserting `value` under `name`.
pub open spec fn insert_one(m: Map<Seq<char>, Seq<char>>, name: Seq<char>, value: Seq<char>) -> Map<
    Seq<char>,
    Seq<char>,
> {
    m.insert(lower_str(name), inserted_value(m, lower_str(name), value))
}

/// The headers of a request to `host` with the key `key`, asking for the
/// subprotocols `protocols`.
pub open spec fn request_headers(host: Seq<char>, key: Seq<char>, protocols: Seq<Seq<char>>) -> Map<
    Seq<char>,
    Seq<char>,
> {
    let m = insert_one(Map::empty(), "Host"@, host);
    let m = insert_one(m, "Upgrade"@, "websocket"@);
    let m = insert_one(m, "Connection"@, "Upgrade"@);
    let m = insert_one(m, "Sec-WebSocket-Key"@, key);
    let m = insert_one(m, "Sec-WebSocket-Version"@, "13"@);
    insert_each(m, "Sec-WebSocket-Protocol"@, protocols)
}

/// The texts of a list of string slices.
pub open spec fn strs_text(s: Seq<&str>) -> Seq<Seq<char>> {
    s.map_values(|p: &str| p@)
}

/// `rand::random` draws sixteen fresh random bytes for a key; any bytes may come back.
#[verifier::external_body]
fn gen_key_bytes() -> (key: [u8; 16]) {
    rand::random::<[u8; 16]>()
}

impl WebSocketRequest {
    /// Creates a new WebSocket handshake request for the URI `uri` (which
    /// should use the ws:// scheme), asking for the subprotocols `protocols`,
    /// with a fresh random key.
    pub fn new(uri: &str, protocols: &[&str]) -> (r: WebSocketResult<WebSocketRequest>)
        ensures
            match uri_target(uri@) {
                Err(e) => r == Err::<WebSocketRequest, WebSocketError>(e),
                Ok((host, resource)) => r matches Ok(req) && req.resource_name@ == resource
                    && req.http_version == (HttpVersion {
                    version_major: 1,
                    version_minor: Some(1),
                }) && exists|raw: Seq<u8>|
                    #![trigger base64(raw)]
                    raw.len() == 16 && req.headers@ == request_headers(
                        host,
                        base64(raw),
                        strs_text(protocols@),
                    ),
            },
    {
        let raw_key = gen_key_bytes();
        let r = WebSocketRequest::new_with_key(uri, protocols, raw_key);
        assert(raw_key@.len() == 16);
        r
    }

    /// Creates a new WebSocket handshake request for the URI `uri` (which
    /// should use the ws:// scheme), asking for the subprotocols `protocols`,
    /// whose key is the base64 text of the sixteen bytes `raw_key`.
    pub fn new_with_key(uri: &str, protocols: &[&str], raw_key: [u8; 16]) -> (r: WebSocketResult<
        WebSocketRequest,
    >)
        ensures
            match uri_target(uri@) {
                Err(e) => r == Err::<WebSocketRequest, WebSocketError>(e),
                Ok((host, resource)) => r matches Ok(req) && req.resource_name@ == resource
                    && req.http_version == (HttpVersion {
                    version_major: 1,
                    version_minor: Some(1),
                }) && req.headers@ == request_headers(
                    host,
                    base64(raw_key@),
                    strs_text(protocols@),
                ),
            },
    {
        let ws_uri = match url_parse(uri) {
            Ok(u) => u,
            Err(_) => {
                return Err(WebSocketError::UrlError);
            },
        };
        let ws = "ws".to_owned();
        proof {
            reveal_strlit("ws");
        }
        assert(ws@ == seq!['w', 's']);
        if ws_uri.scheme != ws {
            return Err(WebSocketError::WebSocketUrlError(WSUrlErrorKind::InvalidScheme));
        }
        let mut host = match &ws_uri.host {
            Some(h) => h.clone(),
            None => {
                return Err(WebSocketError::WebSocketUrlError(WSUrlErrorKind::NoHostName));
            },
        };
        let port = match ws_uri.port {
            Some(p) => p,
            None => match ws_uri.default_port {
                Some(p) => p,
                None => {
                    return Err(WebSocketError::WebSocketUrlError(WSUrlErrorKind::NoHostName));
                },
            },
        };
        let mut resource_name = "/".to_owned();
        proof {
            reveal_strlit("/");
        }
        match &ws_uri.path {
            Some(p) => {
                let joined = crate::ws::util::url::join_segments(p);
                resource_name.append(joined.as_str());
            },
            None => {
                return Err(WebSocketError::WebSocketUrlError(WSUrlErrorKind::NoHostName));
            },
        }
        push_char(&mut host, ':');
        let port_text = decimal_string(port as u64);
        host.append(port_text.as_str());
        let key = to_base64(&raw_key);
        let mut headers = HeaderCollection::new();
        headers.insert("Host", host.as_str());
        headers.insert("Upgrade", "websocket");
        headers.insert("Connection", "Upgrade");
        headers.insert("Sec-WebSocket-Key", key.as_str());
        headers.insert("Sec-WebSocket-Version", "13");
        let ghost base = headers@;
        let mut i: usize = 0;
        while i < protocols.len()
            invariant
                i <= protocols@.len(),
                headers@ == insert_each(
                    base,
                    "Sec-WebSocket-Protocol"@,
                    strs_text(protocols@).take(i as int),
                ),
            decreases protocols@.len() - i,
        {
            assert(strs_text(protocols@).take(i + 1).drop_last() =~= strs_text(protocols@).take(
                i as int,
            ));
            headers.insert("Sec-WebSocket-Protocol", protocols[i]);
            i = i + 1;
        }
        assert(strs_text(protocols@).take(i as int) =~= strs_text(protocols@));
        Ok(WebSocketRequest { resource_name, http_version: HttpVersion::new(1, Some(1)), headers })
    }

    /// Short-cut to get the Host field value of this request
    pub fn host(&self) -> (r: Option<String>)
        ensures
            opt_text(r) == header_value(self.headers@, "Host"@),
    {
        self.headers.get("Host")
    }

    /// Short-cut to get the values of the Connection field of this request
    pub fn connection(&self) -> (r: Option<Vec<String>>)
        ensures
            opt_texts(r) == header_values(self.headers@, "Connection"@),
    {
        match self.headers.get("Connection") {
            Some(v) => Some(split_header_list(v.as_str())),
            None => None,
        }
    }

    /// Short-cut to get the values of the Upgrade field of this request
    pub fn upgrade(&self) -> (r: Option<Vec<String>>)
        ensures
            opt_texts(r) == header_values(self.headers@, "Upgrade"@),
    {
        match self.headers.get("Upgrade") {
            Some(v) => Some(split_header_list(v.as_str())),
            None => None,
        }
    }

    /// Short-cut to get the Sec-WebSocket-Version field value of this request
    pub fn version(&self) -> (r: Option<String>)
        ensures
            opt_text(r) == header_value(self.headers@, "Sec-WebSocket-Version"@),
    {
        self.headers.get("Sec-WebSocket-Version")
    }

    /// Short-cut to get the Sec-WebSocket-Key field value of this request
    pub fn key(&self) -> (r: Option<String>)
        ensures
            opt_text(r) == header_value(self.headers@, "Sec-WebSocket-Key"@),
    {
        self.headers.get("Sec-WebSocket-Key")
    }

    /// Short-cut to get the values of the Sec-WebSocket-Protocol field of this request
    pub fn protocol(&self) -> (r: Option<Vec<String>>)
        ensures
            opt_texts(r) == header_values(self.headers@, "Sec-WebSocket-Protocol"@),
    {
        match self.headers.get("Sec-WebSocket-Protocol") {
            Some(v) => Some(split_header_list(v.as_str())),
            None => None,
        }
    }

    /// Short-cut to get the values of the Sec-WebSocket-Extensions field of this request
    pub fn extensions(&self) -> (r: Option<Vec<String>>)
        ensures
            opt_texts(r) == header_values(self.headers@, "Sec-WebSocket-Extensions"@),
    {
        match self.headers.get("Sec-WebSocket-Extensions") {
            Some(v) => Some(split_header_list(v.as_str())),
            None => None,
        }
    }

    /// Short-cut to get the Origin field value of this request
    pub fn origin(&self) -> (r: Option<String>)
        ensures
            opt_text(r) == header_value(self.headers@, "Origin"@),
    {
        self.headers.get("Origin")
    }

    /// A copy of this request.
    pub fn clone(&self) -> (c: WebSocketRequest)
        ensures
            c.resource_name@ == self.resource_name@,
            c.http_version == self.http_version,
            c.headers@ == self.headers@,
    {
        WebSocketRequest {
            resource_name: self.resource_name.clone(),
            http_version: self.http_version,
            headers: self.headers.clone(),
        }
    }
}

/// Whether ` HTTP/` and a digit are found at index `p` of `l`.
pub open spec fn http_at(l: Seq<char>, p: int) -> bool {
    &&& 0 <= p
    &&& p + 7 <= l.len()
    &&& l.subrange(p, p + 6) == seq![' ', 'H', 'T', 'T', 'P', '/']
    &&& is_digit(l[p + 6])
}

/// The last index `p` with `lo <= p <= hi` at which ` HTTP/` and a digit are found, if any.
pub open spec fn last_http(l: Seq<char>, lo: int, hi: int) -> Option<int>
    decreases hi + 1 - lo,
{
    if hi < lo {
        None
    } else if http_at(l, hi) {
        Some(hi)
    } else {
        last_http(l, lo, hi - 1)
    }
}

/// Where the version of a request line that begins at `i` is found: `GET `
/// at `i`, then the last ` HTTP/` and digit before the next line feed.
pub open spec fn request_at(l: Seq<char>, i: int) -> Option<int> {
    if 0 <= i && i + 4 <= l.len() && l.subrange(i, i + 4) == seq!['G', 'E', 'T', ' '] {
        last_http(l, i + 4, find_char(l, '\n', i + 4) - 7)
    } else {
        None
    }
}

/// The first index at or after `i` at which a request line is found (the length when there is none).
pub open spec fn first_request(l: Seq<char>, i: int) -> int
    decreases l.len() - i,
{
    if i >= l.len() || i < 0 {
        l.len() as int
    } else if request_at(l, i) is Some {
        i
    } else {
        first_request(l, i + 1)
    }
}

/// The parts of a request line: the resource name, and the major and minor
/// version (when they fit a byte), from the first place in `l` where a
/// request line is found.
pub open spec fn request_line(l: Seq<char>) -> Option<(Seq<char>, Option<u8>, Option<u8>)> {
    let i = first_request(l, 0);
    if i >= l.len() {
        None
    } else {
        let p = request_at(l, i).unwrap();
        let e1 = digit_run_end(l, p + 6);
        Some((l.subrange(i + 4, p), byte_of_digits(l, p + 6, e1), minor_after(l, e1)))
    }
}

/// The parts of a request line, if one is found in `line`.
pub fn parse_request_line(line: &str) -> (r: Option<(String, Option<u8>, Option<u8>)>)
    ensures
        match request_line(line@) {
            Some((resource, major, minor)) => r matches Some((a, b, c)) && a@ == resource && b
                == major && c == minor,
            None => r is None,
        },
{
    let cs = chars_of(line);
    let get = chars_of("GET ");
    let http = chars_of(" HTTP/");
    proof {
        reveal_strlit("GET ");
        reveal_strlit(" HTTP/");
    }
    assert(get@ == seq!['G', 'E', 'T', ' ']);
    assert(http@ == seq![' ', 'H', 'T', 'T', 'P', '/']);
    let n = cs.len();
    let mut i: usize = 0;
    while i < n
        invariant
            n == cs@.len(),
            cs@ == line@,
            get@ == seq!['G', 'E', 'T', ' '],
            http@ == seq![' ', 'H', 'T', 'T', 'P', '/'],
            i <= n,
            first_request(line@, i as int) == first_request(line@, 0),
        decreases n - i,
    {
        if matches_at(&cs, i, &get) {
            assert(cs@.subrange(i as int, i + 4) =~= cs@.subrange(i as int, i + get@.len()));
            let end = find_char_from(&cs, '\n', i + 4);
            if end >= 7 && end - 7 >= i + 4 {
                let mut p = end - 7;
                let mut found = false;
                let mut exhausted = false;
                while !found && !exhausted
                    invariant
                        !(found && exhausted),
                        exhausted ==> last_http(line@, i + 4, end - 7) is None,
                        n == cs@.len(),
                        cs@ == line@,
                        http@ == seq![' ', 'H', 'T', 'T', 'P', '/'],
                        i + 4 <= p,
                        p + 7 <= end <= n,
                        end == find_char(line@, '\n', i + 4),
                        found ==> http_at(line@, p as int),
                        found ==> last_http(line@, i + 4, end - 7) == Some(p as int),
                        !found ==> last_http(line@, i + 4, p as int) == last_http(line@, i + 4, end - 7),
                    decreases p + if found || exhausted {
                        0int
                    } else {
                        1int
                    },
                {
                    if matches_at(&cs, p, &http) && digit(cs[p + 6]) {
                        assert(cs@.subrange(p as int, p + 6) =~= cs@.subrange(p as int, p + http@.len()));
                        found = true;
                    } else {
                        assert(!http_at(line@, p as int)) by {
                            if http_at(line@, p as int) {
                                assert(cs@.subrange(p as int, p + 6) =~= cs@.subrange(p as int, p + http@.len()));
                            }
                        }
                        if p == i + 4 {
                            assert(last_http(line@, i + 4, i + 3) is None);
                            exhausted = true;
                        } else {
                            p = p - 1;
                        }
                    }
                }
                if found {
                    let resource = string_of(&cs, i + 4, p);
                    let (e1, major) = read_digit_run(&cs, p + 6);
                    let mut minor: Option<u8> = None;
                    if e1 < n && n - e1 > 1 && cs[e1] == '.' && digit(cs[e1 + 1]) {
                        let (_, m) = read_digit_run(&cs, e1 + 1);
                        minor = m;
                    }
                    return Some((resource, major, minor));
                }
                assert(request_at(line@, i as int) is None);
            }
        }
        i = i + 1;
    }
    None
}

/// The mathematical content of a request.
pub struct RequestView {
    pub resource_name: Seq<char>,
    pub http_version: HttpVersion,
    pub headers: Map<Seq<char>, Seq<char>>,
}

/// Whether a request can be read from `s`: if its request line can be read,
/// a request line is found in it, and its header section, if it can be read,
/// holds a header on every line.
pub open spec fn request_readable(s: Seq<u8>) -> bool {
    let (line, rest) = read_until(s, "\r\n"@, false);
    line matches Ok(l) ==> request_line(l) is Some && headers_readable(rest)
}

/// The request read from `s`, with the bytes left: a request line, then the
/// headers; a major version that does not fit a byte is refused.
pub open spec fn read_request(s: Seq<u8>) -> (Result<RequestView, WebSocketError>, Seq<u8>) {
    let (line, rest) = read_until(s, "\r\n"@, false);
    match line {
        Err(e) => (Err(e), rest),
        Ok(l) => {
            let (resource, major, minor) = request_line(l).unwrap();
            let (headers, rest2) = read_headers(rest);
            match headers {
                Err(e) => (Err(e), rest2),
                Ok(m) => match major {
                    None => (Err(WebSocketError::IoError(IoErrorKind::InvalidData)), rest2),
                    Some(v) => (
                        Ok(
                            RequestView {
                                resource_name: resource,
                                http_version: HttpVersion { version_major: v, version_minor: minor },
                                headers: m,
                            },
                        ),
                        rest2,
                    ),
                },
            }
        },
    }
}

/// Reading a handshake request.
pub trait ReadWebSocketRequest {
    /// Reads a request.
    fn read_websocket_request(&mut self) -> WebSocketResult<WebSocketRequest>;
}

impl ReadWebSocketRequest for Vec<u8> {
    /// Reads a request from the start of the bytes, consuming it. A request
    /// line must be found and every header line must hold a header.
    fn read_websocket_request(&mut self) -> (r: WebSocketResult<WebSocketRequest>)
        ensures
            request_readable(old(self)@) ==> ({
                let (res, rest) = read_request(old(self)@);
                &&& final(self)@ == rest
                &&& match r {
                    Ok(req) => res matches Ok(v) && req.resource_name@ == v.resource_name
                        && req.http_version == v.http_version && req.headers@ == v.headers,
                    Err(e) => res == Err::<RequestView, WebSocketError>(e),
                }
            }),
    {
        let request_line = self.read_until_str("\r\n", false)?;
        let (resource_name, major, minor) = match parse_request_line(request_line.as_str()) {
            Some(parts) => parts,
            None => {
                return Err(WebSocketError::IoError(IoErrorKind::InvalidData));
            },
        };
        let headers = self.read_http_headers()?;
        let version_major = match major {
            Some(v) => v,
            None => {
                return Err(WebSocketError::IoError(IoErrorKind::InvalidData));
            },
        };
        Ok(WebSocketRequest { resource_name, http_version: HttpVersion::new(version_major, minor), headers })
    }
}

/// The bytes written for a request: the request line, the headers and a blank line.
pub open spec fn request_bytes(
    resource_name: Seq<char>,
    version: HttpVersion,
    headers: Seq<(Seq<char>, Seq<char>)>,
) -> Seq<u8> {
    encode_utf8("GET "@ + resource_name + " HTTP/"@ + version_text(version)) + encode_utf8(
        "\r\n"@,
    ) + headers_bytes(headers) + encode_utf8("\r\n"@)
}

/// Writing a handshake request.
pub trait WriteWebSocketRequest {
    /// Writes a request.
    fn write_websocket_request(&mut self, request: &WebSocketRequest) -> WebSocketResult<()>;
}

impl WriteWebSocketRequest for Vec<u8> {
    /// Appends the request; writing to memory never fails.
    fn write_websocket_request(&mut self, request: &WebSocketRequest) -> (r: WebSocketResult<()>)
        ensures
            r is Ok,
            final(self)@ == old(self)@ + request_bytes(
                request.resource_name@,
                request.http_version,
                request.headers.entries(),
            ),
    {
        let mut request_line = "GET ".to_owned();
        request_line.append(request.resource_name.as_str());
        request_line.append(" HTTP/");
        let version = request.http_version.to_string();
        request_line.append(version.as_str());
        extend_bytes(self, request_line.as_str().as_bytes());
        extend_bytes(self, "\r\n".as_bytes());
        self.write_http_headers(&request.headers)?;
        extend_bytes(self, "\r\n".as_bytes());
        Ok(())
    }
}

} // verus!
