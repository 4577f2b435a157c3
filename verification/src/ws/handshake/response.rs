//! The server's side of the opening handshake: the response.

use crate::util::base64::{base64, to_base64};
use crate::util::header::{inserted_value, lower_char, lower_str, HeaderCollection};
use crate::util::sha1::{sha1, sha1_digest};
use crate::util::strcmp::{ascii_eq_ignore_case, ascii_lower, str_eq_ignore_case};
use crate::util::text::{header_list, opt_text, opt_texts, split_header_list, texts};
use crate::result::{IoErrorKind, WebSocketError, WebSocketResult};
use crate::util::header::{headers_bytes, headers_readable, read_headers, ReadHttpHeaders, WriteHttpHeaders};
use crate::util::readuntilstr::{read_until, ReadUntilStr};
use crate::util::text::{
    chars_of, decimal, decimal_string, digit, digits_value, find_char, find_char_from, is_digit,
    matches_at, string_of,
};
use crate::ws::handshake::version::{
    byte_of_digits, digit_run_end, minor_after, read_digit_run, version_text, HttpVersion,
};
use vstd::string::StringExecFns;
use crate::ws::util::buffer::extend_bytes;
use vstd::prelude::*;
use vstd::utf8::{encode_utf8, is_ascii_chars};

verus! {

/// The GUID that a key is joined with to form the accept value (RFC 6455, section 1.3).
pub const MAGIC_GUID: &'static str = "258EAFA5-E914-47DA-95CA-C5AB0DC85B11";

/// The `Sec-WebSocket-Accept` value for the key `key`: the base64 text of
/// the SHA-1 digest of the key joined with the GUID.
pub open spec fn accept_value(key: Seq<char>) -> Seq<char> {
    base64(sha1_digest(encode_utf8(key) + encode_utf8(MAGIC_GUID@)))
}

/// The GUID is 36 bytes long.
proof fn lemma_guid_len()
    ensures
        encode_utf8(MAGIC_GUID@).len() == 36,
{
    reveal_strlit("258EAFA5-E914-47DA-95CA-C5AB0DC85B11");
    assert(MAGIC_GUID@.len() == 36);
    assert(is_ascii_chars(MAGIC_GUID@));
    vstd::utf8::is_ascii_chars_encode_utf8(MAGIC_GUID@);
}

/// Whether a key is short enough to be hashed.
pub open spec fn key_hashable(key: Seq<char>) -> bool {
    encode_utf8(key).len() + 36 < 0x1000_0000_0000_0000 && encode_utf8(key).len() + 36 + 128
        <= usize::MAX
}

/// Represents a WebSocket response which is sent from the server to the client.
/// Use the new() function to create a new response; failure responses are
/// made with failure().
#[derive(Debug)]
pub struct WebSocketResponse {
    /// The HTTP version of this response
    pub http_version: HttpVersion,
    /// The status code of the response (for a successful handshake, this should be 101)
    pub status_code: usize,
    /// The human readable reason phrase for the status code (E.g. Switching Protocols)
    pub reason_phrase: String,
    /// The collection of headers contained in this WebSocket response
    pub headers: HeaderCollection,
}

/// The headers of a successful response to the key `key`.
pub open spec fn response_headers(key: Seq<char>, protocol: Option<Seq<char>>) -> Map<
    Seq<char>,
    Seq<char>,
> {
    let m0 = Map::<Seq<char>, Seq<char>>::empty();
    let m1 = m0.insert(lower_str("Upgrade"@), inserted_value(m0, lower_str("Upgrade"@), "websocket"@));
    let m2 = m1.insert(
        lower_str("Connection"@),
        inserted_value(m1, lower_str("Connection"@), "Upgrade"@),
    );
    let m3 = m2.insert(
        lower_str("Sec-WebSocket-Accept"@),
        inserted_value(m2, lower_str("Sec-WebSocket-Accept"@), accept_value(key)),
    );
    match protocol {
        Some(p) => m3.insert(
            lower_str("Sec-WebSocket-Protocol"@),
            inserted_value(m3, lower_str("Sec-WebSocket-Protocol"@), p),
        ),
        None => m3,
    }
}

/// The value of header `name` in `headers`, if present.
pub open spec fn header_value(headers: Map<Seq<char>, Seq<char>>, name: Seq<char>) -> Option<
    Seq<char>,
> {
    if headers.contains_key(lower_str(name)) {
        Some(headers[lower_str(name)])
    } else {
        None
    }
}

/// The values of the comma-separated header `name` in `headers`, if present.
pub open spec fn header_values(headers: Map<Seq<char>, Seq<char>>, name: Seq<char>) -> Option<
    Seq<Seq<char>>,
> {
    match header_value(headers, name) {
        Some(v) => Some(header_list(v)),
        None => None,
    }
}

/// Whether a response with these status code and headers indicates a
/// successful handshake for the key `key`.
pub open spec fn handshake_successful(
    status_code: usize,
    headers: Map<Seq<char>, Seq<char>>,
    key: Seq<char>,
) -> bool {
    &&& status_code == 101
    &&& header_value(headers, "Upgrade"@) matches Some(u) && is_ascii_chars(u) && is_ascii_chars(
        "websocket"@,
    ) && ascii_eq_ignore_case(u, "websocket"@)
    &&& header_value(headers, "Connection"@) matches Some(c) && is_ascii_chars(c)
        && is_ascii_chars("Upgrade"@) && ascii_eq_ignore_case(c, "Upgrade"@)
    &&& header_value(headers, "Sec-WebSocket-Accept"@) matches Some(a) && a == accept_value(key)
    &&& version_13_if_given(headers)
}

/// Whether the WebSocket version of a response, where it gives one, is 13:
/// its `Sec-WebSocket-Version` header, if present, lists exactly `13`.
pub open spec fn version_13_if_given(headers: Map<Seq<char>, Seq<char>>) -> bool {
    header_values(headers, "Sec-WebSocket-Version"@) matches Some(vs) ==> vs == seq!["13"@]
}

impl WebSocketResponse {
    /// Generates the handshake Sec-WebSocket-Accept value from
    /// the given Sec-WebSocket-Key.
    pub fn gen_accept(key: &str) -> (s: String)
        requires
            key_hashable(key@),
        ensures
            s@ == accept_value(key@),
    {
        proof {
            lemma_guid_len();
        }
        let mut concat_key: Vec<u8> = Vec::new();
        extend_bytes(&mut concat_key, key.as_bytes());
        extend_bytes(&mut concat_key, MAGIC_GUID.as_bytes());
        let digest = sha1(concat_key.as_slice());
        to_base64(&digest)
    }

    /// Create a new WebSocket response based on the base-64 encoded key from a client.
    pub fn new(key: &str, protocol: Option<&str>) -> (r: WebSocketResponse)
        requires
            key_hashable(key@),
        ensures
            r.http_version == (HttpVersion { version_major: 1, version_minor: Some(1) }),
            r.status_code == 101,
            r.reason_phrase@ == "Switching Protocols"@,
            r.headers@ == response_headers(
                key@,
                match protocol {
                    Some(p) => Some(p@),
                    None => None,
                },
            ),
    {
        let accept = WebSocketResponse::gen_accept(key);
        let mut headers = HeaderCollection::new();
        headers.insert("Upgrade", "websocket");
        headers.insert("Connection", "Upgrade");
        headers.insert("Sec-WebSocket-Accept", accept.as_str());
        if let Some(p) = protocol {
            headers.insert("Sec-WebSocket-Protocol", p);
        }
        WebSocketResponse {
            http_version: HttpVersion::new(1, Some(1)),
            status_code: 101,
            reason_phrase: "Switching Protocols".to_owned(),
            headers,
        }
    }

    /// Create a WebSocket response with a particular status code and reason phrase - generally
    /// used to indicate a handshake failure.
    pub fn failure(status_code: usize, reason_phrase: &str) -> (r: WebSocketResponse)
        ensures
            r.http_version == (HttpVersion { version_major: 1, version_minor: Some(1) }),
            r.status_code == status_code,
            r.reason_phrase@ == reason_phrase@,
            r.headers.entries() == Seq::<(Seq<char>, Seq<char>)>::empty(),
            r.headers@ == Map::<Seq<char>, Seq<char>>::empty(),
    {
        WebSocketResponse {
            http_version: HttpVersion::new(1, Some(1)),
            status_code,
            reason_phrase: reason_phrase.to_owned(),
            headers: HeaderCollection::new(),
        }
    }

    /// Short-cut to get the Upgrade field value of this response
    pub fn upgrade(&self) -> (r: Option<String>)
        ensures
            opt_text(r) == header_value(self.headers@, "Upgrade"@),
    {
        self.headers.get("Upgrade")
    }

    /// Short-cut to get the Connection field value of this response
    pub fn connection(&self) -> (r: Option<String>)
        ensures
            opt_text(r) == header_value(self.headers@, "Connection"@),
    {
        self.headers.get("Connection")
    }

    /// Short-cut to get the Sec-WebSocket-Accept field value of this response
    pub fn accept(&self) -> (r: Option<String>)
        ensures
            opt_text(r) == header_value(self.headers@, "Sec-WebSocket-Accept"@),
    {
        self.headers.get("Sec-WebSocket-Accept")
    }

    /// Short-cut to get the Sec-WebSocket-Protocol field value of this response
    pub fn protocol(&self) -> (r: Option<String>)
        ensures
            opt_text(r) == header_value(self.headers@, "Sec-WebSocket-Protocol"@),
    {
        self.headers.get("Sec-WebSocket-Protocol")
    }

    /// Short-cut to get the values of the Sec-WebSocket-Version field of this response.
    /// This may be present when the handshake fails (it should not appear on a successful
    /// handshake response).
    pub fn version(&self) -> (r: Option<Vec<String>>)
        ensures
            opt_texts(r) == header_values(self.headers@, "Sec-WebSocket-Version"@),
    {
        match self.headers.get("Sec-WebSocket-Version") {
            Some(version) => Some(split_header_list(version.as_str())),
            None => None,
        }
    }

    /// Short-cut to get the values of the Sec-WebSocket-Extensions field of this response
    pub fn extensions(&self) -> (r: Option<Vec<String>>)
        ensures
            opt_texts(r) == header_values(
                self.headers@,
                "Sec-WebSocket-Extensions"@,
            ),
    {
        match self.headers.get("Sec-WebSocket-Extensions") {
            Some(extensions) => Some(split_header_list(extensions.as_str())),
            None => None,
        }
    }

    /// Returns true if this response indicates a successful handshake
    ///
    /// The status code must be 101, the WebSocket-Version must be 13, the
    /// Upgrade must be 'websocket', the Connection must be 'Upgrade' (both
    /// ignoring ASCII case), and the Sec-WebSocket-Accept header must match
    /// the expected value from the given key. A successful response need not
    /// carry a Sec-WebSocket-Version header (see `version`); where it does,
    /// it must be 13.
    pub fn is_successful(&self, key: &str) -> (b: bool)
        requires
            key_hashable(key@),
        ensures
            b == handshake_successful(self.status_code, self.headers@, key@),
    {
        if self.status_code != 101 {
            return false;
        }
        let upgrade_ok = match self.upgrade() {
            Some(upgrade) => str_eq_ignore_case(upgrade.as_str(), "websocket"),
            None => false,
        };
        if !upgrade_ok {
            return false;
        }
        let connection_ok = match self.connection() {
            Some(connection) => str_eq_ignore_case(connection.as_str(), "Upgrade"),
            None => false,
        };
        if !connection_ok {
            return false;
        }
        let accept_ok = match self.accept() {
            Some(accept) => accept == WebSocketResponse::gen_accept(key),
            None => false,
        };
        if !accept_ok {
            return false;
        }
        match self.version() {
            Some(versions) => {
                if versions.len() != 1 {
                    proof {
                        assert(texts(versions@).len() != 1);
                    }
                    return false;
                }
                let thirteen = "13".to_owned();
                let b = versions[0] == thirteen;
                proof {
                    assert(texts(versions@) =~= seq![versions@[0]@]);
                    assert(b == (versions@[0]@ == "13"@));
                    if !b {
                        assert(seq![versions@[0]@][0] != seq!["13"@][0]);
                    }
                }
                b
            },
            None => true,
        }
    }
}

/// A response made for a key indicates a successful handshake for that key.
pub proof fn lemma_new_response_successful(key: Seq<char>, protocol: Option<Seq<char>>)
    ensures
        handshake_successful(101, response_headers(key, protocol), key),
{
    reveal_strlit("Upgrade");
    reveal_strlit("Connection");
    reveal_strlit("Sec-WebSocket-Accept");
    reveal_strlit("Sec-WebSocket-Protocol");
    reveal_strlit("websocket");
    reveal_strlit("Sec-WebSocket-Version");
    let up = lower_str("Upgrade"@);
    let conn = lower_str("Connection"@);
    let acc = lower_str("Sec-WebSocket-Accept"@);
    let proto = lower_str("Sec-WebSocket-Protocol"@);
    let ver = lower_str("Sec-WebSocket-Version"@);
    assert(up.len() == 7 && conn.len() == 10 && acc.len() == 20 && proto.len() == 22 && ver.len() == 21);
    assert(up != conn && up != acc && up != proto && conn != acc && conn != proto && acc != proto);
    assert(!response_headers(key, protocol).contains_key(ver));
    assert(is_ascii_chars("websocket"@));
    assert(is_ascii_chars("Upgrade"@));
    let m = response_headers(key, protocol);
    assert(m.contains_key(up) && m[up] == "websocket"@);
    assert(m.contains_key(conn) && m[conn] == "Upgrade"@);
    assert(m.contains_key(acc) && m[acc] == accept_value(key));
}

/// Characters with the same lower case have the same ASCII lower case and
/// are both ASCII or both not.
proof fn lemma_lower_char_agrees(x: char, y: char)
    requires
        lower_char(x) == lower_char(y),
    ensures
        ascii_lower(x) == ascii_lower(y),
        x <= '\u{7f}' <==> y <= '\u{7f}',
{
    let xu = x as u32;
    let yu = y as u32;
    if 'A' <= x <= 'Z' {
        assert(((xu + 32) as char) as u32 == xu + 32);
    }
    if 'A' <= y <= 'Z' {
        assert(((yu + 32) as char) as u32 == yu + 32);
    }
    assert(lower_char(x) as u32 == ascii_lower(x));
    assert(lower_char(y) as u32 == ascii_lower(y));
}

/// Lowering ASCII case and comparing ignoring ASCII case agree.
proof fn lemma_lower_agrees(a: Seq<char>, b: Seq<char>, w: Seq<char>)
    requires
        lower_str(a) == lower_str(b),
    ensures
        ascii_eq_ignore_case(a, w) == ascii_eq_ignore_case(b, w),
        is_ascii_chars(a) == is_ascii_chars(b),
{
    assert(a.len() == lower_str(a).len());
    assert(b.len() == lower_str(b).len());
    assert forall|i: int| 0 <= i < a.len() implies ascii_lower(a[i])
        == ascii_lower(b[i]) && (a[i] <= '\u{7f}' <==> b[i] <= '\u{7f}') by {
        assert(lower_str(a)[i] == lower_str(b)[i]);
        assert(lower_str(a)[i] == lower_char(a[i]));
        assert(lower_str(b)[i] == lower_char(b[i]));
        lemma_lower_char_agrees(a[i], b[i]);
    }
    if ascii_eq_ignore_case(a, w) {
        assert forall|i: int| 0 <= i < b.len() implies #[trigger] ascii_lower(b[i])
            == ascii_lower(w[i]) by {
            assert(ascii_lower(a[i]) == ascii_lower(w[i]));
        }
    }
    if ascii_eq_ignore_case(b, w) {
        assert forall|i: int| 0 <= i < a.len() implies #[trigger] ascii_lower(a[i])
            == ascii_lower(w[i]) by {
            assert(ascii_lower(b[i]) == ascii_lower(w[i]));
        }
    }
    if is_ascii_chars(a) {
        assert forall|i: int| 0 <= i < b.len() implies '\0' <= #[trigger] b[i] <= '\u{7f}' by {
            assert('\0' <= a[i] <= '\u{7f}');
            assert(lower_str(a)[i] == lower_str(b)[i]);
            assert(lower_str(a)[i] == lower_char(a[i]));
            assert(lower_str(b)[i] == lower_char(b[i]));
            lemma_lower_char_agrees(a[i], b[i]);
        }
    }
    if is_ascii_chars(b) {
        assert forall|i: int| 0 <= i < a.len() implies '\0' <= #[trigger] a[i] <= '\u{7f}' by {
            assert('\0' <= b[i] <= '\u{7f}');
            assert(lower_str(a)[i] == lower_str(b)[i]);
            assert(lower_str(a)[i] == lower_char(a[i]));
            assert(lower_str(b)[i] == lower_char(b[i]));
            lemma_lower_char_agrees(a[i], b[i]);
        }
    }
}

/// Whether a handshake succeeds does not depend on the ASCII case of the
/// values of its `Upgrade` and `Connection` headers: two responses whose
/// values differ only in case both succeed or both fail.
pub proof fn lemma_successful_ignores_case(
    status_code: usize,
    headers: Map<Seq<char>, Seq<char>>,
    key: Seq<char>,
    u1: Seq<char>,
    u2: Seq<char>,
)
    requires
        lower_str(u1) == lower_str(u2),
    ensures
        handshake_successful(status_code, headers.insert(lower_str("Upgrade"@), u1), key)
            == handshake_successful(status_code, headers.insert(lower_str("Upgrade"@), u2), key),
        handshake_successful(status_code, headers.insert(lower_str("Connection"@), u1), key)
            == handshake_successful(status_code, headers.insert(lower_str("Connection"@), u2), key),
{
    reveal_strlit("Upgrade");
    reveal_strlit("Connection");
    reveal_strlit("Sec-WebSocket-Accept");
    reveal_strlit("Sec-WebSocket-Version");
    lemma_lower_agrees(u1, u2, "websocket"@);
    lemma_lower_agrees(u1, u2, "Upgrade"@);
    let up = lower_str("Upgrade"@);
    let conn = lower_str("Connection"@);
    let acc = lower_str("Sec-WebSocket-Accept"@);
    let ver = lower_str("Sec-WebSocket-Version"@);
    assert(up.len() == 7 && conn.len() == 10 && acc.len() == 20 && ver.len() == 21);
    assert(up != conn && up != acc && up != ver && conn != acc && conn != ver);
    let h1 = headers.insert(up, u1);
    let h2 = headers.insert(up, u2);
    assert(header_value(h1, "Upgrade"@) == Some(u1));
    assert(header_value(h2, "Upgrade"@) == Some(u2));
    assert(header_value(h1, "Connection"@) == header_value(h2, "Connection"@));
    assert(header_value(h1, "Sec-WebSocket-Accept"@) == header_value(h2, "Sec-WebSocket-Accept"@));
    assert(header_value(h1, "Sec-WebSocket-Version"@) == header_value(h2, "Sec-WebSocket-Version"@));
    let g1 = headers.insert(conn, u1);
    let g2 = headers.insert(conn, u2);
    assert(header_value(g1, "Connection"@) == Some(u1));
    assert(header_value(g2, "Connection"@) == Some(u2));
    assert(header_value(g1, "Upgrade"@) == header_value(g2, "Upgrade"@));
    assert(header_value(g1, "Sec-WebSocket-Accept"@) == header_value(g2, "Sec-WebSocket-Accept"@));
    assert(header_value(g1, "Sec-WebSocket-Version"@) == header_value(g2, "Sec-WebSocket-Version"@));
}

/// A response with status 101, an `Upgrade` value that is `websocket` in any
/// ASCII case, `Connection: Upgrade`, the accept value of the key and no
/// other WebSocket version than 13 is a successful handshake for that key.
pub proof fn lemma_successful_upgrade_any_case(
    headers: Map<Seq<char>, Seq<char>>,
    key: Seq<char>,
    u: Seq<char>,
)
    requires
        lower_str(u) == lower_str("websocket"@),
        header_value(headers, "Connection"@) == Some("Upgrade"@),
        header_value(headers, "Sec-WebSocket-Accept"@) == Some(accept_value(key)),
        version_13_if_given(headers),
    ensures
        handshake_successful(101, headers.insert(lower_str("Upgrade"@), u), key),
{
    reveal_strlit("Upgrade");
    reveal_strlit("Connection");
    reveal_strlit("Sec-WebSocket-Accept");
    reveal_strlit("Sec-WebSocket-Version");
    reveal_strlit("websocket");
    let up = lower_str("Upgrade"@);
    assert(up =~= seq!['u', 'p', 'g', 'r', 'a', 'd', 'e']);
    assert(lower_str("websocket"@) =~= "websocket"@);
    lemma_lower_agrees(u, "websocket"@, "websocket"@);
    assert(is_ascii_chars("websocket"@));
    assert(is_ascii_chars("Upgrade"@));
    assert(ascii_eq_ignore_case("websocket"@, "websocket"@));
    assert(ascii_eq_ignore_case("Upgrade"@, "Upgrade"@));
    let conn = lower_str("Connection"@);
    let acc = lower_str("Sec-WebSocket-Accept"@);
    let ver = lower_str("Sec-WebSocket-Version"@);
    assert(conn.len() == 10 && acc.len() == 20 && ver.len() == 21);
    assert(up != conn && up != acc && up != ver);
    let h = headers.insert(up, u);
    assert(header_value(h, "Upgrade"@) == Some(u));
    assert(header_value(h, "Connection"@) == header_value(headers, "Connection"@));
    assert(header_value(h, "Sec-WebSocket-Accept"@) == header_value(headers, "Sec-WebSocket-Accept"@));
    assert(header_value(h, "Sec-WebSocket-Version"@) == header_value(headers, "Sec-WebSocket-Version"@));
}

/// The end of the version that begins at `d`: its major number, and a dot
/// and its minor number if they follow.
pub open spec fn version_end(l: Seq<char>, d: int) -> int {
    let e1 = digit_run_end(l, d);
    if e1 + 1 < l.len() && l[e1] == '.' && is_digit(l[e1 + 1]) {
        digit_run_end(l, e1 + 1)
    } else {
        e1
    }
}

/// Whether a status line is found at index `i` of `l`: `HTTP/`, a version,
/// a space, three digits and a space.
pub open spec fn status_at(l: Seq<char>, i: int) -> bool {
    let d = i + 5;
    let e = version_end(l, d);
    &&& 0 <= i
    &&& d < l.len()
    &&& l.subrange(i, d) == seq!['H', 'T', 'T', 'P', '/']
    &&& is_digit(l[d])
    &&& e + 5 <= l.len()
    &&& l[e] == ' '
    &&& is_digit(l[e + 1]) && is_digit(l[e + 2]) && is_digit(l[e + 3])
    &&& l[e + 4] == ' '
}

/// The first index at or after `i` at which a status line is found (the length when there is none).
pub open spec fn first_status(l: Seq<char>, i: int) -> int
    decreases l.len() - i,
{
    if i >= l.len() || i < 0 {
        l.len() as int
    } else if status_at(l, i) {
        i
    } else {
        first_status(l, i + 1)
    }
}

/// The parts of a status line: the major and minor version (when they fit a
/// byte), the status code and the reason phrase (up to a line feed), from
/// the first place in `l` where a status line is found.
pub open spec fn status_line(l: Seq<char>) -> Option<(Option<u8>, Option<u8>, nat, Seq<char>)> {
    let i = first_status(l, 0);
    if i >= l.len() {
        None
    } else {
        let d = i + 5;
        let e1 = digit_run_end(l, d);
        let e = version_end(l, d);
        Some(
            (
                byte_of_digits(l, d, e1),
                minor_after(l, e1),
                digits_value(l.subrange(e + 1, e + 4)),
                l.subrange(e + 5, find_char(l, '\n', e + 5)),
            ),
        )
    }
}

/// The parts of a status line, if one is found in `line`.
pub fn parse_status_line(line: &str) -> (r: Option<(Option<u8>, Option<u8>, usize, String)>)
    ensures
        match status_line(line@) {
            Some((major, minor, code, reason)) => r matches Some((a, b, c, d)) && a == major && b
                == minor && c == code && d@ == reason,
            None => r is None,
        },
{
    let cs = chars_of(line);
    let http = chars_of("HTTP/");
    proof {
        reveal_strlit("HTTP/");
    }
    assert(http@ == seq!['H', 'T', 'T', 'P', '/']);
    let n = cs.len();
    let mut i: usize = 0;
    while i < n
        invariant
            n == cs@.len(),
            cs@ == line@,
            http@ == seq!['H', 'T', 'T', 'P', '/'],
            i <= n,
            first_status(line@, i as int) == first_status(line@, 0),
        decreases n - i,
    {
        if matches_at(&cs, i, &http) && n - i > 5 && digit(cs[i + 5]) {
            let d = i + 5;
            let (e1, major) = read_digit_run(&cs, d);
            let mut e = e1;
            let mut minor: Option<u8> = None;
            if e1 < n && n - e1 > 1 && cs[e1] == '.' && digit(cs[e1 + 1]) {
                let (e2, m) = read_digit_run(&cs, e1 + 1);
                e = e2;
                minor = m;
            }
            assert(e == version_end(line@, d as int));
            if e < n && n - e >= 5 && cs[e] == ' ' && digit(cs[e + 1]) && digit(cs[e + 2]) && digit(
                cs[e + 3],
            ) && cs[e + 4] == ' ' {
                assert(cs@.subrange(i as int, i + 5) =~= cs@.subrange(i as int, i + http@.len()));
                let c1 = (cs[e + 1] as u32 - '0' as u32) as usize;
                let c2 = (cs[e + 2] as u32 - '0' as u32) as usize;
                let c3 = (cs[e + 3] as u32 - '0' as u32) as usize;
                let code = c1 * 100 + c2 * 10 + c3;
                proof {
                    let t = cs@.subrange(e + 1, e + 4);
                    assert(t.drop_last().drop_last().drop_last() =~= Seq::<char>::empty());
                    assert(t.drop_last().drop_last().last() == cs@[e + 1]);
                    assert(t.drop_last().last() == cs@[e + 2]);
                    assert(t.last() == cs@[e + 3]);
                    reveal_with_fuel(digits_value, 4);
                    assert(digits_value(t) == c1 * 100 + c2 * 10 + c3);
                    assert(status_at(line@, i as int));
                }
                let end = find_char_from(&cs, '\n', e + 5);
                let reason = string_of(&cs, e + 5, end);
                return Some((major, minor, code, reason));
            }
            assert(!status_at(line@, i as int));
        } else {
            assert(!status_at(line@, i as int)) by {
                if status_at(line@, i as int) {
                    assert(cs@.subrange(i as int, i + 5) =~= cs@.subrange(i as int, i + http@.len()));
                }
            }
        }
        i = i + 1;
    }
    None
}

/// The mathematical content of a response.
pub struct ResponseView {
    pub http_version: HttpVersion,
    pub status_code: nat,
    pub reason_phrase: Seq<char>,
    pub headers: Map<Seq<char>, Seq<char>>,
}

/// Whether a response can be read from `s`: if its status line can be read,
/// a status line is found in it, and its header section, if it can be read,
/// holds a header on every line.
pub open spec fn response_readable(s: Seq<u8>) -> bool {
    let (line, rest) = read_until(s, "\r\n"@, false);
    line matches Ok(l) ==> status_line(l) is Some && headers_readable(rest)
}

/// The response read from `s`, with the bytes left: a status line, then the
/// headers; a major version that does not fit a byte is refused.
pub open spec fn read_response(s: Seq<u8>) -> (Result<ResponseView, WebSocketError>, Seq<u8>) {
    let (line, rest) = read_until(s, "\r\n"@, false);
    match line {
        Err(e) => (Err(e), rest),
        Ok(l) => {
            let (major, minor, code, reason) = status_line(l).unwrap();
            let (headers, rest2) = read_headers(rest);
            match headers {
                Err(e) => (Err(e), rest2),
                Ok(m) => match major {
                    None => (Err(WebSocketError::IoError(IoErrorKind::InvalidData)), rest2),
                    Some(v) => (
                        Ok(
                            ResponseView {
                                http_version: HttpVersion { version_major: v, version_minor: minor },
                                status_code: code,
                                reason_phrase: reason,
                                headers: m,
                            },
                        ),
                        rest2,
                    ),
                },
            }
        },
    }
}

/// Reading a handshake response.
pub trait ReadWebSocketResponse {
    /// Reads a response.
    fn read_websocket_response(&mut self) -> WebSocketResult<WebSocketResponse>;
}

impl ReadWebSocketResponse for Vec<u8> {
    /// Reads a response from the start of the bytes, consuming it. A status
    /// line must be found and every header line must hold a header.
    fn read_websocket_response(&mut self) -> (r: WebSocketResult<WebSocketResponse>)
        ensures
            response_readable(old(self)@) ==> ({
                let (res, rest) = read_response(old(self)@);
                &&& final(self)@ == rest
                &&& match r {
                    Ok(resp) => res matches Ok(v) && resp.http_version == v.http_version
                        && resp.status_code == v.status_code && resp.reason_phrase@
                        == v.reason_phrase && resp.headers@ == v.headers,
                    Err(e) => res == Err::<ResponseView, WebSocketError>(e),
                }
            }),
    {
        let ghost s0 = self@;
        let status_line = self.read_until_str("\r\n", false)?;
        let (major, minor, code, reason) = match parse_status_line(status_line.as_str()) {
            Some(parts) => parts,
            None => {
                return Err(WebSocketError::IoError(IoErrorKind::InvalidData));
            },
        };
        let headers = self.read_http_headers()?;
        let version_major = match major {
            Some(v) => v,
            None => {
                return Err(WebSocketError::IoError(IoErrorKind::InvalidData));
            },
        };
        Ok(
            WebSocketResponse {
                http_version: HttpVersion::new(version_major, minor),
                status_code: code,
                reason_phrase: reason,
                headers,
            },
        )
    }
}

/// The bytes written for a response: the status line, the headers and a blank line.
pub open spec fn response_bytes(
    version: HttpVersion,
    status_code: nat,
    reason_phrase: Seq<char>,
    headers: Seq<(Seq<char>, Seq<char>)>,
) -> Seq<u8> {
    encode_utf8(
        "HTTP/"@ + version_text(version) + " "@ + decimal(status_code) + " "@ + reason_phrase,
    ) + encode_utf8("\r\n"@) + headers_bytes(headers) + encode_utf8("\r\n"@)
}

/// Writing a handshake response.
pub trait WriteWebSocketResponse {
    /// Writes a response.
    fn write_websocket_response(&mut self, response: &WebSocketResponse) -> WebSocketResult<()>;
}

impl WriteWebSocketResponse for Vec<u8> {
    /// Appends the response; writing to memory never fails.
    fn write_websocket_response(&mut self, response: &WebSocketResponse) -> (r: WebSocketResult<()>)
        ensures
            r is Ok,
            final(self)@ == old(self)@ + response_bytes(
                response.http_version,
                response.status_code as nat,
                response.reason_phrase@,
                response.headers.entries(),
            ),
    {
        let mut status_line = "HTTP/".to_owned();
        let version = response.http_version.to_string();
        status_line.append(version.as_str());
        status_line.append(" ");
        let code = decimal_string(response.status_code as u64);
        status_line.append(code.as_str());
        status_line.append(" ");
        status_line.append(response.reason_phrase.as_str());
        let ghost start = self@;
        extend_bytes(self, status_line.as_str().as_bytes());
        extend_bytes(self, "\r\n".as_bytes());
        self.write_http_headers(&response.headers)?;
        extend_bytes(self, "\r\n".as_bytes());
        Ok(())
    }
}

} // verus!
