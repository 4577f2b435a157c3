//! Reading back what was written: a handshake request or response written
//! by this crate is read back by it as the same request or response.

use crate::result::WebSocketError;
use crate::util::header::{headers_bytes, headers_map, keys_distinct};
use crate::util::header_roundtrip::{
    entries_writable, lemma_find_char_none, lemma_headers_roundtrip, lemma_read_line,
    no_line_break,
};
use crate::util::text::{decimal, is_digit, lemma_decimal};
use crate::ws::handshake::request::{
    first_request, http_at, last_http, read_request, request_at, request_bytes, request_line,
    request_readable, RequestView,
};
use crate::ws::handshake::response::{
    first_status, read_response, response_bytes, response_readable, status_at, status_line,
    version_end, ResponseView,
};
use crate::ws::handshake::version::{lemma_version_at, version_text, HttpVersion};
use vstd::prelude::*;
use vstd::utf8::encode_utf8;

verus! {

/// A status code from 100 to 999 is written with three digits.
proof fn lemma_three_digits(code: nat)
    requires
        100 <= code <= 999,
    ensures
        decimal(code).len() == 3,
{
    assert(decimal(code) == decimal(code / 10).push(crate::util::text::digit_char(code % 10)));
    assert(decimal(code / 10) == decimal(code / 100).push(
        crate::util::text::digit_char((code / 10) % 10),
    ));
    assert(code / 10 / 10 == code / 100);
    assert(decimal(code / 100).len() == 1);
}

/// The status line of a response.
pub open spec fn status_text(version: HttpVersion, status_code: nat, reason_phrase: Seq<char>) -> Seq<char> {
    "HTTP/"@ + version_text(version) + " "@ + decimal(status_code) + " "@ + reason_phrase
}

/// A status line as written is read back: its version, status code and
/// reason phrase; and it breaks no line.
proof fn lemma_status_line(v: HttpVersion, code: nat, reason: Seq<char>)
    requires
        100 <= code <= 999,
        no_line_break(reason),
    ensures
        no_line_break(status_text(v, code, reason)),
        status_line(status_text(v, code, reason)) == Some(
            (Some(v.version_major), v.version_minor, code, reason),
        ),
{
    reveal_strlit("HTTP/");
    reveal_strlit(" ");
    let vt = version_text(v);
    let dc = decimal(code);
    lemma_decimal(code);
    lemma_three_digits(code);
    let l = status_text(v, code, reason);
    let n = vt.len() as int;
    let e = 5 + n;
    assert(l =~= seq!['H', 'T', 'T', 'P', '/'] + vt + seq![' '] + dc + seq![' '] + reason);
    assert(l.len() == e + 5 + reason.len());
    assert forall|k: int| 0 <= k < n implies l[5 + k] == vt[k] by {}
    assert(l.subrange(5, 5 + n) =~= vt);
    assert(l[e] == ' ');
    lemma_version_at(l, 5, v);
    assert(l.subrange(0, 5) =~= seq!['H', 'T', 'T', 'P', '/']);
    assert(l[e + 1] == dc[0] && l[e + 2] == dc[1] && l[e + 3] == dc[2]);
    assert(l[e + 4] == ' ');
    assert(version_end(l, 5) == e);
    assert(status_at(l, 0));
    assert(first_status(l, 0) == 0);
    assert(l.subrange(e + 1, e + 4) =~= dc);
    assert forall|k: int| e + 5 <= k < l.len() implies #[trigger] l[k] != '\n' by {
        assert(l[k] == reason[k - e - 5]);
    }
    lemma_find_char_none(l, '\n', e + 5);
    assert(l.subrange(e + 5, l.len() as int) =~= reason);
    assert forall|k: int| 0 <= k < l.len() implies #[trigger] l[k] != '\r' && l[k] != '\n' by {
        if 5 <= k < e {
            assert(is_digit(l[k]) || l[k] == '.');
        } else if e + 1 <= k < e + 4 {
            assert(l[k] == dc[k - e - 1]);
        } else if k >= e + 5 {
            assert(l[k] == reason[k - e - 5]);
        }
    }
}

/// A response written with a status code of three digits, a reason phrase
/// that breaks no line and headers that are not empty, with distinct field
/// names, each written so as to be read back, is read back as the same
/// response, and the bytes that follow are left unread.
pub proof fn lemma_response_roundtrip(
    version: HttpVersion,
    status_code: nat,
    reason_phrase: Seq<char>,
    headers: Seq<(Seq<char>, Seq<char>)>,
    tail: Seq<u8>,
)
    requires
        100 <= status_code <= 999,
        no_line_break(reason_phrase),
        headers.len() > 0,
        keys_distinct(headers),
        entries_writable(headers),
    ensures
        response_readable(response_bytes(version, status_code, reason_phrase, headers) + tail),
        read_response(response_bytes(version, status_code, reason_phrase, headers) + tail) == (
            Ok::<ResponseView, WebSocketError>(
                ResponseView {
                    http_version: version,
                    status_code,
                    reason_phrase,
                    headers: headers_map(headers),
                },
            ),
            tail,
        ),
{
    let l = status_text(version, status_code, reason_phrase);
    lemma_status_line(version, status_code, reason_phrase);
    let rest = headers_bytes(headers) + encode_utf8("\r\n"@) + tail;
    assert(response_bytes(version, status_code, reason_phrase, headers) + tail =~= encode_utf8(l)
        + encode_utf8("\r\n"@) + rest);
    lemma_read_line(l, rest);
    lemma_headers_roundtrip(headers, tail);
}

/// The request line of a request.
pub open spec fn request_text(resource_name: Seq<char>, version: HttpVersion) -> Seq<char> {
    "GET "@ + resource_name + " HTTP/"@ + version_text(version)
}

/// The last place in `l` from `lo` to `hi` where ` HTTP/` and a digit are
/// found is `p`, where they are found and nowhere after it.
proof fn lemma_last_http(l: Seq<char>, lo: int, hi: int, p: int)
    requires
        lo <= p <= hi,
        http_at(l, p),
        forall|q: int| p < q <= hi ==> !#[trigger] http_at(l, q),
    ensures
        last_http(l, lo, hi) == Some(p),
    decreases hi - lo,
{
    if hi > p {
        lemma_last_http(l, lo, hi - 1, p);
    }
}

/// A request line as written is read back: its resource name and version;
/// and it breaks no line.
proof fn lemma_request_line(resource_name: Seq<char>, v: HttpVersion)
    requires
        no_line_break(resource_name),
    ensures
        no_line_break(request_text(resource_name, v)),
        request_line(request_text(resource_name, v)) == Some(
            (resource_name, Some(v.version_major), v.version_minor),
        ),
{
    reveal_strlit("GET ");
    reveal_strlit(" HTTP/");
    let vt = version_text(v);
    let l = request_text(resource_name, v);
    let r = resource_name.len() as int;
    let n = vt.len() as int;
    let p = 4 + r;
    assert(l =~= seq!['G', 'E', 'T', ' '] + resource_name + seq![' ', 'H', 'T', 'T', 'P', '/'] + vt);
    assert(l.len() == p + 6 + n);
    assert(l.subrange(p + 6, p + 6 + n) =~= vt);
    lemma_version_at(l, p + 6, v);
    assert forall|k: int| 0 <= k < l.len() implies #[trigger] l[k] != '\r' && l[k] != '\n' by {
        if 4 <= k < p {
            assert(l[k] == resource_name[k - 4]);
        } else if k >= p + 6 {
            assert(is_digit(l[k]) || l[k] == '.');
        }
    }
    lemma_find_char_none(l, '\n', 4);
    assert(l.subrange(0, 4) =~= seq!['G', 'E', 'T', ' ']);
    assert(l.subrange(p, p + 6) =~= seq![' ', 'H', 'T', 'T', 'P', '/']);
    assert(http_at(l, p));
    assert forall|q: int| p < q <= l.len() - 7 implies !#[trigger] http_at(l, q) by {
        assert(l.subrange(q, q + 6)[0] == l[q]);
        if q < p + 6 {
        } else {
            assert(is_digit(l[q]) || l[q] == '.');
        }
    }
    lemma_last_http(l, 4, l.len() - 7, p);
    assert(request_at(l, 0) == Some(p));
    assert(first_request(l, 0) == 0);
    assert(l.subrange(4, p) =~= resource_name);
}

/// A request written with a resource name that breaks no line and headers
/// that are not empty, with distinct field names, each written so as to be
/// read back, is read back as the same request, and the bytes that follow
/// are left unread.
pub proof fn lemma_request_roundtrip(
    resource_name: Seq<char>,
    version: HttpVersion,
    headers: Seq<(Seq<char>, Seq<char>)>,
    tail: Seq<u8>,
)
    requires
        no_line_break(resource_name),
        headers.len() > 0,
        keys_distinct(headers),
        entries_writable(headers),
    ensures
        request_readable(request_bytes(resource_name, version, headers) + tail),
        read_request(request_bytes(resource_name, version, headers) + tail) == (
            Ok::<RequestView, WebSocketError>(
                RequestView { resource_name, http_version: version, headers: headers_map(headers) },
            ),
            tail,
        ),
{
    let l = request_text(resource_name, version);
    lemma_request_line(resource_name, version);
    let rest = headers_bytes(headers) + encode_utf8("\r\n"@) + tail;
    assert(request_bytes(resource_name, version, headers) + tail =~= encode_utf8(l) + encode_utf8(
        "\r\n"@,
    ) + rest);
    lemma_read_line(l, rest);
    lemma_headers_roundtrip(headers, tail);
}

} // verus!
