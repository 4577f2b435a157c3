//! Checking the headers of a handshake request or response.

use crate::util::header::{lower_str, to_ascii_lowercase, HeaderCollection};
use crate::util::text::{chars_of, matches_at, occurs_at};
use crate::ws::handshake::request::{insert_each, request_headers};
use crate::ws::handshake::response::{header_value, response_headers};
use vstd::prelude::*;

verus! {

/// Whether `pat` occurs in `s`.
pub open spec fn occurs_in(pat: Seq<char>, s: Seq<char>) -> bool {
    exists|i: int| 0 <= i && i + pat.len() <= s.len() && #[trigger] s.subrange(i, i + pat.len()) == pat
}

/// Whether `pat` occurs in `s`: whether some sub-slice of `s` is `pat`.
fn str_contains(s: &str, pat: &str) -> (b: bool)
    ensures
        b == occurs_in(pat@, s@),
{
    let cs = chars_of(s);
    let ps = chars_of(pat);
    let mut i: usize = 0;
    loop
        invariant
            cs@ == s@,
            ps@ == pat@,
            i <= cs@.len(),
            forall|j: int| 0 <= j < i ==> !#[trigger] occurs_at(cs@, ps@, j),
        decreases cs@.len() - i,
    {
        if matches_at(&cs, i, &ps) {
            assert(s@.subrange(i as int, i + pat@.len()) == pat@);
            return true;
        }
        if i == cs.len() {
            assert forall|j: int| 0 <= j && j + pat@.len() <= s@.len() implies #[trigger] s@.subrange(
                j,
                j + pat@.len(),
            ) != pat@ by {
                assert(!occurs_at(cs@, ps@, j));
            }
            return false;
        }
        i = i + 1;
    }
}

/// Whether headers hold a valid handshake request: a host, connection,
/// upgrade, version and key, version 13, an upgrade that mentions
/// `websocket` and a connection that mentions `upgrade` (ignoring ASCII case).
pub open spec fn request_headers_valid(m: Map<Seq<char>, Seq<char>>) -> bool {
    &&& header_value(m, "Host"@) is Some
    &&& header_value(m, "Connection"@) is Some
    &&& header_value(m, "Upgrade"@) is Some
    &&& header_value(m, "Sec-WebSocket-Version"@) is Some
    &&& header_value(m, "Sec-WebSocket-Key"@) is Some
    &&& header_value(m, "Sec-WebSocket-Version"@).unwrap() == "13"@
    &&& occurs_in("websocket"@, lower_str(header_value(m, "Upgrade"@).unwrap()))
    &&& occurs_in("upgrade"@, lower_str(header_value(m, "Connection"@).unwrap()))
}

/// Whether headers hold a valid handshake response: an upgrade that is
/// `websocket` (ignoring ASCII case) and an accept value.
pub open spec fn response_headers_valid(m: Map<Seq<char>, Seq<char>>) -> bool {
    &&& header_value(m, "Upgrade"@) is Some
    &&& header_value(m, "Sec-WebSocket-Accept"@) is Some
    &&& lower_str(header_value(m, "Upgrade"@).unwrap()) == lower_str("websocket"@)
}

/// Checks of the headers of a handshake.
pub trait CheckWebSocketHeader {
    /// Whether these are the headers of a valid handshake request.
    fn check_request(&self) -> bool;

    /// Whether these are the headers of a valid handshake response.
    fn check_response(&self) -> bool;
}

impl CheckWebSocketHeader for HeaderCollection {
    fn check_request(&self) -> (b: bool)
        ensures
            b == request_headers_valid(self@),
    {
        if !(self.contains_field("Host") && self.contains_field("Connection") && self.contains_field(
            "Upgrade",
        ) && self.contains_field("Sec-WebSocket-Version") && self.contains_field(
            "Sec-WebSocket-Key",
        )) {
            return false;
        }
        let version = self.get("Sec-WebSocket-Version").unwrap();
        let thirteen = "13".to_owned();
        if version != thirteen {
            return false;
        }
        let upgrade = to_ascii_lowercase(self.get("Upgrade").unwrap().as_str());
        if !str_contains(upgrade.as_str(), "websocket") {
            return false;
        }
        let connection = to_ascii_lowercase(self.get("Connection").unwrap().as_str());
        str_contains(connection.as_str(), "upgrade")
    }

    fn check_response(&self) -> (b: bool)
        ensures
            b == response_headers_valid(self@),
    {
        if !(self.contains_field("Upgrade") && self.contains_field("Sec-WebSocket-Accept")) {
            return false;
        }
        let upgrade = to_ascii_lowercase(self.get("Upgrade").unwrap().as_str());
        let expected = to_ascii_lowercase("websocket");
        upgrade == expected
    }
}

/// Inserting values under one name leaves every other name as it was.
proof fn lemma_insert_each_other(
    m: Map<Seq<char>, Seq<char>>,
    name: Seq<char>,
    values: Seq<Seq<char>>,
    k: Seq<char>,
)
    requires
        k != lower_str(name),
    ensures
        insert_each(m, name, values).contains_key(k) == m.contains_key(k),
        insert_each(m, name, values)[k] == m[k],
    decreases values.len(),
{
    if values.len() > 0 {
        lemma_insert_each_other(m, name, values.drop_last(), k);
    }
}

/// A request made for any host, key and subprotocols has the headers of a
/// valid handshake request.
pub proof fn lemma_new_request_valid(host: Seq<char>, key: Seq<char>, protocols: Seq<Seq<char>>)
    ensures
        request_headers_valid(request_headers(host, key, protocols)),
{
    reveal_strlit("Host");
    reveal_strlit("Upgrade");
    reveal_strlit("Connection");
    reveal_strlit("Sec-WebSocket-Key");
    reveal_strlit("Sec-WebSocket-Version");
    reveal_strlit("Sec-WebSocket-Protocol");
    reveal_strlit("websocket");
    reveal_strlit("upgrade");
    reveal_strlit("13");
    let proto = lower_str("Sec-WebSocket-Protocol"@);
    assert(proto.len() == 22);
    assert(lower_str("Host"@).len() == 4);
    assert(lower_str("Upgrade"@).len() == 7);
    assert(lower_str("Connection"@).len() == 10);
    assert(lower_str("Sec-WebSocket-Key"@).len() == 17);
    assert(lower_str("Sec-WebSocket-Version"@).len() == 21);
    let m = request_headers(host, key, protocols);
    let names = seq![
        lower_str("Host"@),
        lower_str("Upgrade"@),
        lower_str("Connection"@),
        lower_str("Sec-WebSocket-Key"@),
        lower_str("Sec-WebSocket-Version"@),
    ];
    let base = request_headers(host, key, Seq::empty());
    assert(base.contains_key(lower_str("Host"@)));
    assert(base[lower_str("Upgrade"@)] == "websocket"@);
    assert(base[lower_str("Connection"@)] == "Upgrade"@);
    assert(base.contains_key(lower_str("Sec-WebSocket-Key"@)));
    assert(base[lower_str("Sec-WebSocket-Version"@)] == "13"@);
    assert forall|i: int| 0 <= i < 5 implies m.contains_key(#[trigger] names[i]) && m[names[i]]
        == base[names[i]] by {
        lemma_insert_each_other(base, "Sec-WebSocket-Protocol"@, protocols, names[i]);
    }
    assert(lower_str("websocket"@) =~= "websocket"@);
    assert(lower_str("Upgrade"@) =~= "upgrade"@);
    assert(lower_str("websocket"@).subrange(0, 9) =~= "websocket"@);
    assert(lower_str("Upgrade"@).subrange(0, 7) =~= "upgrade"@);
    assert(m[names[1]] == "websocket"@);
    assert(m[names[2]] == "Upgrade"@);
    assert(m[names[4]] == "13"@);
    let u = lower_str(header_value(m, "Upgrade"@).unwrap());
    assert(u.subrange(0, 0 + "websocket"@.len() as int) =~= "websocket"@);
    let c = lower_str(header_value(m, "Connection"@).unwrap());
    assert(c.subrange(0, 0 + "upgrade"@.len() as int) =~= "upgrade"@);
}

/// A response made for any key has the headers of a valid handshake response.
pub proof fn lemma_new_response_valid(key: Seq<char>, protocol: Option<Seq<char>>)
    ensures
        response_headers_valid(response_headers(key, protocol)),
{
    reveal_strlit("Upgrade");
    reveal_strlit("Connection");
    reveal_strlit("Sec-WebSocket-Accept");
    reveal_strlit("Sec-WebSocket-Protocol");
    assert(lower_str("Upgrade"@).len() == 7);
    assert(lower_str("Connection"@).len() == 10);
    assert(lower_str("Sec-WebSocket-Accept"@).len() == 20);
    assert(lower_str("Sec-WebSocket-Protocol"@).len() == 22);
}

} // verus!
