//! Reading text up to a delimiter.

use crate::result::{IoErrorKind, WebSocketError, WebSocketResult};
use crate::ws::util::str_from_utf8;
use vstd::prelude::*;
use vstd::slice::{slice_subrange, slice_to_vec};
use vstd::utf8::{decode_utf8, encode_utf8, valid_utf8};

verus! {

/// Whether the first `p` bytes of `s` end with `stop`.
pub open spec fn ends_with_at(s: Seq<u8>, stop: Seq<u8>, p: int) -> bool {
    stop.len() <= p <= s.len() && s.subrange(p - stop.len(), p) == stop
}

/// The least `q` with `p <= q <= s.len()` (and at least one) such that the
/// first `q` bytes of `s` end with `stop`, if any.
pub open spec fn stop_index(s: Seq<u8>, stop: Seq<u8>, p: int) -> Option<int>
    decreases s.len() - p,
{
    if p > s.len() {
        None
    } else if p >= 1 && ends_with_at(s, stop, p) {
        Some(p)
    } else if p < s.len() {
        stop_index(s, stop, p + 1)
    } else {
        None
    }
}

/// What reading up to `until` from the bytes `s` gives, with the bytes left:
/// the text read (without `until` unless `preserve`), an error when the
/// bytes end before `until` (nothing is consumed) or when the text is not UTF-8.
pub open spec fn read_until(s: Seq<u8>, until: Seq<char>, preserve: bool) -> (
    Result<Seq<char>, WebSocketError>,
    Seq<u8>,
) {
    let stop = encode_utf8(until);
    match stop_index(s, stop, 1) {
        None => (Err(WebSocketError::IoError(IoErrorKind::UnexpectedEof)), s),
        Some(p) => {
            let content = if preserve {
                s.subrange(0, p)
            } else {
                s.subrange(0, p - stop.len())
            };
            (
                if valid_utf8(content) {
                    Ok(decode_utf8(content))
                } else {
                    Err(WebSocketError::Utf8Error)
                },
                s.skip(p),
            )
        },
    }
}

/// Whether the first `p` bytes of `s` end with `stop`.
fn ends_with(s: &[u8], p: usize, stop: &[u8]) -> (b: bool)
    requires
        p <= s@.len(),
    ensures
        b == ends_with_at(s@, stop@, p as int),
{
    if stop.len() > p {
        return false;
    }
    let start = p - stop.len();
    let mut i: usize = 0;
    while i < stop.len()
        invariant
            start + stop@.len() == p,
            p <= s@.len(),
            i <= stop@.len(),
            forall|k: int| 0 <= k < i ==> s@[start + k] == stop@[k],
        decreases stop@.len() - i,
    {
        if s[start + i] != stop[i] {
            assert(s@.subrange(start as int, p as int)[i as int] != stop@[i as int]);
            return false;
        }
        i = i + 1;
    }
    assert(s@.subrange(start as int, p as int) =~= stop@);
    true
}

/// Reading text up to a delimiter.
pub trait ReadUntilStr {
    /// Reads up to and including `until`; the text read keeps `until` only if `preserve`.
    fn read_until_str(&mut self, until: &str, preserve: bool) -> WebSocketResult<String>;
}

impl ReadUntilStr for Vec<u8> {
    /// Reads from the start of the bytes up to the first place where they
    /// end with `until`, consuming what is read.
    fn read_until_str(&mut self, until: &str, preserve: bool) -> (r: WebSocketResult<String>)
        ensures
            ({
                let (res, rest) = read_until(old(self)@, until@, preserve);
                &&& final(self)@ == rest
                &&& match r {
                    Ok(t) => res == Ok::<Seq<char>, WebSocketError>(t@),
                    Err(e) => res == Err::<Seq<char>, WebSocketError>(e),
                }
            }),
    {
        let stop = until.as_bytes();
        let n = self.len();
        let mut q: usize = 0;
        let mut found = false;
        while q < n && !found
            invariant
                n == self@.len(),
                q <= n,
                found ==> 1 <= q <= n && ends_with_at(self@, stop@, q as int),
                found ==> stop_index(self@, stop@, 1) == Some(q as int),
                !found ==> stop_index(self@, stop@, q + 1) == stop_index(self@, stop@, 1),
            decreases n - q + if found {
                0int
            } else {
                1int
            },
        {
            if ends_with(self.as_slice(), q + 1, stop) {
                q = q + 1;
                found = true;
            } else {
                q = q + 1;
            }
        }
        let p = q;
        if !found {
            return Err(WebSocketError::IoError(IoErrorKind::UnexpectedEof));
        }
        let end = if preserve {
            p
        } else {
            p - stop.len()
        };
        let content = slice_to_vec(slice_subrange(self.as_slice(), 0, end));
        let rest = slice_to_vec(slice_subrange(self.as_slice(), p, n));
        assert(rest@ =~= self@.skip(p as int));
        *self = rest;
        match str_from_utf8(content.as_slice()) {
            Ok(s) => Ok(s.to_owned()),
            Err(_) => Err(WebSocketError::Utf8Error),
        }
    }
}

} // verus!
