//! HTTP versions, as written in a request or status line.

use crate::util::text::{
    chars_of, decimal, decimal_string, digit, digit_value, digits_value, is_digit, lemma_decimal,
    push_char,
};
use vstd::prelude::*;
use vstd::string::StringExecFns;

verus! {

/// Represents an HTTP version.
#[derive(Debug, Clone, Copy, PartialEq, Eq, Structural)]
pub struct HttpVersion {
    /// The major HTTP version.
    pub version_major: u8,
    /// The minor HTTP version if present.
    pub version_minor: Option<u8>,
}

/// The index of the first digit of `s` at or after `i` (the length when there is none).
pub open spec fn first_digit(s: Seq<char>, i: int) -> int
    decreases s.len() - i,
{
    if i >= s.len() || i < 0 {
        s.len() as int
    } else if is_digit(s[i]) {
        i
    } else {
        first_digit(s, i + 1)
    }
}

/// The end of the run of digits of `s` that starts at `i`.
pub open spec fn digit_run_end(s: Seq<char>, i: int) -> int
    decreases s.len() - i,
{
    if i >= s.len() || i < 0 || !is_digit(s[i]) {
        i
    } else {
        digit_run_end(s, i + 1)
    }
}

/// The number the digits `s[i..j]` write, if it fits a byte.
pub open spec fn byte_of_digits(s: Seq<char>, i: int, j: int) -> Option<u8> {
    let v = digits_value(s.subrange(i, j));
    if v <= 255 {
        Some(v as u8)
    } else {
        None
    }
}

/// The minor version that follows a major version ending at `end`: a dot
/// and a run of digits, if there are, and if the number fits a byte.
pub open spec fn minor_after(s: Seq<char>, end: int) -> Option<u8> {
    if end + 1 < s.len() && s[end] == '.' && is_digit(s[end + 1]) {
        byte_of_digits(s, end + 1, digit_run_end(s, end + 1))
    } else {
        None
    }
}

/// Whether `s` holds a version: a run of digits, the first in `s`, that
/// writes a number that fits a byte.
pub open spec fn has_version(s: Seq<char>) -> bool {
    let start = first_digit(s, 0);
    start < s.len() && byte_of_digits(s, start, digit_run_end(s, start)) is Some
}

/// The version written in `s`: the first run of digits, then optionally a
/// dot and a second run of digits.
pub open spec fn version_of(s: Seq<char>) -> HttpVersion {
    let start = first_digit(s, 0);
    let end = digit_run_end(s, start);
    HttpVersion {
        version_major: byte_of_digits(s, start, end).unwrap(),
        version_minor: minor_after(s, end),
    }
}

/// The text of a version: the major number, then a dot and the minor number if any.
pub open spec fn version_text(v: HttpVersion) -> Seq<char> {
    match v.version_minor {
        Some(m) => decimal(v.version_major as nat).push('.') + decimal(m as nat),
        None => decimal(v.version_major as nat),
    }
}

/// A number below 256, or 256 for any larger number.
pub open spec fn capped(n: nat) -> nat {
    if n > 255 {
        256
    } else {
        n
    }
}

/// Reads the run of digits of `cs` that starts at `i`: its end, and its
/// value if it fits a byte.
pub fn read_digit_run(cs: &Vec<char>, i: usize) -> (r: (usize, Option<u8>))
    requires
        i <= cs@.len(),
    ensures
        r.0 == digit_run_end(cs@, i as int),
        i <= r.0 <= cs@.len(),
        r.1 == byte_of_digits(cs@, i as int, r.0 as int),
{
    let n = cs.len();
    let mut j = i;
    let mut acc: u32 = 0;
    while j < n && digit(cs[j])
        invariant
            n == cs@.len(),
            i <= j <= n,
            forall|k: int| i <= k < j ==> is_digit(#[trigger] cs@[k]),
            digit_run_end(cs@, i as int) == digit_run_end(cs@, j as int),
            acc == capped(digits_value(cs@.subrange(i as int, j as int))),
        decreases n - j,
    {
        let c = cs[j];
        let d = (c as u32) - ('0' as u32);
        let ghost prefix = cs@.subrange(i as int, j as int);
        assert(cs@.subrange(i as int, j + 1).drop_last() =~= prefix);
        if acc > 255 {
            acc = 256;
            assert(digits_value(prefix) * 10 + digit_value(c) > 255) by (nonlinear_arith)
                requires
                    digits_value(prefix) > 255,
            ;
        } else {
            acc = acc * 10 + d;
            if acc > 255 {
                acc = 256;
            }
        }
        j = j + 1;
    }
    (j, if acc <= 255 {
        Some(acc as u8)
    } else {
        None
    })
}

impl HttpVersion {
    /// Create a new HttpVersion from major and minor version numbers.
    pub fn new(version_major: u8, version_minor: Option<u8>) -> (v: HttpVersion)
        ensures
            v.version_major == version_major,
            v.version_minor == version_minor,
    {
        HttpVersion { version_major, version_minor }
    }

    /// Create a new HttpVersion from a string: the first run of digits in it
    /// is the major version, and a dot and a run of digits after it the minor
    /// version. The major version must be there and fit a byte.
    pub fn parse(version: &str) -> (v: HttpVersion)
        requires
            has_version(version@),
        ensures
            v == version_of(version@),
    {
        let cs = chars_of(version);
        let n = cs.len();
        let mut start: usize = 0;
        while start < n && !digit(cs[start])
            invariant
                n == version@.len(),
                cs@ == version@,
                start <= n,
                first_digit(version@, start as int) == first_digit(version@, 0),
            decreases n - start,
        {
            start = start + 1;
        }
        let (end, major) = read_digit_run(&cs, start);
        let mut minor: Option<u8> = None;
        if end < n && n - end > 1 && cs[end] == '.' && digit(cs[end + 1]) {
            let (_, m) = read_digit_run(&cs, end + 1);
            minor = m;
        }
        HttpVersion { version_major: major.unwrap(), version_minor: minor }
    }

    /// The text of this version, such as `1.1`.
    pub fn to_string(&self) -> (s: String)
        ensures
            s@ == version_text(*self),
    {
        let mut s = decimal_string(self.version_major as u64);
        if let Some(m) = self.version_minor {
            push_char(&mut s, '.');
            let t = decimal_string(m as u64);
            s.append(t.as_str());
        }
        s
    }
}

/// A run of digits from `i` to `j`, followed by a non-digit or the end,
/// ends at `j`.
proof fn lemma_run_end(s: Seq<char>, i: int, j: int)
    requires
        0 <= i <= j <= s.len(),
        forall|k: int| i <= k < j ==> is_digit(#[trigger] s[k]),
        j == s.len() || !is_digit(s[j]),
    ensures
        digit_run_end(s, i) == j,
    decreases j - i,
{
    if i < j {
        lemma_run_end(s, i + 1, j);
    }
}

/// Reading the text of a version gives back that version.
pub proof fn lemma_version_roundtrip(v: HttpVersion)
    ensures
        has_version(version_text(v)),
        version_of(version_text(v)) == v,
{
    let s = version_text(v);
    let maj = decimal(v.version_major as nat);
    lemma_decimal(v.version_major as nat);
    assert(is_digit(s[0]));
    assert(first_digit(s, 0) == 0);
    match v.version_minor {
        Some(m) => {
            let mi = decimal(m as nat);
            lemma_decimal(m as nat);
            let end = maj.len() as int;
            assert(forall|k: int| 0 <= k < end ==> s[k] == maj[k]);
            assert(s[end] == '.');
            lemma_run_end(s, 0, end);
            assert(s.subrange(0, end) =~= maj);
            assert(forall|k: int| 0 <= k < mi.len() ==> s[end + 1 + k] == mi[k]);
            assert(forall|k: int| end + 1 <= k < s.len() ==> is_digit(#[trigger] s[k])) by {
                assert forall|k: int| end + 1 <= k < s.len() implies is_digit(#[trigger] s[k]) by {
                    assert(s[k] == mi[k - end - 1]);
                }
            }
            lemma_run_end(s, end + 1, s.len() as int);
            assert(s.subrange(end + 1, s.len() as int) =~= mi);
        },
        None => {
            lemma_run_end(s, 0, s.len() as int);
            assert(s.subrange(0, s.len() as int) =~= maj);
        },
    }
}

/// A version written at index `d` of `s`, followed by a space or the end,
/// is read there: its major number from the run of digits at `d`, then its
/// minor number, if any, after a dot.
pub proof fn lemma_version_at(s: Seq<char>, d: int, v: HttpVersion)
    requires
        0 <= d,
        d + version_text(v).len() <= s.len(),
        s.subrange(d, d + version_text(v).len()) == version_text(v),
        d + version_text(v).len() == s.len() || s[d + version_text(v).len()] == ' ',
    ensures
        is_digit(s[d]),
        forall|k: int| d <= k < d + version_text(v).len() ==> is_digit(#[trigger] s[k]) || s[k] == '.',
        byte_of_digits(s, d, digit_run_end(s, d)) == Some(v.version_major),
        minor_after(s, digit_run_end(s, d)) == v.version_minor,
        v.version_minor is None ==> digit_run_end(s, d) == d + version_text(v).len(),
        v.version_minor is Some ==> ({
            let e1 = digit_run_end(s, d);
            &&& e1 + 1 < s.len()
            &&& s[e1] == '.'
            &&& is_digit(s[e1 + 1])
            &&& digit_run_end(s, e1 + 1) == d + version_text(v).len()
        }),
{
    let t = version_text(v);
    let n = t.len() as int;
    let maj = decimal(v.version_major as nat);
    lemma_decimal(v.version_major as nat);
    assert forall|k: int| 0 <= k < n implies s[d + k] == t[k] by {
        assert(s.subrange(d, d + n)[k] == s[d + k]);
    }
    let m = maj.len() as int;
    assert forall|k: int| 0 <= k < m implies #[trigger] s[d + k] == maj[k] by {
        assert(t[k] == maj[k]);
        assert(s[d + k] == t[k]);
    }
    assert(s[d + 0] == maj[0]);
    assert(d + 0 == d);
    match v.version_minor {
        Some(mn) => {
            let mi = decimal(mn as nat);
            lemma_decimal(mn as nat);
            assert(t =~= maj.push('.') + mi);
            assert(n == m + 1 + mi.len());
            assert(t[m] == '.');
            assert(s[d + m] == t[m]);
            assert forall|k: int| 0 <= k < mi.len() implies #[trigger] s[d + m + 1 + k] == mi[k] by {
                assert(t[m + 1 + k] == mi[k]);
                assert(s[d + m + 1 + k] == t[m + 1 + k]);
            }
            assert(s[d + m + 1 + 0] == mi[0]);
            assert forall|k: int| d <= k < d + m implies is_digit(#[trigger] s[k]) by {
                assert(s[d + (k - d)] == maj[k - d]);
            }
            lemma_run_end(s, d, d + m);
            assert forall|k: int| d + m + 1 <= k < d + n implies is_digit(#[trigger] s[k]) by {
                assert(s[d + m + 1 + (k - d - m - 1)] == mi[k - d - m - 1]);
            }
            lemma_run_end(s, d + m + 1, d + n);
            assert(s.subrange(d, d + m) =~= maj);
            assert forall|k: int| 0 <= k < mi.len() implies s.subrange(d + m + 1, d + n)[k] == mi[k] by {
                assert(s.subrange(d + m + 1, d + n)[k] == s[d + m + 1 + k]);
            }
            assert(s.subrange(d + m + 1, d + n) =~= mi);
            assert forall|k: int| d <= k < d + n implies is_digit(#[trigger] s[k]) || s[k] == '.' by {
                if k < d + m {
                } else if k == d + m {
                } else {
                }
            }
        },
        None => {
            assert(n == m);
            assert forall|k: int| d <= k < d + m implies is_digit(#[trigger] s[k]) by {
                assert(s[d + (k - d)] == maj[k - d]);
            }
            lemma_run_end(s, d, d + m);
            assert(s.subrange(d, d + m) =~= maj);
        },
    }
}

} // verus!
