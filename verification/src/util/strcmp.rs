//! Comparing strings without regard to ASCII case.

use vstd::prelude::*;
use vstd::string::is_ascii_spec_bytes;
use vstd::utf8::is_ascii_chars;

verus! {

/// The code point of a character, with ASCII upper case letters taken to lower case.
pub open spec fn ascii_lower(c: char) -> u32 {
    if 65 <= c as u32 <= 90 {
        (c as u32 + 32) as u32
    } else {
        c as u32
    }
}

/// Whether two strings are equal when ASCII case is ignored.
pub open spec fn ascii_eq_ignore_case(a: Seq<char>, b: Seq<char>) -> bool {
    a.len() == b.len() && forall|i: int| 0 <= i < a.len() ==> #[trigger] ascii_lower(a[i]) == ascii_lower(b[i])
}

/// A byte, with ASCII upper case letters taken to lower case.
fn lower_byte(b: u8) -> (r: u8)
    ensures
        r == if 65 <= b <= 90 {
            b + 32
        } else {
            b as int
        },
{
    if 65 <= b && b <= 90 {
        b + 32
    } else {
        b
    }
}

/// Whether two strings are both ASCII and equal when ASCII case is ignored.
pub fn str_eq_ignore_case(one: &str, two: &str) -> (b: bool)
    ensures
        b == (is_ascii_chars(one@) && is_ascii_chars(two@) && ascii_eq_ignore_case(one@, two@)),
{
    broadcast use is_ascii_spec_bytes;

    if !one.is_ascii() {
        return false;
    }
    if !two.is_ascii() {
        return false;
    }
    let a = one.as_bytes();
    let b = two.as_bytes();
    assert(a@.len() == one@.len());
    assert(b@.len() == two@.len());
    if a.len() != b.len() {
        return false;
    }
    let mut i: usize = 0;
    while i < a.len()
        invariant
            i <= a@.len(),
            a@.len() == b@.len(),
            a@.len() == one@.len(),
            b@.len() == two@.len(),
            is_ascii_chars(one@),
            is_ascii_chars(two@),
            a@ == Seq::new(one@.len(), |j: int| one@[j] as u8),
            b@ == Seq::new(two@.len(), |j: int| two@[j] as u8),
            forall|j: int| 0 <= j < i ==> #[trigger] ascii_lower(one@[j]) == ascii_lower(two@[j]),
        decreases a@.len() - i,
    {
        assert(one@[i as int] as u32 <= 127 && two@[i as int] as u32 <= 127);
        assert(a@[i as int] as u32 == one@[i as int] as u32);
        assert(b@[i as int] as u32 == two@[i as int] as u32);
        if lower_byte(a[i]) != lower_byte(b[i]) {
            assert(ascii_lower(one@[i as int]) != ascii_lower(two@[i as int]));
            return false;
        }
        i = i + 1;
    }
    true
}

} // verus!
