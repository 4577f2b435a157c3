//! Reading back what was written: a header section written by
//! `write_http_headers`, followed by the empty line that ends it, is read
//! back by `read_http_headers` as the same headers.

use crate::util::header::{
    header_line, headers_bytes, headers_map, headers_readable, insert_lines, keys_distinct,
    lemma_map_push, has_key, lines_hold_headers, lower_str, read_headers, split_crlf,
    split_crlf_from,
};
use crate::util::readuntilstr::{ends_with_at, read_until, stop_index};
use crate::util::text::{find_char, is_white_space, skip_char, skip_white_space};
use vstd::prelude::*;
use vstd::utf8::*;

verus! {

/// Whether `s` holds neither a carriage return nor a line feed.
pub open spec fn no_line_break(s: Seq<char>) -> bool {
    forall|k: int| 0 <= k < s.len() ==> #[trigger] s[k] != '\r' && s[k] != '\n'
}

/// Whether a header with field name `name` and value `value` is read back
/// as written: the name is not empty, in lower case, and holds no colon; the
/// value does not begin with white space; neither breaks the line.
pub open spec fn header_writable(name: Seq<char>, value: Seq<char>) -> bool {
    &&& name.len() > 0
    &&& lower_str(name) == name
    &&& forall|k: int| 0 <= k < name.len() ==> #[trigger] name[k] != ':'
    &&& no_line_break(name)
    &&& no_line_break(value)
    &&& (value.len() > 0 ==> !is_white_space(value[0]))
}

/// The UTF-8 encoding of a concatenation is the concatenation of the encodings.
proof fn lemma_encode_concat(a: Seq<char>, b: Seq<char>)
    ensures
        encode_utf8(a + b) == encode_utf8(a) + encode_utf8(b),
    decreases a.len(),
{
    if a.len() == 0 {
        assert(a + b =~= b);
    } else {
        assert((a + b).drop_first() =~= a.drop_first() + b);
        assert((a + b)[0] == a[0]);
        lemma_encode_concat(a.drop_first(), b);
    }
}

/// A byte of the encoding of a character is a carriage return or a line
/// feed only when the character is.
proof fn lemma_scalar_bytes(c: char)
    ensures
        forall|j: int|
            0 <= j < encode_scalar(c as u32).len() ==> (#[trigger] encode_scalar(c as u32)[j] == 13u8
                ==> c == '\r') && (encode_scalar(c as u32)[j] == 10u8 ==> c == '\n'),
{
    let s = c as u32;
    if has_width_1_encoding(s) {
        assert(leading_byte_width_1(s) == s) by (bit_vector)
            requires
                s <= 0x7f,
        ;
        assert(leading_byte_width_1(s) == 13u8 ==> s == 13u32);
        assert(leading_byte_width_1(s) == 10u8 ==> s == 10u32);
        assert(s == 13u32 ==> c == '\r');
        assert(s == 10u32 ==> c == '\n');
    } else {
        let b1 = leading_byte_width_2(s);
        let b2 = leading_byte_width_3(s);
        let b3 = leading_byte_width_4(s);
        let l1 = last_continuation_byte(s);
        let l2 = second_last_continuation_byte(s);
        let l3 = third_last_continuation_byte(s);
        assert(b1 >= 0x80 && b2 >= 0x80 && b3 >= 0x80 && l1 >= 0x80 && l2 >= 0x80 && l3 >= 0x80)
            by (bit_vector)
            requires
                b1 == leading_byte_width_2(s),
                b2 == leading_byte_width_3(s),
                b3 == leading_byte_width_4(s),
                l1 == last_continuation_byte(s),
                l2 == second_last_continuation_byte(s),
                l3 == third_last_continuation_byte(s),
        ;
    }
}

/// Text that breaks no line encodes to bytes holding neither 13 nor 10.
pub(crate) proof fn lemma_encode_no_line_break(x: Seq<char>)
    requires
        no_line_break(x),
    ensures
        forall|j: int| 0 <= j < encode_utf8(x).len() ==> #[trigger] encode_utf8(x)[j] != 13u8
            && encode_utf8(x)[j] != 10u8,
    decreases x.len(),
{
    if x.len() > 0 {
        lemma_scalar_bytes(x[0]);
        assert(x[0] != '\r' && x[0] != '\n');
        let first = encode_scalar(x[0] as u32);
        assert(no_line_break(x.drop_first())) by {
            assert forall|k: int| 0 <= k < x.drop_first().len() implies #[trigger] x.drop_first()[k]
                != '\r' && x.drop_first()[k] != '\n' by {
                assert(x.drop_first()[k] == x[k + 1]);
            }
        }
        lemma_encode_no_line_break(x.drop_first());
        let rest = encode_utf8(x.drop_first());
        assert(encode_utf8(x) == first + rest);
        assert forall|j: int| 0 <= j < encode_utf8(x).len() implies #[trigger] encode_utf8(x)[j]
            != 13u8 && encode_utf8(x)[j] != 10u8 by {
            if j < first.len() {
                assert(encode_utf8(x)[j] == first[j]);
            } else {
                assert(encode_utf8(x)[j] == rest[j - first.len()]);
            }
        }
    }
}

/// The encoding of text that is not empty is not empty.
proof fn lemma_encode_nonempty(x: Seq<char>)
    requires
        x.len() > 0,
    ensures
        encode_utf8(x).len() > 0,
{
    assert(encode_scalar(x[0] as u32).len() > 0);
}

/// Where the first place at which the bytes end with `stop` is `p`, the
/// search from the start finds `p`.
pub(crate) proof fn lemma_stop_index_first(s: Seq<u8>, stop: Seq<u8>, p: int, j: int)
    requires
        1 <= j <= p,
        ends_with_at(s, stop, p),
        forall|q: int| 1 <= q < p ==> !#[trigger] ends_with_at(s, stop, q),
    ensures
        stop_index(s, stop, j) == Some(p),
    decreases p - j,
{
    if j < p {
        assert(!ends_with_at(s, stop, j));
        lemma_stop_index_first(s, stop, p, j + 1);
    }
}

/// A header line as written: the field name, a colon, a space and the value.
pub open spec fn line_of(h: (Seq<char>, Seq<char>)) -> Seq<char> {
    h.0 + seq![':', ' '] + h.1
}

/// The text of the header lines of `e`, joined by CR LF.
pub open spec fn lines_text(e: Seq<(Seq<char>, Seq<char>)>) -> Seq<char>
    decreases e.len(),
{
    if e.len() == 0 {
        Seq::empty()
    } else if e.len() == 1 {
        line_of(e[0])
    } else {
        lines_text(e.drop_last()) + seq!['\r', '\n'] + line_of(e.last())
    }
}

/// The bytes of the literals a header section is written with.
pub(crate) proof fn lemma_literal_bytes()
    ensures
        encode_utf8(": "@) == seq![58u8, 32u8],
        encode_utf8("\r\n"@) == seq![13u8, 10u8],
        encode_utf8("\r\n\r\n"@) == seq![13u8, 10u8, 13u8, 10u8],
        encode_utf8(seq![':', ' ']) == seq![58u8, 32u8],
        encode_utf8(seq!['\r', '\n']) == seq![13u8, 10u8],
{
    reveal_strlit(": ");
    reveal_strlit("\r\n");
    reveal_strlit("\r\n\r\n");
    assert(": "@ =~= seq![':', ' ']);
    assert("\r\n"@ =~= seq!['\r', '\n']);
    assert("\r\n\r\n"@ =~= seq!['\r', '\n', '\r', '\n']);
    let a = seq![':', ' '];
    let b = seq!['\r', '\n'];
    let c = seq!['\r', '\n', '\r', '\n'];
    assert(is_ascii_chars(a));
    assert(is_ascii_chars(b));
    assert(is_ascii_chars(c));
    is_ascii_chars_encode_utf8(a);
    is_ascii_chars_encode_utf8(b);
    is_ascii_chars_encode_utf8(c);
    assert(encode_utf8(a) =~= seq![58u8, 32u8]);
    assert(encode_utf8(b) =~= seq![13u8, 10u8]);
    assert(encode_utf8(c) =~= seq![13u8, 10u8, 13u8, 10u8]);
}

/// Whether every entry of `e` is written so as to be read back.
pub open spec fn entries_writable(e: Seq<(Seq<char>, Seq<char>)>) -> bool {
    forall|i: int| 0 <= i < e.len() ==> #[trigger] header_writable(e[i].0, e[i].1)
}

/// The bytes of the last header line of `e`.
spec fn last_line_bytes(e: Seq<(Seq<char>, Seq<char>)>) -> Seq<u8> {
    encode_utf8(e.last().0) + encode_utf8(": "@) + encode_utf8(e.last().1) + encode_utf8("\r\n"@)
}

/// The header section of entries that are not empty is the encoding of
/// their lines, joined by CR LF, followed by CR LF.
proof fn lemma_headers_bytes_text(e: Seq<(Seq<char>, Seq<char>)>)
    requires
        e.len() > 0,
    ensures
        headers_bytes(e) == encode_utf8(lines_text(e)) + seq![13u8, 10u8],
    decreases e.len(),
{
    lemma_literal_bytes();
    let h = e.last();
    lemma_encode_concat(h.0, seq![':', ' ']);
    lemma_encode_concat(h.0 + seq![':', ' '], h.1);
    assert(encode_utf8(line_of(h)) == encode_utf8(h.0) + seq![58u8, 32u8] + encode_utf8(h.1));
    assert(headers_bytes(e) == headers_bytes(e.drop_last()) + last_line_bytes(e));
    if e.len() == 1 {
        assert(e.drop_last().len() == 0);
        assert(headers_bytes(e.drop_last()) == Seq::<u8>::empty());
        assert(h == e[0]);
        assert(headers_bytes(e) =~= encode_utf8(lines_text(e)) + seq![13u8, 10u8]);
    } else {
        lemma_headers_bytes_text(e.drop_last());
        let t = lines_text(e.drop_last());
        lemma_encode_concat(t, seq!['\r', '\n']);
        lemma_encode_concat(t + seq!['\r', '\n'], line_of(h));
        assert(headers_bytes(e) =~= encode_utf8(lines_text(e)) + seq![13u8, 10u8]);
    }
}

/// In the header section of writable entries, a line feed is never
/// followed by a carriage return.
proof fn lemma_no_lf_cr(e: Seq<(Seq<char>, Seq<char>)>)
    requires
        entries_writable(e),
    ensures
        forall|i: int|
            0 <= i && i + 1 < headers_bytes(e).len() ==> !(#[trigger] headers_bytes(e)[i] == 10u8
                && headers_bytes(e)[i + 1] == 13u8),
    decreases e.len(),
{
    if e.len() > 0 {
        lemma_literal_bytes();
        let ep = e.drop_last();
        assert(entries_writable(ep)) by {
            assert forall|i: int| 0 <= i < ep.len() implies #[trigger] header_writable(ep[i].0, ep[i].1) by {
                assert(ep[i] == e[i]);
                assert(header_writable(e[i].0, e[i].1));
            }
        }
        lemma_no_lf_cr(ep);
        let h = e.last();
        assert(header_writable(e[e.len() - 1].0, e[e.len() - 1].1));
        lemma_encode_no_line_break(h.0);
        lemma_encode_no_line_break(h.1);
        lemma_encode_nonempty(h.0);
        let p = headers_bytes(ep);
        let n = encode_utf8(h.0);
        let v = encode_utf8(h.1);
        let q = n + seq![58u8, 32u8] + v + seq![13u8, 10u8];
        assert(last_line_bytes(e) == q);
        assert(headers_bytes(e) == p + q);
        assert(q[0] == n[0]);
        assert forall|j: int| 0 <= j < q.len() - 1 implies #[trigger] q[j] != 10u8 by {
            if j < n.len() {
                assert(q[j] == n[j]);
            } else if j < n.len() + 2 {
            } else if j < n.len() + 2 + v.len() {
                assert(q[j] == v[j - n.len() - 2]);
            } else {
                assert(j == q.len() - 2);
            }
        }
        let b = headers_bytes(e);
        assert forall|i: int| 0 <= i && i + 1 < b.len() implies !(#[trigger] b[i] == 10u8 && b[i
            + 1] == 13u8) by {
            if i + 1 < p.len() {
                assert(b[i] == p[i] && b[i + 1] == p[i + 1]);
            } else if i + 1 == p.len() {
                assert(b[i + 1] == q[0]);
            } else {
                assert(b[i] == q[i - p.len()]);
            }
        }
    }
}

/// Reading up to the empty line after the header section of writable
/// entries that are not empty gives the text of their lines and leaves what
/// follows.
proof fn lemma_read_section(e: Seq<(Seq<char>, Seq<char>)>, tail: Seq<u8>)
    requires
        e.len() > 0,
        entries_writable(e),
    ensures
        read_until(headers_bytes(e) + encode_utf8("\r\n"@) + tail, "\r\n\r\n"@, false) == (
            Ok::<Seq<char>, crate::result::WebSocketError>(lines_text(e)),
            tail,
        ),
{
    lemma_literal_bytes();
    lemma_headers_bytes_text(e);
    lemma_no_lf_cr(e);
    let hb = headers_bytes(e);
    let b = hb + encode_utf8("\r\n"@) + tail;
    let stop = encode_utf8("\r\n\r\n"@);
    let p: int = hb.len() as int + 2;
    let t = encode_utf8(lines_text(e));
    assert(hb.len() == t.len() + 2);
    assert(hb[hb.len() - 2] == 13u8 && hb[hb.len() - 1] == 10u8);
    assert(b.subrange(p - 4, p) =~= stop);
    assert(ends_with_at(b, stop, p));
    assert forall|q: int| 1 <= q < p implies !#[trigger] ends_with_at(b, stop, q) by {
        if ends_with_at(b, stop, q) {
            assert(b.subrange(q - 4, q)[1] == b[q - 3]);
            assert(b.subrange(q - 4, q)[2] == b[q - 2]);
            assert(b[q - 3] == 10u8 && b[q - 2] == 13u8);
            assert(q - 2 < hb.len());
            assert(b[q - 3] == hb[q - 3] && b[q - 2] == hb[q - 2]);
        }
    }
    lemma_stop_index_first(b, stop, p, 1);
    assert(b.subrange(0, p - 4) =~= t);
    encode_utf8_valid_utf8(lines_text(e));
    encode_utf8_decode_utf8(lines_text(e));
    assert(b.skip(p) =~= tail);
}

/// Splitting at CR LF from `i` on, where no carriage return follows, gives
/// the rest of the current line.
proof fn lemma_split_no_cr(s: Seq<char>, start: int, i: int)
    requires
        0 <= start <= i,
        forall|j: int| i <= j < s.len() ==> #[trigger] s[j] != '\r',
    ensures
        split_crlf_from(s, start, i) == seq![s.subrange(start, s.len() as int)],
    decreases s.len() - i,
{
    if i + 1 < s.len() {
        lemma_split_no_cr(s, start, i + 1);
    }
}

/// Splitting `a`, CR LF and a line `l` with no carriage return gives the
/// lines of `a` and then `l`.
proof fn lemma_split_append(a: Seq<char>, l: Seq<char>, start: int, i: int)
    requires
        0 <= start <= i <= a.len(),
        forall|j: int| 0 <= j < l.len() ==> #[trigger] l[j] != '\r',
    ensures
        split_crlf_from(a + seq!['\r', '\n'] + l, start, i) == split_crlf_from(a, start, i) + seq![l],
    decreases a.len() - i,
{
    let s = a + seq!['\r', '\n'] + l;
    let n = a.len() as int;
    assert(s[n] == '\r' && s[n + 1] == '\n');
    assert forall|j: int| n + 2 <= j < s.len() implies #[trigger] s[j] != '\r' by {
        assert(s[j] == l[j - n - 2]);
    }
    lemma_split_no_cr(s, n + 2, n + 2);
    assert(s.subrange(n + 2, s.len() as int) =~= l);
    if i + 1 >= n {
        assert(split_crlf_from(s, start, n) == seq![s.subrange(start, n)] + split_crlf_from(
            s,
            n + 2,
            n + 2,
        ));
        if i + 1 == n {
            assert(s[i] == a[i]);
            assert(s[i + 1] == '\r');
            assert(split_crlf_from(s, start, i) == split_crlf_from(s, start, n));
        }
        assert(s.subrange(start, n) =~= a.subrange(start, n));
        assert(split_crlf_from(a, start, i) == seq![a.subrange(start, n)]);
        assert(split_crlf_from(s, start, i) =~= split_crlf_from(a, start, i) + seq![l]);
    } else {
        assert(s[i] == a[i] && s[i + 1] == a[i + 1]);
        if a[i] == '\r' && a[i + 1] == '\n' {
            assert(s.subrange(start, i) =~= a.subrange(start, i));
            lemma_split_append(a, l, i + 2, i + 2);
            assert(split_crlf_from(s, start, i) =~= split_crlf_from(a, start, i) + seq![l]);
        } else {
            lemma_split_append(a, l, start, i + 1);
        }
    }
}

/// A written header line holds no carriage return.
proof fn lemma_line_no_cr(h: (Seq<char>, Seq<char>))
    requires
        header_writable(h.0, h.1),
    ensures
        forall|j: int| 0 <= j < line_of(h).len() ==> #[trigger] line_of(h)[j] != '\r',
{
    let l = line_of(h);
    assert forall|j: int| 0 <= j < l.len() implies #[trigger] l[j] != '\r' by {
        if j < h.0.len() {
            assert(l[j] == h.0[j]);
        } else if j < h.0.len() + 2 {
        } else {
            assert(l[j] == h.1[j - h.0.len() - 2]);
        }
    }
}

/// The text of writable lines splits at CR LF into the lines.
proof fn lemma_split_lines_text(e: Seq<(Seq<char>, Seq<char>)>)
    requires
        e.len() > 0,
        entries_writable(e),
    ensures
        split_crlf(lines_text(e)) == e.map_values(|h: (Seq<char>, Seq<char>)| line_of(h)),
    decreases e.len(),
{
    let h = e.last();
    assert(header_writable(e[e.len() - 1].0, e[e.len() - 1].1));
    lemma_line_no_cr(h);
    if e.len() == 1 {
        lemma_split_no_cr(line_of(e[0]), 0, 0);
        assert(line_of(e[0]).subrange(0, line_of(e[0]).len() as int) =~= line_of(e[0]));
        assert(e.map_values(|h: (Seq<char>, Seq<char>)| line_of(h)) =~= seq![line_of(e[0])]);
    } else {
        let ep = e.drop_last();
        assert(entries_writable(ep)) by {
            assert forall|i: int| 0 <= i < ep.len() implies #[trigger] header_writable(ep[i].0, ep[i].1) by {
                assert(ep[i] == e[i]);
                assert(header_writable(e[i].0, e[i].1));
            }
        }
        lemma_split_lines_text(ep);
        lemma_split_append(lines_text(ep), line_of(h), 0, 0);
        assert(e.map_values(|h: (Seq<char>, Seq<char>)| line_of(h)) =~= ep.map_values(
            |h: (Seq<char>, Seq<char>)| line_of(h),
        ) + seq![line_of(h)]);
    }
}

/// The first place at or after `i` where `cs` holds `c` is `j`, where it
/// does hold `c` and nothing before it does.
pub(crate) proof fn lemma_find_char_at(cs: Seq<char>, c: char, i: int, j: int)
    requires
        0 <= i <= j < cs.len(),
        cs[j] == c,
        forall|k: int| i <= k < j ==> #[trigger] cs[k] != c,
    ensures
        find_char(cs, c, i) == j,
    decreases j - i,
{
    if i < j {
        lemma_find_char_at(cs, c, i + 1, j);
    }
}

/// Where `cs` does not hold `c` at or after `i`, it is not found.
pub(crate) proof fn lemma_find_char_none(cs: Seq<char>, c: char, i: int)
    requires
        0 <= i,
        forall|k: int| i <= k < cs.len() ==> #[trigger] cs[k] != c,
    ensures
        find_char(cs, c, i) == cs.len(),
    decreases cs.len() - i,
{
    if i < cs.len() {
        lemma_find_char_none(cs, c, i + 1);
    }
}

/// A written header line holds the header it was written from.
proof fn lemma_header_line_of(h: (Seq<char>, Seq<char>))
    requires
        header_writable(h.0, h.1),
    ensures
        header_line(line_of(h)) == Some(h),
{
    let l = line_of(h);
    let n = h.0.len() as int;
    assert(l[0] == h.0[0]);
    assert(skip_char(l, ':', 0) == 0);
    assert(l[n] == ':');
    assert forall|k: int| 0 <= k < n implies #[trigger] l[k] != ':' by {
        assert(l[k] == h.0[k]);
    }
    lemma_find_char_at(l, ':', 0, n);
    assert(l[n + 1] == ' ');
    assert(is_white_space(' '));
    if h.1.len() > 0 {
        assert(l[n + 2] == h.1[0]);
        assert(skip_white_space(l, n + 2) == n + 2);
    } else {
        assert(skip_white_space(l, n + 2) == l.len());
    }
    assert(skip_white_space(l, n + 1) == n + 2);
    assert forall|k: int| n + 2 <= k < l.len() implies #[trigger] l[k] != '\n' by {
        assert(l[k] == h.1[k - n - 2]);
    }
    lemma_find_char_none(l, '\n', n + 2);
    assert(l.subrange(0, n) =~= h.0);
    assert(l.subrange(n + 2, l.len() as int) =~= h.1);
}

/// Inserting the headers of written lines, in order, into no headers gives
/// the headers they were written from.
proof fn lemma_insert_written_lines(e: Seq<(Seq<char>, Seq<char>)>)
    requires
        entries_writable(e),
        keys_distinct(e),
    ensures
        insert_lines(Map::empty(), e.map_values(|h: (Seq<char>, Seq<char>)| line_of(h)))
            == headers_map(e),
        lines_hold_headers(e.map_values(|h: (Seq<char>, Seq<char>)| line_of(h))),
    decreases e.len(),
{
    let lines = e.map_values(|h: (Seq<char>, Seq<char>)| line_of(h));
    assert forall|i: int| 0 <= i < lines.len() implies (#[trigger] header_line(lines[i])) is Some by {
        assert(header_writable(e[i].0, e[i].1));
        lemma_header_line_of(e[i]);
    }
    if e.len() == 0 {
        assert(headers_map(e) =~= Map::<Seq<char>, Seq<char>>::empty());
    } else {
        let ep = e.drop_last();
        let h = e.last();
        assert(entries_writable(ep)) by {
            assert forall|i: int| 0 <= i < ep.len() implies #[trigger] header_writable(ep[i].0, ep[i].1) by {
                assert(ep[i] == e[i]);
                assert(header_writable(e[i].0, e[i].1));
            }
        }
        assert(keys_distinct(ep)) by {
            assert forall|i: int, j: int|
                0 <= i < ep.len() && 0 <= j < ep.len() && i != j implies #[trigger] ep[i].0
                != #[trigger] ep[j].0 by {
                assert(ep[i] == e[i] && ep[j] == e[j]);
            }
        }
        lemma_insert_written_lines(ep);
        assert(lines.drop_last() =~= ep.map_values(|h: (Seq<char>, Seq<char>)| line_of(h)));
        assert(lines.last() == line_of(h));
        assert(header_writable(e[e.len() - 1].0, e[e.len() - 1].1));
        lemma_header_line_of(h);
        assert(!has_key(ep, h.0)) by {
            if has_key(ep, h.0) {
                let k = choose|k: int| 0 <= k < ep.len() && #[trigger] ep[k].0 == h.0;
                assert(e[k].0 == e[e.len() - 1].0);
            }
        }
        lemma_map_push(ep, h.0, h.1);
        assert(ep.push((h.0, h.1)) =~= e);
        assert(!headers_map(ep).contains_key(h.0));
    }
}

/// Headers written as a section, with the empty line that ends it, are read
/// back as the same headers, and the bytes that follow are left unread: for
/// headers that are not empty, with distinct field names, each written so as
/// to be read back.
pub proof fn lemma_headers_roundtrip(e: Seq<(Seq<char>, Seq<char>)>, tail: Seq<u8>)
    requires
        e.len() > 0,
        keys_distinct(e),
        entries_writable(e),
    ensures
        headers_readable(headers_bytes(e) + encode_utf8("\r\n"@) + tail),
        read_headers(headers_bytes(e) + encode_utf8("\r\n"@) + tail) == (
            Ok::<Map<Seq<char>, Seq<char>>, crate::result::WebSocketError>(headers_map(e)),
            tail,
        ),
{
    lemma_read_section(e, tail);
    lemma_split_lines_text(e);
    lemma_insert_written_lines(e);
}

/// Reading up to CR LF from a line that breaks no line, CR LF and more
/// bytes gives the line and leaves the bytes that follow.
pub(crate) proof fn lemma_read_line(l: Seq<char>, rest: Seq<u8>)
    requires
        no_line_break(l),
    ensures
        read_until(encode_utf8(l) + encode_utf8("\r\n"@) + rest, "\r\n"@, false) == (
            Ok::<Seq<char>, crate::result::WebSocketError>(l),
            rest,
        ),
{
    lemma_literal_bytes();
    lemma_encode_no_line_break(l);
    let t = encode_utf8(l);
    let b = t + encode_utf8("\r\n"@) + rest;
    let stop = encode_utf8("\r\n"@);
    let p: int = t.len() as int + 2;
    assert(b.subrange(p - 2, p) =~= stop);
    assert forall|q: int| 1 <= q < p implies !#[trigger] ends_with_at(b, stop, q) by {
        if ends_with_at(b, stop, q) {
            assert(b.subrange(q - 2, q)[0] == b[q - 2]);
            assert(b[q - 2] == t[q - 2]);
        }
    }
    lemma_stop_index_first(b, stop, p, 1);
    assert(b.subrange(0, p - 2) =~= t);
    encode_utf8_valid_utf8(l);
    encode_utf8_decode_utf8(l);
    assert(b.skip(p) =~= rest);
}

} // verus!
