//! A collection of HTTP headers, with case-insensitive field names.

use crate::result::{WebSocketError, WebSocketResult};
use crate::util::readuntilstr::{read_until, ReadUntilStr};
use crate::util::text::{
    chars_of, find_char, find_char_from, skip_char, skip_char_from, skip_white_space,
    skip_white_space_from, string_of,
};
use crate::ws::util::buffer::extend_bytes;
use vstd::prelude::*;
use vstd::string::StringExecFns;
use vstd::utf8::encode_utf8;

verus! {

/// A character, with ASCII upper case letters taken to lower case.
pub open spec fn lower_char(c: char) -> char {
    if 'A' <= c <= 'Z' {
        ((c as u32) + 32) as char
    } else {
        c
    }
}

/// A string with ASCII upper case letters taken to lower case.
pub open spec fn lower_str(s: Seq<char>) -> Seq<char> {
    s.map_values(|c: char| lower_char(c))
}

/// `str::to_ascii_lowercase`, which the documentation says maps the ASCII
/// letters `A` to `Z` to `a` to `z` and leaves every other character as it is.
#[verifier::external_body]
pub(crate) fn to_ascii_lowercase(s: &str) -> (r: String)
    ensures
        r@ == lower_str(s@),
{
    s.to_ascii_lowercase()
}

/// Whether no two entries have the same field name.
pub open spec fn keys_distinct(s: Seq<(Seq<char>, Seq<char>)>) -> bool {
    forall|i: int, j: int| 0 <= i < s.len() && 0 <= j < s.len() && i != j ==> #[trigger] s[i].0 != #[trigger] s[j].0
}

/// Whether every field name of the entries is in lower case.
pub open spec fn keys_lower(s: Seq<(Seq<char>, Seq<char>)>) -> bool {
    forall|i: int| 0 <= i < s.len() ==> lower_str(#[trigger] s[i].0) == s[i].0
}

/// Lowering the case of a string twice is lowering it once.
proof fn lemma_lower_idempotent(s: Seq<char>)
    ensures
        lower_str(lower_str(s)) == lower_str(s),
{
    assert(lower_str(lower_str(s)) =~= lower_str(s));
}

/// Whether some entry has the field name `k`.
pub open spec fn has_key(s: Seq<(Seq<char>, Seq<char>)>, k: Seq<char>) -> bool {
    exists|i: int| 0 <= i < s.len() && #[trigger] s[i].0 == k
}

/// The index of the entry with field name `k`.
pub open spec fn key_index(s: Seq<(Seq<char>, Seq<char>)>, k: Seq<char>) -> int {
    choose|i: int| 0 <= i < s.len() && #[trigger] s[i].0 == k
}

/// The map from field names to values that the entries `s` hold.
pub open spec fn headers_map(s: Seq<(Seq<char>, Seq<char>)>) -> Map<Seq<char>, Seq<char>> {
    Map::new(|k: Seq<char>| has_key(s, k), |k: Seq<char>| s[key_index(s, k)].1)
}

/// The value that inserting `value` under `key` leaves: appended after `, `
/// to the value already there, if any.
pub open spec fn inserted_value(m: Map<Seq<char>, Seq<char>>, key: Seq<char>, value: Seq<char>) -> Seq<char> {
    if m.contains_key(key) {
        m[key] + seq![',', ' '] + value
    } else {
        value
    }
}

/// The entries after inserting `value` under the field name `key`: appended
/// after `, ` to the value of the entry with that name, if any, else added
/// as a last entry.
pub open spec fn inserted_entries(s: Seq<(Seq<char>, Seq<char>)>, key: Seq<char>, value: Seq<char>) -> Seq<
    (Seq<char>, Seq<char>),
> {
    if has_key(s, key) {
        let i = key_index(s, key);
        s.update(i, (key, s[i].1 + seq![',', ' '] + value))
    } else {
        s.push((key, value))
    }
}

/// The entries without the entry with field name `key`, if any.
pub open spec fn removed_entries(s: Seq<(Seq<char>, Seq<char>)>, key: Seq<char>) -> Seq<
    (Seq<char>, Seq<char>),
> {
    if has_key(s, key) {
        s.remove(key_index(s, key))
    } else {
        s
    }
}

/// Iterating entries with distinct field names yields each field of their
/// map once: the fields iterated are exactly those of the map, each with the
/// value the map holds for it, and there are as many entries as fields.
pub proof fn lemma_entries_iterate_map(s: Seq<(Seq<char>, Seq<char>)>)
    requires
        keys_distinct(s),
    ensures
        forall|i: int| 0 <= i < s.len() ==> #[trigger] headers_map(s).contains_key(s[i].0)
            && headers_map(s)[s[i].0] == s[i].1,
        forall|k: Seq<char>| #[trigger] headers_map(s).contains_key(k) ==> exists|i: int|
            0 <= i < s.len() && #[trigger] s[i].0 == k,
        headers_map(s).dom().len() == s.len(),
{
    assert forall|i: int| 0 <= i < s.len() implies #[trigger] headers_map(s).contains_key(s[i].0)
        && headers_map(s)[s[i].0] == s[i].1 by {
        lemma_map_entry(s, i);
    }
    let names = s.map_values(|e: (Seq<char>, Seq<char>)| e.0);
    assert(names.no_duplicates()) by {
        assert forall|i: int, j: int| 0 <= i < names.len() && 0 <= j < names.len() && i != j implies names[i]
            != names[j] by {
            assert(names[i] == s[i].0 && names[j] == s[j].0);
        }
    }
    names.unique_seq_to_set();
    assert forall|k: Seq<char>| headers_map(s).dom().contains(k) <==> names.to_set().contains(k) by {
        if headers_map(s).dom().contains(k) {
            let i = key_index(s, k);
            assert(names[i] == k);
        }
        if names.to_set().contains(k) {
            let i = choose|i: int| 0 <= i < names.len() && names[i] == k;
            assert(s[i].0 == k);
        }
    }
    assert(headers_map(s).dom() =~= names.to_set());
}

/// Represents a collection of HTTP headers
#[derive(Debug)]
pub struct HeaderCollection {
    entries: Vec<(String, String)>,
}

/// The field names and values of `entries`.
pub open spec fn entries_view(entries: Seq<(String, String)>) -> Seq<(Seq<char>, Seq<char>)> {
    entries.map_values(|e: (String, String)| (e.0@, e.1@))
}

impl View for HeaderCollection {
    type V = Map<Seq<char>, Seq<char>>;

    open spec fn view(&self) -> Map<Seq<char>, Seq<char>> {
        headers_map(self.entries())
    }
}

/// With distinct field names, the map holds each entry's value under its name.
proof fn lemma_map_entry(s: Seq<(Seq<char>, Seq<char>)>, i: int)
    requires
        keys_distinct(s),
        0 <= i < s.len(),
    ensures
        headers_map(s).contains_key(s[i].0),
        headers_map(s)[s[i].0] == s[i].1,
        key_index(s, s[i].0) == i,
{
    assert(has_key(s, s[i].0));
}

/// Changing the value of entry `i` changes the map at its name only.
proof fn lemma_map_update(s: Seq<(Seq<char>, Seq<char>)>, i: int, v: Seq<char>)
    requires
        keys_distinct(s),
        0 <= i < s.len(),
    ensures
        keys_distinct(s.update(i, (s[i].0, v))),
        headers_map(s.update(i, (s[i].0, v))) =~= headers_map(s).insert(s[i].0, v),
{
    let t = s.update(i, (s[i].0, v));
    assert(forall|j: int| 0 <= j < s.len() ==> #[trigger] t[j].0 == s[j].0);
    assert forall|k: Seq<char>| has_key(t, k) == has_key(s, k) by {
        if has_key(s, k) {
            let j = key_index(s, k);
            assert(t[j].0 == k);
        }
        if has_key(t, k) {
            let j = key_index(t, k);
            assert(s[j].0 == k);
        }
    }
    assert forall|k: Seq<char>| #[trigger] headers_map(t).contains_key(k) implies headers_map(t)[k]
        == headers_map(s).insert(s[i].0, v)[k] by {
        let j = key_index(t, k);
        lemma_map_entry(t, j);
        if j != i {
            lemma_map_entry(s, j);
        }
    }
}

/// Adding an entry with a new name adds it to the map.
pub(crate) proof fn lemma_map_push(s: Seq<(Seq<char>, Seq<char>)>, k: Seq<char>, v: Seq<char>)
    requires
        keys_distinct(s),
        !has_key(s, k),
    ensures
        keys_distinct(s.push((k, v))),
        headers_map(s.push((k, v))) =~= headers_map(s).insert(k, v),
{
    let t = s.push((k, v));
    assert(forall|j: int| 0 <= j < s.len() ==> #[trigger] t[j] == s[j]);
    assert forall|a: int, b: int| 0 <= a < t.len() && 0 <= b < t.len() && a != b implies #[trigger] t[a].0
        != #[trigger] t[b].0 by {
        if a == s.len() as int {
            assert(s[b].0 != k);
        } else if b == s.len() as int {
            assert(s[a].0 != k);
        }
    }
    assert forall|x: Seq<char>| has_key(t, x) == (has_key(s, x) || x == k) by {
        if has_key(s, x) {
            let j = key_index(s, x);
            assert(t[j].0 == x);
        }
        if x == k {
            assert(t[s.len() as int].0 == x);
        }
        if has_key(t, x) && x != k {
            let j = key_index(t, x);
            assert(s[j].0 == x);
        }
    }
    assert forall|x: Seq<char>| #[trigger] headers_map(t).contains_key(x) implies headers_map(t)[x]
        == headers_map(s).insert(k, v)[x] by {
        let j = key_index(t, x);
        lemma_map_entry(t, j);
        if j < s.len() {
            lemma_map_entry(s, j);
        }
    }
}

/// Removing entry `i` removes its name from the map.
proof fn lemma_map_remove(s: Seq<(Seq<char>, Seq<char>)>, i: int)
    requires
        keys_distinct(s),
        0 <= i < s.len(),
    ensures
        keys_distinct(s.remove(i)),
        headers_map(s.remove(i)) =~= headers_map(s).remove(s[i].0),
{
    let t = s.remove(i);
    let k = s[i].0;
    assert(forall|j: int| 0 <= j < t.len() ==> #[trigger] t[j] == if j < i {
        s[j]
    } else {
        s[j + 1]
    });
    assert forall|a: int, b: int| 0 <= a < t.len() && 0 <= b < t.len() && a != b implies #[trigger] t[a].0
        != #[trigger] t[b].0 by {
        let a2 = if a < i {
            a
        } else {
            a + 1
        };
        let b2 = if b < i {
            b
        } else {
            b + 1
        };
        assert(t[a] == s[a2] && t[b] == s[b2]);
    }
    assert forall|x: Seq<char>| has_key(t, x) == (has_key(s, x) && x != k) by {
        if has_key(s, x) && x != k {
            let j = key_index(s, x);
            if j < i {
                assert(t[j].0 == x);
            } else {
                assert(t[j - 1].0 == x);
            }
        }
        if has_key(t, x) {
            let j = key_index(t, x);
            let j2 = if j < i {
                j
            } else {
                j + 1
            };
            assert(s[j2].0 == x);
            assert(j2 != i);
        }
    }
    assert forall|x: Seq<char>| #[trigger] headers_map(t).contains_key(x) implies headers_map(t)[x]
        == headers_map(s).remove(k)[x] by {
        let j = key_index(t, x);
        lemma_map_entry(t, j);
        let j2 = if j < i {
            j
        } else {
            j + 1
        };
        assert(t[j] == s[j2]);
        lemma_map_entry(s, j2);
    }
}

impl HeaderCollection {
    /// The field names and values, in the order they were first inserted.
    pub closed spec fn entries(&self) -> Seq<(Seq<char>, Seq<char>)> {
        entries_view(self.entries@)
    }

    /// Every collection keeps its field names distinct and in lower case.
    #[verifier::type_invariant]
    closed spec fn wf(&self) -> bool {
        &&& keys_distinct(self.entries())
        &&& keys_lower(self.entries())
    }

    /// Creates a new HeaderCollection
    pub fn new() -> (h: HeaderCollection)
        ensures
            h.entries() == Seq::<(Seq<char>, Seq<char>)>::empty(),
            h@ == Map::<Seq<char>, Seq<char>>::empty(),
    {
        let h = HeaderCollection { entries: Vec::new() };
        assert(h.entries() =~= Seq::<(Seq<char>, Seq<char>)>::empty());
        assert(h@ =~= Map::<Seq<char>, Seq<char>>::empty());
        h
    }

    /// The index of the entry with field name `key`, if any.
    fn find(&self, key: &String) -> (r: Option<usize>)
        ensures
            match r {
                Some(i) => i < self.entries().len() && self.entries()[i as int].0 == key@,
                None => !has_key(self.entries(), key@),
            },
    {
        let mut i: usize = 0;
        while i < self.entries.len()
            invariant
                i <= self.entries@.len(),
                forall|j: int| 0 <= j < i ==> #[trigger] self.entries@[j].0@ != key@,
            decreases self.entries@.len() - i,
        {
            if self.entries[i].0 == *key {
                return Some(i);
            }
            i = i + 1;
        }
        proof {
            assert forall|j: int| 0 <= j < self.entries().len() implies #[trigger] self.entries()[j].0
                != key@ by {
                assert(self.entries()[j].0 == self.entries@[j].0@);
            }
        }
        None
    }

    /// Add the given field-value pair to the collection. If the field is already present,
    /// the value is appended to the header using comma-separation.
    pub fn insert(&mut self, field: &str, value: &str)
        ensures
            final(self).entries() == inserted_entries(old(self).entries(), lower_str(field@), value@),
            final(self)@ == old(self)@.insert(
                lower_str(field@),
                inserted_value(old(self)@, lower_str(field@), value@),
            ),
    {
        proof {
            use_type_invariant(&*self);
        }
        let lowercase = to_ascii_lowercase(field);
        let ghost s = self.entries();
        match self.find(&lowercase) {
            Some(i) => {
                proof {
                    lemma_map_entry(s, i as int);
                    reveal_strlit(", ");
                }
                let mut v = self.entries[i].1.clone();
                v.append(", ");
                v.append(value);
                let k = self.entries[i].0.clone();
                assert(v@ == s[i as int].1 + seq![',', ' '] + value@);
                assert(k@ == s[i as int].0);
                let mut entries: Vec<(String, String)> = Vec::new();
                std::mem::swap(&mut entries, &mut self.entries);
                entries.set(i, (k, v));
                proof {
                    lemma_map_update(s, i as int, s[i as int].1 + seq![',', ' '] + value@);
                    assert(entries_view(entries@) =~= s.update(i as int, (s[i as int].0, s[i as int].1 + seq![',', ' '] + value@)));
                }
                self.entries = entries;
                proof {
                    assert(self.entries() =~= s.update(i as int, (s[i as int].0, s[i as int].1 + seq![',', ' '] + value@)));
                    lemma_map_update(s, i as int, s[i as int].1 + seq![',', ' '] + value@);
                }
            },
            None => {
                let mut entries: Vec<(String, String)> = Vec::new();
                std::mem::swap(&mut entries, &mut self.entries);
                entries.push((lowercase, value.to_owned()));
                proof {
                    lemma_map_push(s, lower_str(field@), value@);
                    assert(entries_view(entries@) =~= s.push((lower_str(field@), value@)));
                    lemma_lower_idempotent(field@);
                    let t = s.push((lower_str(field@), value@));
                    assert forall|j: int| 0 <= j < t.len() implies lower_str(#[trigger] t[j].0) == t[j].0 by {
                        if j < s.len() {
                            assert(t[j] == s[j]);
                        }
                    }
                }
                self.entries = entries;
                proof {
                    assert(self.entries() =~= s.push((lower_str(field@), value@)));
                    lemma_map_push(s, lower_str(field@), value@);
                }
            },
        }
    }

    /// Returns true when the specified case-insensitive field name exists in the HeaderCollection.
    pub fn contains_field(&self, field: &str) -> (b: bool)
        ensures
            b == self@.contains_key(lower_str(field@)),
    {
        let lowercase = to_ascii_lowercase(field);
        self.find(&lowercase).is_some()
    }

    /// Gets the value of the header with the specified field name.
    pub fn get(&self, field: &str) -> (r: Option<String>)
        ensures
            match r {
                Some(v) => self@.contains_key(lower_str(field@)) && v@ == self@[lower_str(field@)],
                None => !self@.contains_key(lower_str(field@)),
            },
    {
        proof {
            use_type_invariant(&*self);
        }
        let lowercase = to_ascii_lowercase(field);
        match self.find(&lowercase) {
            Some(i) => {
                proof {
                    lemma_map_entry(self.entries(), i as int);
                }
                Some(self.entries[i].1.clone())
            },
            None => None,
        }
    }

    /// Removes the header with the specified field name from the HeaderCollection.
    pub fn remove(&mut self, field: &str) -> (r: Option<String>)
        ensures
            final(self).entries() == removed_entries(old(self).entries(), lower_str(field@)),
            final(self)@ == old(self)@.remove(lower_str(field@)),
            match r {
                Some(v) => old(self)@.contains_key(lower_str(field@)) && v@ == old(self)@[lower_str(
                    field@,
                )],
                None => !old(self)@.contains_key(lower_str(field@)),
            },
    {
        proof {
            use_type_invariant(&*self);
        }
        let lowercase = to_ascii_lowercase(field);
        let ghost s = self.entries();
        match self.find(&lowercase) {
            Some(i) => {
                proof {
                    lemma_map_entry(s, i as int);
                    lemma_map_remove(s, i as int);
                }
                let mut entries: Vec<(String, String)> = Vec::new();
                std::mem::swap(&mut entries, &mut self.entries);
                let (_, v) = entries.remove(i);
                assert(entries_view(entries@) =~= s.remove(i as int));
                self.entries = entries;
                assert(self.entries() =~= s.remove(i as int));
                Some(v)
            },
            None => {
                assert(self@ =~= old(self)@.remove(lower_str(field@)));
                None
            },
        }
    }

    /// Sets the header with the specified field name to `value`, replacing
    /// any value it had.
    pub(crate) fn set(&mut self, field: &str, value: &str)
        ensures
            final(self).entries() == removed_entries(old(self).entries(), lower_str(field@)).push(
                (lower_str(field@), value@),
            ),
            final(self)@ == old(self)@.insert(lower_str(field@), value@),
    {
        self.remove(field);
        self.insert(field, value);
        assert(self@ =~= old(self)@.insert(lower_str(field@), value@));
    }

    /// A copy of the entries.
    fn copy_entries(&self) -> (r: Vec<(String, String)>)
        ensures
            entries_view(r@) == self.entries(),
    {
        let mut entries: Vec<(String, String)> = Vec::new();
        let mut i: usize = 0;
        while i < self.entries.len()
            invariant
                i <= self.entries@.len(),
                entries_view(entries@) == self.entries().take(i as int),
            decreases self.entries@.len() - i,
        {
            let (k, v) = (self.entries[i].0.clone(), self.entries[i].1.clone());
            assert((k@, v@) == self.entries()[i as int]);
            let ghost before = entries@;
            entries.push((k, v));
            proof {
                lemma_entries_view_push(before, (k, v));
                assert(self.entries().take(i as int).push(self.entries()[i as int]) =~= self.entries().take(i + 1));
            }
            i = i + 1;
        }
        assert(self.entries().take(i as int) =~= self.entries());
        entries
    }

    /// Returns an iterator which iterates over each header in the HeaderCollection.
    pub fn iter(&self) -> (h: Headers)
        ensures
            h.remaining() == self.entries(),
            keys_distinct(self.entries()),
            keys_lower(self.entries()),
    {
        proof {
            use_type_invariant(self);
        }
        let entries = self.copy_entries();
        assert(entries_view(entries@).skip(0) =~= entries_view(entries@));
        Headers { entries, pos: 0 }
    }

    /// A copy of this collection.
    pub fn clone(&self) -> (c: HeaderCollection)
        ensures
            c.entries() == self.entries(),
            c@ == self@,
    {
        proof {
            use_type_invariant(self);
        }
        HeaderCollection { entries: self.copy_entries() }
    }
}

/// The view of entries with one more entry is the view with its view added.
proof fn lemma_entries_view_push(s: Seq<(String, String)>, x: (String, String))
    ensures
        entries_view(s.push(x)) =~= entries_view(s).push((x.0@, x.1@)),
{
    assert forall|j: int| 0 <= j < s.len() implies #[trigger] entries_view(s.push(x))[j]
        == entries_view(s)[j] by {
        assert(s.push(x)[j] == s[j]);
    }
}

/// Iterates over the headers present in a HeaderCollection
#[derive(Debug)]
pub struct Headers {
    entries: Vec<(String, String)>,
    pos: usize,
}

impl Headers {
    /// The headers not handed out yet, in order.
    pub closed spec fn remaining(&self) -> Seq<(Seq<char>, Seq<char>)> {
        if self.pos <= self.entries@.len() {
            entries_view(self.entries@).skip(self.pos as int)
        } else {
            Seq::empty()
        }
    }

    /// The next header, if any.
    pub fn next(&mut self) -> (r: Option<(String, String)>)
        ensures
            match r {
                Some((k, v)) => old(self).remaining().len() > 0 && (k@, v@) == old(self).remaining()[0]
                    && final(self).remaining() == old(self).remaining().skip(1),
                None => old(self).remaining().len() == 0 && final(self).remaining() == old(
                    self,
                ).remaining(),
            },
    {
        if self.pos >= self.entries.len() {
            return None;
        }
        let i = self.pos;
        let r = (self.entries[i].0.clone(), self.entries[i].1.clone());
        self.pos = i + 1;
        assert(entries_view(self.entries@).skip(self.pos as int) =~= entries_view(
            self.entries@,
        ).skip(i as int).skip(1));
        Some(r)
    }
}

/// The field name and value of a header line: the name runs from the first
/// character that is not a colon up to the next colon; the value follows the
/// white space after that colon, up to a line feed or the end. A line
/// without such a colon holds no header.
pub open spec fn header_line(line: Seq<char>) -> Option<(Seq<char>, Seq<char>)> {
    let a = skip_char(line, ':', 0);
    let j = find_char(line, ':', a);
    if a >= line.len() || j >= line.len() {
        None
    } else {
        let k = skip_white_space(line, j + 1);
        let e = find_char(line, '\n', k);
        Some((line.subrange(a, j), line.subrange(k, e)))
    }
}

/// The lines of `s` from `start`, split at each CR LF, when the current line
/// began at `start` and the search has reached `i`.
pub open spec fn split_crlf_from(s: Seq<char>, start: int, i: int) -> Seq<Seq<char>>
    decreases s.len() - i,
{
    if i < start || start < 0 || i + 1 >= s.len() {
        seq![s.subrange(start, s.len() as int)]
    } else if s[i] == '\r' && s[i + 1] == '\n' {
        seq![s.subrange(start, i)] + split_crlf_from(s, i + 2, i + 2)
    } else {
        split_crlf_from(s, start, i + 1)
    }
}

/// The lines of `s`, split at each CR LF.
pub open spec fn split_crlf(s: Seq<char>) -> Seq<Seq<char>> {
    split_crlf_from(s, 0, 0)
}

/// Whether every line holds a header.
pub open spec fn lines_hold_headers(lines: Seq<Seq<char>>) -> bool {
    forall|i: int| 0 <= i < lines.len() ==> (#[trigger] header_line(lines[i])) is Some
}

/// The headers after inserting the header of each line, in order.
pub open spec fn insert_lines(m: Map<Seq<char>, Seq<char>>, lines: Seq<Seq<char>>) -> Map<
    Seq<char>,
    Seq<char>,
>
    decreases lines.len(),
{
    if lines.len() == 0 {
        m
    } else {
        let m2 = insert_lines(m, lines.drop_last());
        let (name, value) = header_line(lines.last()).unwrap();
        m2.insert(lower_str(name), inserted_value(m2, lower_str(name), value))
    }
}

/// The field name and value of a header line, if it holds one.
pub fn parse_header_line(line: &str) -> (r: Option<(String, String)>)
    ensures
        match header_line(line@) {
            Some((n, v)) => r matches Some((name, value)) && name@ == n && value@ == v,
            None => r is None,
        },
{
    let cs = chars_of(line);
    let a = skip_char_from(&cs, ':', 0);
    if a >= cs.len() {
        return None;
    }
    let j = find_char_from(&cs, ':', a);
    if j >= cs.len() {
        return None;
    }
    let k = skip_white_space_from(&cs, j + 1);
    let e = find_char_from(&cs, '\n', k);
    Some((string_of(&cs, a, j), string_of(&cs, k, e)))
}

/// The lines of `s`, split at each CR LF.
pub fn split_lines(s: &str) -> (r: Vec<String>)
    ensures
        crate::util::text::texts(r@) == split_crlf(s@),
{
    let cs = chars_of(s);
    let n = cs.len();
    let mut lines: Vec<String> = Vec::new();
    let mut start: usize = 0;
    let mut i: usize = 0;
    while n > 0 && i < n - 1
        invariant
            n == cs@.len(),
            cs@ == s@,
            start <= i,
            i <= n,
            crate::util::text::texts(lines@) + split_crlf_from(s@, start as int, i as int) == split_crlf(s@),
        decreases n - i,
    {
        if cs[i] == '\r' && cs[i + 1] == '\n' {
            let line = string_of(&cs, start, i);
            let ghost before = lines@;
            lines.push(line);
            proof {
                crate::util::text::lemma_strings_push(before, line);
                assert(crate::util::text::texts(lines@) + split_crlf_from(s@, (i + 2) as int, (i + 2) as int)
                    =~= crate::util::text::texts(before) + (seq![line@] + split_crlf_from(s@, (i + 2) as int, (i + 2) as int)));
            }
            start = i + 2;
            i = i + 2;
        } else {
            i = i + 1;
        }
    }
    let last = string_of(&cs, start, n);
    let ghost before = lines@;
    lines.push(last);
    proof {
        crate::util::text::lemma_strings_push(before, last);
    }
    lines
}

/// Reading HTTP headers.
pub trait ReadHttpHeaders {
    /// Reads the header section, up to and including the empty line that ends it.
    fn read_http_headers(&mut self) -> WebSocketResult<HeaderCollection>;
}

/// The headers read from the bytes `s`, with the bytes left: the section up
/// to the first blank line, split into lines, each holding a header.
pub open spec fn read_headers(s: Seq<u8>) -> (Result<Map<Seq<char>, Seq<char>>, WebSocketError>, Seq<u8>) {
    let (section, rest) = read_until(s, "\r\n\r\n"@, false);
    match section {
        Err(e) => (Err(e), rest),
        Ok(text) => (Ok(insert_lines(Map::empty(), split_crlf(text))), rest),
    }
}

/// Whether the header section at the start of `s`, if it can be read, holds a header on every line.
pub open spec fn headers_readable(s: Seq<u8>) -> bool {
    read_until(s, "\r\n\r\n"@, false).0 matches Ok(text) ==> lines_hold_headers(split_crlf(text))
}

impl ReadHttpHeaders for Vec<u8> {
    /// Reads the header section from the start of the bytes, consuming it.
    /// Every line of the section must hold a header.
    fn read_http_headers(&mut self) -> (r: WebSocketResult<HeaderCollection>)
        ensures
            headers_readable(old(self)@) ==> ({
                let (res, rest) = read_headers(old(self)@);
                &&& final(self)@ == rest
                &&& match r {
                    Ok(h) => res == Ok::<Map<Seq<char>, Seq<char>>, WebSocketError>(h@),
                    Err(e) => res == Err::<Map<Seq<char>, Seq<char>>, WebSocketError>(e),
                }
            }),
    {
        let ghost s0 = self@;
        let section = self.read_until_str("\r\n\r\n", false)?;
        let lines = split_lines(section.as_str());
        let mut headers = HeaderCollection::new();
        let mut i: usize = 0;
        while i < lines.len()
            invariant
                i <= lines@.len(),
                crate::util::text::texts(lines@) == split_crlf(section@),
                headers_readable(s0) ==> read_until(s0, "\r\n\r\n"@, false).0 == Ok::<Seq<char>, WebSocketError>(section@),
                headers_readable(s0) ==> headers@ == insert_lines(
                    Map::empty(),
                    crate::util::text::texts(lines@).take(i as int),
                ),
            decreases lines@.len() - i,
        {
            let ghost ls = crate::util::text::texts(lines@);
            assert(ls[i as int] == lines@[i as int]@);
            assert(ls.take(i + 1).drop_last() =~= ls.take(i as int));
            match parse_header_line(lines[i].as_str()) {
                Some((name, value)) => {
                    headers.insert(name.as_str(), value.as_str());
                },
                None => {
                    assert(!headers_readable(s0) || !lines_hold_headers(split_crlf(section@)));
                },
            }
            i = i + 1;
        }
        assert(crate::util::text::texts(lines@).take(i as int) =~= crate::util::text::texts(lines@));
        Ok(headers)
    }
}

/// The bytes written for headers: each field name, `: `, its value and CR LF.
pub open spec fn headers_bytes(entries: Seq<(Seq<char>, Seq<char>)>) -> Seq<u8>
    decreases entries.len(),
{
    if entries.len() == 0 {
        Seq::empty()
    } else {
        headers_bytes(entries.drop_last()) + encode_utf8(entries.last().0) + encode_utf8(": "@)
            + encode_utf8(entries.last().1) + encode_utf8("\r\n"@)
    }
}

/// Writing HTTP headers.
pub trait WriteHttpHeaders {
    /// Writes the headers, one line each.
    fn write_http_headers(&mut self, headers: &HeaderCollection) -> WebSocketResult<()>;
}

impl WriteHttpHeaders for Vec<u8> {
    /// Appends the headers, one line each, in the order of the collection;
    /// writing to memory never fails.
    fn write_http_headers(&mut self, headers: &HeaderCollection) -> (r: WebSocketResult<()>)
        ensures
            r is Ok,
            final(self)@ == old(self)@ + headers_bytes(headers.entries()),
    {
        let ghost start = self@;
        let mut it = headers.iter();
        let ghost all = headers.entries();
        let ghost mut i: int = 0;
        loop
            invariant
                start == old(self)@,
                all == headers.entries(),
                it.remaining() == all.skip(i),
                0 <= i <= all.len(),
                self@ == start + headers_bytes(all.take(i)),
            decreases all.len() - i,
        {
            match it.next() {
                Some((field, value)) => {
                    assert(i < all.len());
                    let ghost before = self@;
                    extend_bytes(self, field.as_str().as_bytes());
                    extend_bytes(self, ": ".as_bytes());
                    extend_bytes(self, value.as_str().as_bytes());
                    extend_bytes(self, "\r\n".as_bytes());
                    proof {
                        assert(all.take(i + 1).drop_last() =~= all.take(i));
                        assert(all.take(i + 1).last() == all[i]);
                        assert(all.skip(i)[0] == all[i]);
                        assert(all.skip(i).skip(1) =~= all.skip(i + 1));
                    }
                    proof {
                        i = i + 1;
                    }
                },
                None => {
                    assert(all.take(i) =~= all);
                    return Ok(());
                },
            }
        }
    }
}

} // verus!
