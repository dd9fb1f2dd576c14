//! Null-terminated strings in byte data, and tables of them.
use crate::bytes::push_all;
use crate::text::same;
use vstd::prelude::*;
use vstd::utf8::{decode_utf8, encode_scalar, encode_utf8, valid_utf8};

verus! {

/// `core::str::from_utf8`: the text that the bytes encode, where they are valid UTF-8.
#[verifier::external_body]
pub(crate) fn utf8_text(bytes: &[u8]) -> (r: Option<&str>)
    ensures
        match r {
            Some(s) => valid_utf8(bytes@) && s@ == decode_utf8(bytes@),
            None => !valid_utf8(bytes@),
        },
{
    core::str::from_utf8(bytes).ok()
}

/// Where the string that starts at `at` ends: at the next null byte, or with the data.
pub open spec fn cstring_end(data: Seq<u8>, at: int) -> int
    decreases data.len() - at,
{
    if 0 <= at < data.len() && data[at] != 0 {
        cstring_end(data, at + 1)
    } else {
        at
    }
}

/// The text of the bytes, nothing where they are not valid UTF-8.
pub open spec fn text_or_empty(bytes: Seq<u8>) -> Seq<char> {
    if valid_utf8(bytes) {
        decode_utf8(bytes)
    } else {
        Seq::empty()
    }
}

/// The null-terminated string at `offset`, empty where the offset is out of bounds or the bytes are
/// not valid UTF-8.
pub open spec fn cstring(data: Seq<u8>, offset: int) -> Seq<char> {
    if offset >= data.len() {
        Seq::empty()
    } else {
        text_or_empty(data.subrange(offset, cstring_end(data, offset)))
    }
}

proof fn lemma_cstring_end(data: Seq<u8>, at: int)
    requires
        0 <= at <= data.len(),
    ensures
        at <= cstring_end(data, at) <= data.len(),
        forall|i: int| at <= i < cstring_end(data, at) ==> data[i] != 0,
        cstring_end(data, at) < data.len() ==> data[cstring_end(data, at)] == 0,
    decreases data.len() - at,
{
    if at < data.len() && data[at] != 0 {
        lemma_cstring_end(data, at + 1);
    }
}

/// The text that a stretch of bytes holds, nothing where it is not valid UTF-8.
pub fn text_of(bytes: &[u8]) -> (r: &str)
    ensures
        r@ == text_or_empty(bytes@),
{
    match utf8_text(bytes) {
        Some(s) => s,
        None => {
            proof {
                reveal_strlit("");
                assert(""@ =~= Seq::<char>::empty());
            }
            ""
        },
    }
}

/// Read the null-terminated string that starts at `offset`.
///
/// The string is empty where `offset` is out of bounds or the bytes are not valid UTF-8.
pub fn read_cstring(data: &[u8], offset: usize) -> (r: &str)
    ensures
        r@ == cstring(data@, offset as int),
{
    if offset >= data.len() {
        proof {
            reveal_strlit("");
            assert(""@ =~= Seq::<char>::empty());
        }
        return "";
    }
    let mut end: usize = offset;
    while end < data.len() && data[end] != 0
        invariant
            offset <= end <= data@.len(),
            cstring_end(data@, end as int) == cstring_end(data@, offset as int),
        decreases data@.len() - end,
    {
        end = end + 1;
    }
    proof {
        lemma_cstring_end(data@, end as int);
    }
    text_of(vstd::slice::slice_subrange(data, offset, end))
}

/// A table of null-terminated strings under construction.
///
/// The strings stand in the order in which they came. A string that comes again takes the place that
/// it has already.
pub struct StringTableWriter {
    base: usize,
    entries: Vec<(String, usize)>,
    buf: Vec<u8>,
}

/// What a string table holds: where it will be placed, its strings with their places, its bytes.
pub struct StringTable {
    pub base: nat,
    pub entries: Seq<(Seq<char>, nat)>,
    pub buf: Seq<u8>,
}

/// The place of a string in a list of entries, where it is in it.
pub open spec fn place(entries: Seq<(Seq<char>, nat)>, s: Seq<char>) -> Option<nat>
    decreases entries.len(),
{
    if entries.len() == 0 {
        None
    } else if place(entries.drop_last(), s) is Some {
        place(entries.drop_last(), s)
    } else if entries.last().0 == s {
        Some(entries.last().1)
    } else {
        None
    }
}

impl StringTable {
    /// The table with nothing in it.
    pub open spec fn empty(base: nat) -> StringTable {
        StringTable { base, entries: Seq::empty(), buf: Seq::empty() }
    }

    /// The table after a string was added.
    pub open spec fn added(self, s: Seq<char>) -> StringTable {
        if place(self.entries, s) is Some {
            self
        } else {
            StringTable {
                base: self.base,
                entries: self.entries.push((s, self.buf.len())),
                buf: self.buf + encode_utf8(s).push(0),
            }
        }
    }

    /// The offset that adding a string gives.
    pub open spec fn offset_of(self, s: Seq<char>) -> nat {
        match place(self.entries, s) {
            Some(at) => self.base + at,
            None => self.base + self.buf.len(),
        }
    }

    /// Every entry's bytes and terminator stand at its place.
    pub open spec fn wf(self) -> bool {
        forall|i: int|
            0 <= i < self.entries.len() ==> stands((#[trigger] self.entries[i]).0, self.entries[i].1, self.buf)
    }
}

/// The bytes of `s` and a terminator stand in `buf` at `at`.
pub open spec fn stands(s: Seq<char>, at: nat, buf: Seq<u8>) -> bool {
    &&& at + encode_utf8(s).len() + 1 <= buf.len()
    &&& buf.subrange(at as int, (at + encode_utf8(s).len()) as int) == encode_utf8(s)
    &&& buf[(at + encode_utf8(s).len()) as int] == 0
}

/// What each entry of a writer holds.
pub open spec fn entry_views(entries: Seq<(String, usize)>) -> Seq<(Seq<char>, nat)> {
    entries.map_values(|e: (String, usize)| (e.0@, e.1 as nat))
}

impl StringTableWriter {
    /// The table that the writer holds.
    pub closed spec fn view(&self) -> StringTable {
        StringTable { base: self.base as nat, entries: entry_views(self.entries@), buf: self.buf@ }
    }

    /// A writer for a table that will stand at `base_offset` in the payload.
    pub fn new(base_offset: usize) -> (r: Self)
        ensures
            r@ == StringTable::empty(base_offset as nat),
            r@.wf(),
    {
        let r = StringTableWriter { base: base_offset, entries: Vec::new(), buf: Vec::new() };
        proof {
            assert(r@.entries =~= Seq::empty());
            assert(r@.buf =~= Seq::empty());
        }
        r
    }

    /// Put a string into the table and return its offset, counted from the start of the payload.
    ///
    /// A string that is in the table already keeps the offset that it had.
    pub fn add(&mut self, s: &str) -> (r: u32)
        ensures
            final(self)@ == old(self)@.added(s@),
            r == old(self)@.offset_of(s@) as u32,
            old(self)@.wf() ==> final(self)@.wf(),
    {
        let found = self.find(s);
        let ghost all = self@.entries;
        if let Some(rel) = found {
            return self.offset_at(rel);
        }
        let rel: usize = self.buf.len();
        push_all(&mut self.buf, s.as_bytes());
        self.buf.push(0);
        self.entries.push((s.to_owned(), rel));
        proof {
            assert(self@.entries =~= all.push((s@, rel as nat)));
            assert(self@.buf =~= old(self)@.buf + encode_utf8(s@).push(0));
            if old(self)@.wf() {
                lemma_added_wf(old(self)@, s@);
            }
        }
        self.offset_at(rel)
    }

    /// The offset of a place in the table, of which the low 32 bits are stored.
    fn offset_at(&self, rel: usize) -> (r: u32)
        ensures
            r == (self@.base + rel) as u32,
    {
        (self.base as u128 + rel as u128) as u32
    }

    /// The place of a string in the table, where it is in it.
    fn find(&self, s: &str) -> (r: Option<usize>)
        ensures
            match r {
                Some(at) => place(self@.entries, s@) == Some(at as nat),
                None => place(self@.entries, s@) is None,
            },
    {
        let mut i: usize = 0;
        let mut found: Option<usize> = None;
        let ghost all = self@.entries;
        while i < self.entries.len() && found.is_none()
            invariant
                i <= self.entries@.len(),
                all == self@.entries,
                all.len() == self.entries@.len(),
                                match found {
                    Some(at) => place(all.take(i as int), s@) == Some(at as nat),
                    None => place(all.take(i as int), s@) is None,
                },
            decreases self.entries@.len() - i,
        {
            let hit = same(self.entries[i].0.as_str(), s);
            if hit {
                found = Some(self.entries[i].1);
            }
            proof {
                assert(all.take(i + 1).drop_last() =~= all.take(i as int));
                assert(all.take(i + 1).last() == (self.entries@[i as int].0@, self.entries@[i as int].1 as nat));
            }
            i = i + 1;
        }
        proof {
            if found is Some {
                lemma_place_take(all, i as int, s@);
            } else {
                assert(all.take(i as int) =~= all);
            }
        }
        found
    }

    /// The offset of a string that is in the table already, counted from the start of the payload.
    pub fn offset(&self, s: &str) -> (r: u32)
        requires
            place(self@.entries, s@) is Some,
        ensures
            r == self@.offset_of(s@) as u32,
    {
        match self.find(s) {
            Some(rel) => self.offset_at(rel),
            None => 0,
        }
    }

    /// The bytes of the table.
    pub fn finish(self) -> (r: Vec<u8>)
        ensures
            r@ == self@.buf,
    {
        self.buf
    }

    /// How many bytes the table takes.
    pub fn len(&self) -> (r: usize)
        ensures
            r == self@.buf.len(),
    {
        self.buf.len()
    }

    /// Whether the table holds no bytes.
    pub fn is_empty(&self) -> (r: bool)
        ensures
            r == (self@.buf.len() == 0),
    {
        self.buf.len() == 0
    }
}

proof fn lemma_place_take(entries: Seq<(Seq<char>, nat)>, n: int, s: Seq<char>)
    requires
        0 <= n <= entries.len(),
        place(entries.take(n), s) is Some,
    ensures
        place(entries, s) == place(entries.take(n), s),
    decreases entries.len() - n,
{
    if n == entries.len() {
        assert(entries.take(n) =~= entries);
    } else {
        assert(entries.take(n + 1).drop_last() =~= entries.take(n));
        lemma_place_take(entries, n + 1, s);
    }
}

proof fn lemma_place_among(entries: Seq<(Seq<char>, nat)>, s: Seq<char>)
    requires
        place(entries, s) is Some,
    ensures
        exists|i: int|
            0 <= i < entries.len() && (#[trigger] entries[i]).0 == s && entries[i].1 == place(entries, s)->0,
    decreases entries.len(),
{
    if place(entries.drop_last(), s) is Some {
        lemma_place_among(entries.drop_last(), s);
        let i = choose|i: int|
            0 <= i < entries.drop_last().len() && (#[trigger] entries.drop_last()[i]).0 == s
                && entries.drop_last()[i].1 == place(entries.drop_last(), s)->0;
        assert(entries[i] == entries.drop_last()[i]);
    } else {
        assert(entries[entries.len() - 1] == entries.last());
    }
}

pub proof fn lemma_place_stands(t: StringTable, s: Seq<char>)
    requires
        t.wf(),
        place(t.entries, s) is Some,
    ensures
        stands(s, place(t.entries, s)->0, t.buf),
{
    lemma_place_among(t.entries, s);
}

pub proof fn lemma_added_wf(t: StringTable, s: Seq<char>)
    requires
        t.wf(),
    ensures
        t.added(s).wf(),
{
    if place(t.entries, s) is None {
        let u = t.added(s);
        let e = encode_utf8(s);
        assert forall|i: int| 0 <= i < u.entries.len() implies stands((#[trigger] u.entries[i]).0, u.entries[i].1, u.buf) by {
            if i < t.entries.len() {
                assert(u.entries[i] == t.entries[i]);
                assert(stands(t.entries[i].0, t.entries[i].1, t.buf));
                let at = t.entries[i].1 as int;
                let n = encode_utf8(t.entries[i].0).len() as int;
                assert(u.buf.subrange(at, at + n) =~= t.buf.subrange(at, at + n));
            } else {
                let at = t.buf.len() as int;
                assert(u.buf.subrange(at, at + e.len()) =~= e);
            }
        }
    }
}

/// Adding a string a second time changes nothing and gives the same offset.
pub proof fn law_added_twice(t: StringTable, s: Seq<char>)
    ensures
        t.added(s).added(s) == t.added(s),
        t.added(s).offset_of(s) == t.offset_of(s),
{
    if place(t.entries, s) is None {
        let u = t.added(s);
        assert(u.entries.drop_last() =~= t.entries);
        assert(u.entries.last() == (s, t.buf.len()));
    }
}

/// A string that was never added takes the place behind all that are there, and its bytes and a terminator.
pub proof fn law_new_string_goes_last(t: StringTable, s: Seq<char>)
    requires
        place(t.entries, s) is None,
    ensures
        t.offset_of(s) == t.base + t.buf.len(),
        t.added(s).buf.len() == t.buf.len() + encode_utf8(s).len() + 1,
        t.added(s).offset_of(s) == t.offset_of(s),
{
    law_added_twice(t, s);
}

/// What later additions do leaves the offset of a string as it was, and adding it again changes nothing.
pub proof fn law_added_stays(t: StringTable, s: Seq<char>, later: Seq<Seq<char>>)
    ensures
        added_all(t.added(s), later).offset_of(s) == t.offset_of(s),
        added_all(t.added(s), later).added(s) == added_all(t.added(s), later),
{
    lemma_added_place(t, s);
    lemma_added_all_place(t.added(s), later, s);
    lemma_added_all_base(t.added(s), later);
}

/// What a later addition does leaves the offset of a string as it was.
pub proof fn law_offset_stays(t: StringTable, s: Seq<char>, other: Seq<char>)
    requires
        place(t.entries, s) is Some,
    ensures
        t.added(other).offset_of(s) == t.offset_of(s),
{
    if place(t.entries, other) is None {
        assert(t.added(other).entries.drop_last() =~= t.entries);
    }
}

/// A string holds no null character.
pub open spec fn null_free(s: Seq<char>) -> bool {
    forall|i: int| 0 <= i < s.len() ==> s[i] != '\0'
}

proof fn lemma_encoded_scalar_bytes(c: u32)
    by (bit_vector)
    ensures
        0 < c <= 0x7F ==> (c & 0x7F) as u8 != 0,
        0xC0u8 | ((c >> 6) & 0x1F) as u8 != 0,
        0xE0u8 | ((c >> 12) & 0x0F) as u8 != 0,
        0xF0u8 | ((c >> 18) & 0x7) as u8 != 0,
        0x80u8 | (c & 0x3F) as u8 != 0,
        0x80u8 | ((c >> 6) & 0x3F) as u8 != 0,
        0x80u8 | ((c >> 12) & 0x3F) as u8 != 0,
{
}

/// The encoding of text with a null character has a null byte.
proof fn lemma_null_encodes(s: Seq<char>, at: int)
    requires
        0 <= at < s.len(),
        s[at] == '\0',
    ensures
        exists|i: int| 0 <= i < encode_utf8(s).len() && #[trigger] encode_utf8(s)[i] == 0,
    decreases s.len(),
{
    let e = encode_scalar(s[0] as u32);
    let rest = encode_utf8(s.drop_first());
    assert(encode_utf8(s) == e + rest);
    if at == 0 {
        assert((0u32 & 0x7F) as u8 == 0) by (bit_vector);
        assert(e[0] == 0);
        assert(encode_utf8(s)[0] == 0);
    } else {
        lemma_null_encodes(s.drop_first(), at - 1);
        let i = choose|i: int| 0 <= i < rest.len() && #[trigger] rest[i] == 0;
        assert(encode_utf8(s)[e.len() + i] == 0);
    }
}

/// A null-terminated string that is read holds no null character.
pub proof fn lemma_cstring_null_free(data: Seq<u8>, offset: int)
    requires
        0 <= offset,
    ensures
        null_free(cstring(data, offset)),
{
    if offset < data.len() {
        lemma_cstring_end(data, offset);
        let bytes = data.subrange(offset, cstring_end(data, offset));
        if valid_utf8(bytes) {
            let s = decode_utf8(bytes);
            vstd::utf8::decode_utf8_encode_utf8(bytes);
            assert forall|i: int| 0 <= i < s.len() implies s[i] != '\0' by {
                if s[i] == '\0' {
                    lemma_null_encodes(s, i);
                }
            }
        }
    }
}

/// The encoding of text without null characters has no null byte.
pub proof fn lemma_encoded_null_free(s: Seq<char>)
    requires
        null_free(s),
    ensures
        forall|i: int| 0 <= i < encode_utf8(s).len() ==> encode_utf8(s)[i] != 0,
    decreases s.len(),
{
    if s.len() > 0 {
        let c = s[0] as u32;
        lemma_encoded_scalar_bytes(c);
        assert(s[0] != '\0');
        vstd::utf8::char_is_scalar(s[0]);
        vstd::utf8::char_u32_cast(s[0], c);
        assert(c != 0);
        assert forall|i: int| 0 <= i < s.drop_first().len() implies s.drop_first()[i] != '\0' by {
            assert(s.drop_first()[i] == s[i + 1]);
        }
        lemma_encoded_null_free(s.drop_first());
        let e = encode_scalar(c);
        let rest = encode_utf8(s.drop_first());
        assert forall|i: int| 0 <= i < encode_utf8(s).len() implies encode_utf8(s)[i] != 0 by {
            assert(encode_utf8(s) == e + rest);
            if i < e.len() {
                assert(e[i] != 0);
            } else {
                assert(rest[i - e.len()] != 0);
            }
        }
    }
}

proof fn lemma_end_at(data: Seq<u8>, at: int, end: int)
    requires
        0 <= at <= end < data.len(),
        forall|i: int| at <= i < end ==> data[i] != 0,
        data[end] == 0,
    ensures
        cstring_end(data, at) == end,
    decreases end - at,
{
    if at < end {
        lemma_end_at(data, at + 1, end);
    }
}

/// Where the bytes of null-free text and a terminator stand, reading a string there gives the text.
pub proof fn lemma_standing_text_reads(s: Seq<char>, at: nat, buf: Seq<u8>)
    requires
        null_free(s),
        stands(s, at, buf),
    ensures
        cstring(buf, at as int) == s,
{
    let e = encode_utf8(s);
    let end = at + e.len();
    lemma_encoded_null_free(s);
    assert forall|i: int| at <= i < end implies buf[i] != 0 by {
        assert(buf[i] == buf.subrange(at as int, end as int)[i - at]);
    }
    lemma_end_at(buf, at as int, end as int);
    vstd::utf8::encode_utf8_valid_utf8(s);
    vstd::utf8::encode_utf8_decode_utf8(s);
}

/// What was added to a table is read back at the offset that adding it gave, and stays readable there
/// whatever is added after it.
pub proof fn law_added_string_reads_back(t: StringTable, s: Seq<char>, later: Seq<Seq<char>>)
    requires
        t.wf(),
        null_free(s),
    ensures
        cstring(added_all(t.added(s), later).buf, t.offset_of(s) - t.base) == s,
    decreases later.len(),
{
    lemma_added_wf(t, s);
    lemma_added_all_wf(t.added(s), later);
    law_added_twice(t, s);
    assert(place(t.added(s).entries, s) == Some((t.offset_of(s) - t.base) as nat)) by {
        if place(t.entries, s) is None {
            assert(t.added(s).entries.drop_last() =~= t.entries);
        }
    }
    lemma_added_all_place(t.added(s), later, s);
    lemma_place_stands(added_all(t.added(s), later), s);
    lemma_standing_text_reads(s, (t.offset_of(s) - t.base) as nat, added_all(t.added(s), later).buf);
}

/// The table after each string of a list was added in turn.
pub open spec fn added_all(t: StringTable, list: Seq<Seq<char>>) -> StringTable
    decreases list.len(),
{
    if list.len() == 0 {
        t
    } else {
        added_all(t, list.drop_last()).added(list.last())
    }
}

pub proof fn lemma_added_all_wf(t: StringTable, list: Seq<Seq<char>>)
    requires
        t.wf(),
    ensures
        added_all(t, list).wf(),
    decreases list.len(),
{
    if list.len() > 0 {
        lemma_added_all_wf(t, list.drop_last());
        lemma_added_wf(added_all(t, list.drop_last()), list.last());
    }
}

pub proof fn lemma_added_all_place(t: StringTable, list: Seq<Seq<char>>, s: Seq<char>)
    requires
        place(t.entries, s) is Some,
    ensures
        place(added_all(t, list).entries, s) == place(t.entries, s),
    decreases list.len(),
{
    if list.len() > 0 {
        lemma_added_all_place(t, list.drop_last(), s);
        let u = added_all(t, list.drop_last());
        if place(u.entries, list.last()) is None {
            assert(u.added(list.last()).entries.drop_last() =~= u.entries);
        }
    }
}

/// Adding two lists in turn is adding them as one.
pub proof fn lemma_added_all_joined(t: StringTable, a: Seq<Seq<char>>, b: Seq<Seq<char>>)
    ensures
        added_all(t, a + b) == added_all(added_all(t, a), b),
    decreases b.len(),
{
    if b.len() == 0 {
        assert(a + b =~= a);
    } else {
        assert((a + b).drop_last() =~= a + b.drop_last());
        lemma_added_all_joined(t, a, b.drop_last());
    }
}

/// A string that was added has its place.
pub proof fn lemma_added_place(t: StringTable, s: Seq<char>)
    ensures
        place(t.added(s).entries, s) is Some,
        t.base + place(t.added(s).entries, s)->0 == t.offset_of(s),
{
    if place(t.entries, s) is None {
        assert(t.added(s).entries.drop_last() =~= t.entries);
    }
}

/// Adding strings leaves the table where it is.
pub proof fn lemma_added_all_base(t: StringTable, list: Seq<Seq<char>>)
    ensures
        added_all(t, list).base == t.base,
    decreases list.len(),
{
    if list.len() > 0 {
        lemma_added_all_base(t, list.drop_last());
    }
}

/// What stands in bytes stands further on in them with others before them.
pub proof fn lemma_stands_behind(prefix: Seq<u8>, s: Seq<char>, at: nat, buf: Seq<u8>)
    requires
        stands(s, at, buf),
    ensures
        stands(s, prefix.len() + at, prefix + buf),
{
    let e = encode_utf8(s);
    let p = prefix.len() as int;
    assert((prefix + buf).subrange(p + at, p + at + e.len()) =~= buf.subrange(at as int, at as int + e.len()));
}

/// Every string of a list that was added has its place.
pub proof fn lemma_listed_place(t: StringTable, list: Seq<Seq<char>>, s: Seq<char>)
    requires
        list.contains(s),
    ensures
        place(added_all(t, list).entries, s) is Some,
    decreases list.len(),
{
    let i = choose|i: int| 0 <= i < list.len() && list[i] == s;
    let u = added_all(t, list.drop_last());
    if i == list.len() - 1 {
        lemma_added_place(u, s);
    } else {
        assert(list.drop_last()[i] == s);
        assert(list.drop_last().contains(s));
        lemma_listed_place(t, list.drop_last(), s);
        if place(u.entries, list.last()) is None {
            assert(u.added(list.last()).entries.drop_last() =~= u.entries);
        }
    }
}

/// A table holds what it held and what was added to it.
pub proof fn lemma_place_listed(t: StringTable, list: Seq<Seq<char>>, s: Seq<char>)
    requires
        place(added_all(t, list).entries, s) is Some,
    ensures
        place(t.entries, s) is Some || list.contains(s),
    decreases list.len(),
{
    if list.len() > 0 {
        let u = added_all(t, list.drop_last());
        if place(u.entries, list.last()) is None {
            assert(u.added(list.last()).entries.drop_last() =~= u.entries);
        }
        if place(u.entries, s) is Some {
            lemma_place_listed(t, list.drop_last(), s);
            if list.drop_last().contains(s) {
                let i = choose|i: int| 0 <= i < list.drop_last().len() && list.drop_last()[i] == s;
                assert(list[i] == s);
            }
        } else {
            assert(list[list.len() - 1] == s);
        }
    }
}

} // verus!
