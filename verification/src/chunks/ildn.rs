//! ILDN chunk: the original shader file name or debug identifier.
//!
//! Two flag bytes and a two-byte length stand before the name. Some compilers write just a null-terminated
//! string instead.
use crate::bytes::{bytes16, copied_span, le16, lemma_read_back16, push16, push_all, read_u16};
use crate::text::{cat3, chars_of, from_span};
use crate::util::{cstring, read_cstring, utf8_text};
use vstd::prelude::*;
use vstd::utf8::{decode_utf8, encode_utf8, valid_utf8};

verus! {

/// Parsed ILDN (debug name) chunk.
#[derive(Debug, Clone)]
pub struct DebugName {
    /// The debug name or original file path.
    pub name: String,
}

/// The text without the null characters at its end.
pub open spec fn without_nulls(s: Seq<char>) -> Seq<char>
    decreases s.len(),
{
    if s.len() > 0 && s.last() == '\0' {
        without_nulls(s.drop_last())
    } else {
        s
    }
}

/// The chunk has a name with its length before it.
pub open spec fn has_length(data: Seq<u8>) -> bool {
    le16(data, 2) > 0 && 4 + le16(data, 2) <= data.len() && valid_utf8(data.subrange(4, 4 + le16(data, 2)))
}

/// The name that a chunk holds, where it holds one: the one with its length before it, or else the whole
/// chunk as a null-terminated string.
pub open spec fn name_of(data: Seq<u8>) -> Option<Seq<char>> {
    if data.len() < 4 {
        None
    } else if has_length(data) {
        Some(without_nulls(decode_utf8(data.subrange(4, 4 + le16(data, 2)))))
    } else if cstring(data, 0).len() == 0 {
        None
    } else {
        Some(cstring(data, 0))
    }
}

fn trim_nulls(s: &str) -> (r: String)
    ensures
        r@ == without_nulls(s@),
{
    let letters = chars_of(s);
    let mut end: usize = letters.len();
    proof {
        assert(letters@.take(end as int) =~= letters@);
    }
    while end > 0 && letters[end - 1] == '\0'
        invariant
            end <= letters@.len(),
            without_nulls(letters@.take(end as int)) == without_nulls(letters@),
        decreases end,
    {
        proof {
            assert(letters@.take(end as int).drop_last() =~= letters@.take(end - 1));
        }
        end = end - 1;
    }
    proof {
        if end > 0 {
            assert(letters@.take(end as int).last() == letters@[end - 1]);
        }
        assert(letters@.take(end as int) =~= letters@.subrange(0, end as int));
    }
    from_span(letters.as_slice(), 0, end)
}

/// Parse an ILDN chunk.
pub fn parse_ildn(data: &[u8]) -> (r: Option<DebugName>)
    ensures
        match r {
            Some(v) => name_of(data@) == Some(v.name@),
            None => name_of(data@) is None,
        },
{
    if data.len() < 4 {
        return None;
    }
    let len: u16 = read_u16(data, 2)?;
    if len > 0 && 4 + len as u64 <= data.len() as u64 {
        let bytes = copied_span(data, 4, 4 + len as usize);
        if let Some(s) = utf8_text(bytes.as_slice()) {
            return Some(DebugName { name: trim_nulls(s) });
        }
    }
    let s = read_cstring(data, 0);
    let letters = chars_of(s);
    if letters.len() == 0 {
        None
    } else {
        Some(DebugName { name: s.to_owned() })
    }
}

impl DebugName {
    /// The payload: no flags, the length, the name and a terminator.
    pub open spec fn payload(self) -> Seq<u8> {
        bytes16(0) + bytes16(encode_utf8(self.name@).len() as u16) + encode_utf8(self.name@).push(0)
    }

    /// The tag the chunk goes under.
    pub fn fourcc(&self) -> (r: [u8; 4])
        ensures
            r == [0x49u8, 0x4c, 0x44, 0x4e],
    {
        [0x49u8, 0x4c, 0x44, 0x4e]
    }

    /// The payload: no flags, the length, the name and a terminator.
    pub fn write_payload(&self) -> (r: Vec<u8>)
        ensures
            r@ == self.payload(),
    {
        let bytes = self.name.as_str().as_bytes();
        let mut out: Vec<u8> = Vec::new();
        push16(&mut out, 0);
        push16(&mut out, bytes.len() as u16);
        push_all(&mut out, bytes);
        out.push(0);
        proof {
            assert(out@ =~= self.payload());
        }
        out
    }

    /// The chunk in words.
    pub fn text(&self) -> (r: String)
        ensures
            r@ == "// Debug Name: "@ + self.name@ + "\n"@,
    {
        cat3("// Debug Name: ", self.name.as_str(), "\n")
    }
}

/// Parsing what was written gives the name back, where it has at least one byte, no more than its length can
/// count, and no null character at its end.
pub proof fn law_debug_name_comes_back(v: DebugName)
    requires
        v.name@.len() > 0,
        v.name@.last() != '\0',
        encode_utf8(v.name@).len() <= u16::MAX,
    ensures
        name_of(v.payload()) == Some(v.name@),
{
    let data = v.payload();
    let e = encode_utf8(v.name@);
    vstd::utf8::encode_utf8_valid_utf8(v.name@);
    vstd::utf8::encode_utf8_decode_utf8(v.name@);
    assert(data.subrange(2, 4) =~= bytes16(e.len() as u16));
    lemma_read_back16(data, 2, e.len() as u16);
    assert(data.subrange(4, 4int + e.len()) =~= e);
    if e.len() == 0 {
        assert(e =~= Seq::<u8>::empty());
        assert(decode_utf8(Seq::<u8>::empty()).len() == 0);
    }
}

} // verus!
