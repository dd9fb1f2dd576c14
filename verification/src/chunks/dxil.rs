//! DXIL chunk: SM6.0+ shader bytecode.
//!
//! A program header (version word, size in words) is followed by a bitcode header (magic, version, offset
//! from itself, size) and the bitcode, which is kept but not read.
use crate::bytes::{
    copied_span, flat, le32, lemma_flat_len, lemma_flat_reads, padding4, push_all, push_words, push_zeros, read_u32, zeros,
};
use crate::text::{cat7, cat3, dec, decimal};
use vstd::prelude::*;

verus! {

/// Magic value for the bitcode header (`DXIL`).
pub const DXIL_MAGIC: u32 = 0x4C49_5844;

/// Parsed DXIL chunk: header fields and raw bitcode.
#[derive(Debug, Clone)]
pub struct DxilData {
    /// Shader kind from the program version (0 for pixel, 1 for vertex, and so on).
    pub shader_kind: u16,
    /// Shader Model major version.
    pub major_version: u8,
    /// Shader Model minor version.
    pub minor_version: u8,
    /// DXIL version field from the bitcode header.
    pub dxil_version: u32,
    /// LLVM bitcode payload. Replace this to swap the IL.
    pub bitcode: Vec<u8>,
}

/// Where the bitcode starts.
pub open spec fn bitcode_start(data: Seq<u8>) -> int {
    8 + le32(data, 16)
}

/// Where the bitcode ends.
pub open spec fn bitcode_end(data: Seq<u8>) -> int {
    bitcode_start(data) + le32(data, 20)
}

/// The data is a DXIL chunk: it has both headers and the magic, and the bitcode lies within it.
pub open spec fn is_dxil(data: Seq<u8>) -> bool {
    data.len() >= 24 && le32(data, 8) == DXIL_MAGIC && bitcode_end(data) <= data.len()
}

/// What a chunk with these bytes holds.
pub open spec fn holds(v: DxilData, data: Seq<u8>) -> bool {
    &&& v.shader_kind == le32(data, 0) / 65536
    &&& v.major_version == (le32(data, 0) / 16) % 16
    &&& v.minor_version == le32(data, 0) % 16
    &&& v.dxil_version == le32(data, 12)
    &&& v.bitcode@ == data.subrange(bitcode_start(data), bitcode_end(data))
}

/// Parse a DXIL chunk.
pub fn parse_dxil(data: &[u8]) -> (r: Option<DxilData>)
    ensures
        match r {
            Some(v) => is_dxil(data@) && holds(v, data@),
            None => !is_dxil(data@),
        },
{
    if data.len() < 0x18 {
        return None;
    }
    let version: u32 = read_u32(data, 0)?;
    let magic: u32 = read_u32(data, 8)?;
    if magic != DXIL_MAGIC {
        return None;
    }
    let dxil_version: u32 = read_u32(data, 12)?;
    let offset: u32 = read_u32(data, 16)?;
    let size: u32 = read_u32(data, 20)?;
    let start: u64 = 8 + offset as u64;
    let end: u64 = start + size as u64;
    if end > data.len() as u64 {
        return None;
    }
    Some(
        DxilData {
            shader_kind: (version / 65536) as u16,
            major_version: ((version / 16) % 16) as u8,
            minor_version: (version % 16) as u8,
            dxil_version,
            bitcode: copied_span(data, start as usize, end as usize),
        },
    )
}

impl DxilData {
    /// The version word: kind, major and minor version in one.
    pub open spec fn version_word(self) -> u32 {
        (self.shader_kind as u32) << 16 | (self.major_version as u32) << 4 | (self.minor_version as u32)
    }

    /// Both headers.
    pub open spec fn header(self) -> Seq<u32> {
        seq![
            self.version_word(),
            ((24 + self.bitcode@.len() + 3) / 4) as u32,
            DXIL_MAGIC,
            self.dxil_version,
            16,
            self.bitcode@.len() as u32,
        ]
    }

    /// The payload: both headers with correct sizes, the bitcode, and zeros up to a whole word.
    pub open spec fn payload(self) -> Seq<u8> {
        flat(self.header()) + self.bitcode@ + zeros(padding4(self.bitcode@.len()))
    }

    /// The tag the chunk goes under.
    pub fn fourcc(&self) -> (r: [u8; 4])
        ensures
            r == [0x44u8, 0x58, 0x49, 0x4c],
    {
        [0x44u8, 0x58, 0x49, 0x4c]
    }

    /// The payload: both headers with correct sizes, the bitcode, and zeros up to a whole word.
    pub fn write_payload(&self) -> (r: Vec<u8>)
        requires
            self.bitcode@.len() + 24 <= usize::MAX,
        ensures
            r@ == self.payload(),
    {
        let len: usize = self.bitcode.len();
        let total: usize = 24 + len;
        let words: usize = total / 4 + (if total % 4 != 0 {
            1
        } else {
            0
        });
        let version: u32 = (self.shader_kind as u32) << 16 | (self.major_version as u32) << 4 | (
        self.minor_version as u32);
        let head: [u32; 6] = [version, words as u32, DXIL_MAGIC, self.dxil_version, 16, len as u32];
        let mut out: Vec<u8> = Vec::new();
        push_words(&mut out, &head);
        push_all(&mut out, self.bitcode.as_slice());
        push_zeros(&mut out, (4 - len % 4) % 4);
        proof {
            assert(head@ =~= self.header());
            assert(out@ =~= self.payload());
        }
        out
    }

    /// The chunk in words.
    pub open spec fn text_spec(self) -> Seq<char> {
        "// DXIL: SM"@ + dec(self.major_version as nat) + "."@ + dec(self.minor_version as nat) + ", kind="@ + dec(
            self.shader_kind as nat,
        ) + ", bitcode="@ + dec(self.bitcode@.len()) + " bytes\n"@
    }

    /// The chunk in words.
    pub fn text(&self) -> (r: String)
        ensures
            r@ == self.text_spec(),
    {
        let major = decimal(self.major_version as u64);
        let minor = decimal(self.minor_version as u64);
        let kind = decimal(self.shader_kind as u64);
        let size = decimal(self.bitcode.len() as u64);
        let head = cat7("// DXIL: SM", major.as_str(), ".", minor.as_str(), ", kind=", kind.as_str(), ", bitcode=");
        cat3(head.as_str(), size.as_str(), " bytes\n")
    }
}

proof fn lemma_version_fields(kind: u32, major: u32, minor: u32)
    by (bit_vector)
    requires
        kind < 65536,
        major < 16,
        minor < 16,
    ensures
        ((kind << 16) | (major << 4) | minor) / 65536 == kind,
        (((kind << 16) | (major << 4) | minor) / 16) % 16 == major,
        ((kind << 16) | (major << 4) | minor) % 16 == minor,
{
}

/// Parsing what was written gives the chunk back, where the versions fit their fields and the bitcode's size
/// fits its word.
pub proof fn law_dxil_comes_back(v: DxilData)
    requires
        v.major_version < 16,
        v.minor_version < 16,
        v.bitcode@.len() <= u32::MAX,
    ensures
        is_dxil(v.payload()),
        holds(v, v.payload()),
{
    let data = v.payload();
    let rest = v.bitcode@ + zeros(padding4(v.bitcode@.len()));
    let words = v.header();
    lemma_flat_len(words);
    assert(data =~= Seq::<u8>::empty() + flat(words) + rest);
    lemma_flat_reads(Seq::empty(), words, rest);
    assert(le32(data, 4int * 0) == words[0]);
    assert(le32(data, 4int * 2) == words[2]);
    assert(le32(data, 4int * 3) == words[3]);
    assert(le32(data, 4int * 4) == words[4]);
    assert(le32(data, 4int * 5) == words[5]);
    lemma_version_fields(v.shader_kind as u32, v.major_version as u32, v.minor_version as u32);
    assert(data.subrange(bitcode_start(data), bitcode_end(data)) =~= v.bitcode@);
}

} // verus!
