//! LFS0 chunk: library function signatures, which the linker uses to validate calls across modules.
use crate::bytes::{copied, read_u32};
use crate::text::{cat2, cat5, dec, decimal};
use vstd::prelude::*;

verus! {

/// Parsed LFS0 (library function signatures) chunk.
#[derive(Debug, Clone)]
pub struct LibraryFunctionSignatures {
    /// Signature count (first word), where the payload has one.
    pub signature_count: Option<u32>,
    /// Total size of the chunk payload in bytes.
    pub size: usize,
    /// The chunk payload as it is.
    pub raw: Vec<u8>,
}

/// Parse an LFS0 chunk: the payload is kept, and its first word is the count where it has one.
pub fn parse_lfs0(data: &[u8]) -> (r: Option<LibraryFunctionSignatures>)
    ensures
        r matches Some(v) && v.signature_count == crate::bytes::read32(data@, 0) && v.size == data@.len() && v.raw@ == data@,
{
    let signature_count = read_u32(data, 0);
    Some(LibraryFunctionSignatures { signature_count, size: data.len(), raw: copied(data) })
}

impl LibraryFunctionSignatures {
    /// The tag the chunk goes under.
    pub fn fourcc(&self) -> (r: [u8; 4])
        ensures
            r == [0x4cu8, 0x46, 0x53, 0x30],
    {
        [0x4cu8, 0x46, 0x53, 0x30]
    }

    /// The payload as it was read.
    pub fn write_payload(&self) -> (r: Vec<u8>)
        ensures
            r@ == self.raw@,
    {
        copied(self.raw.as_slice())
    }

    /// The chunk in words.
    pub open spec fn text_spec(self) -> Seq<char> {
        "// Library Function Signatures: "@ + (match self.signature_count {
            Some(n) => dec(n as nat) + " entries"@,
            None => "empty"@,
        }) + " ("@ + dec(self.size as nat) + " bytes)\n"@
    }

    /// The chunk in words.
    pub fn text(&self) -> (r: String)
        ensures
            r@ == self.text_spec(),
    {
        let held = match self.signature_count {
            Some(n) => {
                let d = decimal(n as u64);
                cat2(d.as_str(), " entries")
            },
            None => "empty".to_owned(),
        };
        let size = decimal(self.size as u64);
        cat5("// Library Function Signatures: ", held.as_str(), " (", size.as_str(), " bytes)\n")
    }
}

} // verus!
