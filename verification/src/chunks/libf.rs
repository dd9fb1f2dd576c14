//! LIBF chunk: the table of functions that a shader library exports.
use crate::bytes::{copied, read_u32};
use crate::text::{cat2, cat5, dec, decimal};
use vstd::prelude::*;

verus! {

/// Parsed LIBF (library function table) chunk.
#[derive(Debug, Clone)]
pub struct LibraryFunction {
    /// Number of exported functions (first word), where the payload has one.
    pub function_count: Option<u32>,
    /// Total size of the chunk payload in bytes.
    pub size: usize,
    /// The chunk payload as it is.
    pub raw: Vec<u8>,
}

/// Parse a LIBF chunk: the payload is kept, and its first word is the count where it has one.
pub fn parse_libf(data: &[u8]) -> (r: Option<LibraryFunction>)
    ensures
        r matches Some(v) && v.function_count == crate::bytes::read32(data@, 0) && v.size == data@.len() && v.raw@ == data@,
{
    let function_count = read_u32(data, 0);
    Some(LibraryFunction { function_count, size: data.len(), raw: copied(data) })
}

impl LibraryFunction {
    /// The tag the chunk goes under.
    pub fn fourcc(&self) -> (r: [u8; 4])
        ensures
            r == [0x4cu8, 0x49, 0x42, 0x46],
    {
        [0x4cu8, 0x49, 0x42, 0x46]
    }

    /// The payload as it was read.
    pub fn write_payload(&self) -> (r: Vec<u8>)
        ensures
            r@ == self.raw@,
    {
        copied(self.raw.as_slice())
    }

    /// The chunk in words.
    pub open spec fn text_spec(self) -> Seq<char> {
        "// Library Functions: "@ + (match self.function_count {
            Some(n) => dec(n as nat) + " entries"@,
            None => "empty"@,
        }) + " ("@ + dec(self.size as nat) + " bytes)\n"@
    }

    /// The chunk in words.
    pub fn text(&self) -> (r: String)
        ensures
            r@ == self.text_spec(),
    {
        let held = match self.function_count {
            Some(n) => {
                let d = decimal(n as u64);
                cat2(d.as_str(), " entries")
            },
            None => "empty".to_owned(),
        };
        let size = decimal(self.size as u64);
        cat5("// Library Functions: ", held.as_str(), " (", size.as_str(), " bytes)\n")
    }
}

} // verus!
