//! LIBH chunk: top-level metadata of a shader library.
use crate::bytes::copied;
use crate::text::{cat3, dec, decimal};
use vstd::prelude::*;

verus! {

/// Parsed LIBH (library header) chunk.
#[derive(Debug, Clone)]
pub struct LibraryHeader {
    /// Total size of the chunk payload in bytes.
    pub size: usize,
    /// The chunk payload as it is.
    pub raw: Vec<u8>,
}

/// Parse a LIBH chunk: the payload is kept as it is.
pub fn parse_libh(data: &[u8]) -> (r: Option<LibraryHeader>)
    ensures
        r matches Some(v) && v.size == data@.len() && v.raw@ == data@,
{
    Some(LibraryHeader { size: data.len(), raw: copied(data) })
}

impl LibraryHeader {
    /// The tag the chunk goes under.
    pub fn fourcc(&self) -> (r: [u8; 4])
        ensures
            r == [0x4cu8, 0x49, 0x42, 0x48],
    {
        [0x4cu8, 0x49, 0x42, 0x48]
    }

    /// The payload as it was read.
    pub fn write_payload(&self) -> (r: Vec<u8>)
        ensures
            r@ == self.raw@,
    {
        copied(self.raw.as_slice())
    }

    /// The chunk in words.
    pub fn text(&self) -> (r: String)
        ensures
            r@ == "// Library Header: "@ + dec(self.size as nat) + " bytes\n"@,
    {
        let size = decimal(self.size as u64);
        cat3("// Library Header: ", size.as_str(), " bytes\n")
    }
}

} // verus!
