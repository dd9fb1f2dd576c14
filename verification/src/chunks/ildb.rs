//! ILDB chunk: an embedded debug data blob, whose contents are kept but not read.
use crate::bytes::copied;
use crate::text::{cat3, dec, decimal};
use vstd::prelude::*;

verus! {

/// Parsed ILDB (debug data) chunk.
#[derive(Debug, Clone)]
pub struct DebugData {
    /// The chunk payload as it is.
    pub raw: Vec<u8>,
}

/// Parse an ILDB chunk: the payload is kept as it is.
pub fn parse_ildb(data: &[u8]) -> (r: Option<DebugData>)
    ensures
        r matches Some(v) && v.raw@ == data@,
{
    Some(DebugData { raw: copied(data) })
}

impl DebugData {
    /// The tag the chunk goes under.
    pub fn fourcc(&self) -> (r: [u8; 4])
        ensures
            r == [0x49u8, 0x4c, 0x44, 0x42],
    {
        [0x49u8, 0x4c, 0x44, 0x42]
    }

    /// The payload as it was read.
    pub fn write_payload(&self) -> (r: Vec<u8>)
        ensures
            r@ == self.raw@,
    {
        copied(self.raw.as_slice())
    }

    /// The chunk in words.
    pub fn text(&self) -> (r: String)
        ensures
            r@ == "// Debug Data: "@ + dec(self.raw@.len()) + " bytes\n"@,
    {
        let size = decimal(self.raw.len() as u64);
        cat3("// Debug Data: ", size.as_str(), " bytes\n")
    }
}

} // verus!
