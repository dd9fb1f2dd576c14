//! PRIV chunk: tool-specific private data, which may start with a GUID that identifies the tool.
use crate::bytes::copied;
use crate::text::{cat3, dec, decimal, hex_fixed, hexadecimal_fixed};
use vstd::prelude::*;

verus! {

/// Parsed PRIV (private data) chunk.
#[derive(Debug, Clone)]
pub struct PrivateData {
    /// First 16 bytes (GUID) if present.
    pub guid: Option<[u8; 16]>,
    /// The chunk payload as it is.
    pub raw: Vec<u8>,
}

/// Parse a PRIV chunk: the payload is kept, and its first sixteen bytes are the GUID where it has them.
pub fn parse_priv(data: &[u8]) -> (r: Option<PrivateData>)
    ensures
        r matches Some(v) && v.raw@ == data@ && match v.guid {
            Some(g) => data@.len() >= 16 && g@ == data@.take(16),
            None => data@.len() < 16,
        },
{
    let guid = if data.len() >= 16 {
        let g: [u8; 16] = [
            data[0], data[1], data[2], data[3], data[4], data[5], data[6], data[7], data[8], data[9], data[10], data[11],
            data[12], data[13], data[14], data[15],
        ];
        proof {
            assert(g@ =~= data@.take(16));
        }
        Some(g)
    } else {
        None
    };
    Some(PrivateData { guid, raw: copied(data) })
}

/// The bytes from one place to another, two hex digits each.
pub open spec fn hex_run(bytes: Seq<u8>, from: int, to: int) -> Seq<char>
    decreases to - from,
{
    if from >= to {
        Seq::empty()
    } else {
        hex_run(bytes, from, to - 1) + hex_fixed(bytes[to - 1] as nat, 2)
    }
}

fn push_hex_run(out: &mut String, bytes: &[u8; 16], from: usize, to: usize)
    requires
        from <= to <= 16,
    ensures
        final(out)@ == old(out)@ + hex_run(bytes@, from as int, to as int),
{
    let ghost start = out@;
    let mut i: usize = from;
    proof {
        assert(out@ =~= start + hex_run(bytes@, from as int, from as int));
    }
    while i < to
        invariant
            from <= i <= to <= 16,
            out@ == start + hex_run(bytes@, from as int, i as int),
        decreases to - i,
    {
        let h = hexadecimal_fixed(bytes[i] as u64, 2);
        out.push_str(h.as_str());
        i = i + 1;
        proof {
            assert(out@ =~= start + hex_run(bytes@, from as int, i as int));
        }
    }
}

/// A GUID as it is usually written.
pub open spec fn guid_text(g: [u8; 16]) -> Seq<char> {
    hex_run(g@, 0, 4) + "-"@ + hex_run(g@, 4, 6) + "-"@ + hex_run(g@, 6, 8) + "-"@ + hex_run(g@, 8, 10) + "-"@ + hex_run(g@, 10, 16)
}

fn format_guid(g: &[u8; 16]) -> (r: String)
    ensures
        r@ == guid_text(*g),
{
    let mut out = String::new();
    push_hex_run(&mut out, g, 0, 4);
    out.push_str("-");
    push_hex_run(&mut out, g, 4, 6);
    out.push_str("-");
    push_hex_run(&mut out, g, 6, 8);
    out.push_str("-");
    push_hex_run(&mut out, g, 8, 10);
    out.push_str("-");
    push_hex_run(&mut out, g, 10, 16);
    proof {
        assert(out@ =~= guid_text(*g));
    }
    out
}

impl PrivateData {
    /// The tag the chunk goes under.
    pub fn fourcc(&self) -> (r: [u8; 4])
        ensures
            r == [0x50u8, 0x52, 0x49, 0x56],
    {
        [0x50u8, 0x52, 0x49, 0x56]
    }

    /// The payload as it was read.
    pub fn write_payload(&self) -> (r: Vec<u8>)
        ensures
            r@ == self.raw@,
    {
        copied(self.raw.as_slice())
    }

    /// The chunk in words.
    pub open spec fn text_spec(self) -> Seq<char> {
        "// Private Data: "@ + dec(self.raw@.len()) + " bytes"@ + (match self.guid {
            Some(g) => " (GUID: "@ + guid_text(g) + ")"@,
            None => ""@,
        }) + "\n"@
    }

    /// The chunk in words.
    pub fn text(&self) -> (r: String)
        ensures
            r@ == self.text_spec(),
    {
        let size = decimal(self.raw.len() as u64);
        let guid = match &self.guid {
            Some(g) => {
                let held = format_guid(g);
                cat3(" (GUID: ", held.as_str(), ")")
            },
            None => "".to_owned(),
        };
        let head = cat3("// Private Data: ", size.as_str(), " bytes");
        cat3(head.as_str(), guid.as_str(), "\n")
    }
}

} // verus!
