//! RDAT chunk: runtime data (SM6.1+), a table of parts.
use self::types::{part_models, PartModel, PartType, RdatPart, RuntimeData, RDAT_VERSION_10};
use crate::text::{cat3, cat5, cat7, dec, decimal, hex_fixed_upper, hexadecimal_fixed_upper};
use vstd::prelude::*;

pub mod parse;
pub mod types;
pub mod write;

verus! {

/// What a stored part type is called.
pub open spec fn part_name(part_type: u32) -> Seq<char> {
    match PartType::of(part_type) {
        Some(t) => t.name_text(),
        None => "Unknown"@,
    }
}

/// A part in words.
pub open spec fn part_line(at: nat, part: PartModel) -> Seq<char> {
    "//   ["@ + dec(at) + (match part {
        PartModel::StringBuffer(buf) => "] StringBuffer ("@ + dec(buf.len()) + " bytes)\n"@,
        PartModel::IndexArrays(indices) => "] IndexArrays ("@ + dec(indices.len()) + " u32s)\n"@,
        PartModel::RawBytes(buf) => "] RawBytes ("@ + dec(buf.len()) + " bytes)\n"@,
        PartModel::RecordTable { part_type, record_stride, records } => "] "@ + part_name(part_type) + " ("@ + dec(
            records.len(),
        ) + " records, stride "@ + dec(record_stride as nat) + ")\n"@,
        PartModel::Unknown { part_type, data } => "] Unknown(0x"@ + hex_fixed_upper(part_type as nat, 8) + ") ("@ + dec(
            data.len(),
        ) + " bytes)\n"@,
    })
}

/// The first `n` parts in words, a line each.
pub open spec fn part_lines(parts: Seq<PartModel>, n: nat) -> Seq<char>
    decreases n,
{
    if n == 0 {
        Seq::empty()
    } else {
        part_lines(parts, (n - 1) as nat) + part_line((n - 1) as nat, parts[n - 1])
    }
}

fn format_part(at: usize, part: &RdatPart) -> (r: String)
    ensures
        r@ == part_line(at as nat, part@),
{
    let held = match part {
        RdatPart::StringBuffer(buf) => {
            let n = decimal(buf.len() as u64);
            cat3("] StringBuffer (", n.as_str(), " bytes)\n")
        },
        RdatPart::IndexArrays(indices) => {
            let n = decimal(indices.len() as u64);
            cat3("] IndexArrays (", n.as_str(), " u32s)\n")
        },
        RdatPart::RawBytes(buf) => {
            let n = decimal(buf.len() as u64);
            cat3("] RawBytes (", n.as_str(), " bytes)\n")
        },
        RdatPart::RecordTable { part_type, record_stride, records } => {
            let name = match PartType::from_u32(*part_type) {
                Some(t) => t.name(),
                None => "Unknown",
            };
            let n = decimal(records.len() as u64);
            let stride = decimal(*record_stride as u64);
            cat7("] ", name, " (", n.as_str(), " records, stride ", stride.as_str(), ")\n")
        },
        RdatPart::Unknown { part_type, data } => {
            let kind = hexadecimal_fixed_upper(*part_type as u64, 8);
            let n = decimal(data.len() as u64);
            cat5("] Unknown(0x", kind.as_str(), ") (", n.as_str(), " bytes)\n")
        },
    };
    let index = decimal(at as u64);
    cat3("//   [", index.as_str(), held.as_str())
}

impl RuntimeData {
    /// The tag the chunk goes under.
    pub fn fourcc(&self) -> (r: [u8; 4])
        ensures
            r == [0x52u8, 0x44, 0x41, 0x54],
    {
        [0x52u8, 0x44, 0x41, 0x54]
    }

    /// The payload in the layout that the version calls for.
    pub fn write_payload(&self) -> (r: Vec<u8>)
        requires
            self::write::countable(part_models(self.parts@)),
        ensures
            r@ == self::write::rdat_bytes(self.version, part_models(self.parts@)),
    {
        self::write::write_rdat(self)
    }

    /// The chunk in words.
    pub open spec fn text_spec(self) -> Seq<char> {
        "// Runtime Data ("@ + (if self.version >= RDAT_VERSION_10 {
            "v1.0"@
        } else {
            "legacy"@
        }) + "): "@ + dec(self.parts@.len()) + " part(s)\n"@ + part_lines(part_models(self.parts@), self.parts@.len())
    }

    /// The chunk in words: its layout and its parts.
    pub fn text(&self) -> (r: String)
        ensures
            r@ == self.text_spec(),
    {
        let ver = if self.version >= RDAT_VERSION_10 {
            "v1.0"
        } else {
            "legacy"
        };
        let count = decimal(self.parts.len() as u64);
        let head = cat5("// Runtime Data (", ver, "): ", count.as_str(), " part(s)\n");
        let ghost all = part_models(self.parts@);
        let mut lines = String::new();
        let mut i: usize = 0;
        proof {
            assert(lines@ =~= part_lines(all, 0));
        }
        while i < self.parts.len()
            invariant
                i <= self.parts@.len(),
                all == part_models(self.parts@),
                lines@ == part_lines(all, i as nat),
            decreases self.parts@.len() - i,
        {
            let line = format_part(i, &self.parts[i]);
            lines.push_str(line.as_str());
            i = i + 1;
        }
        crate::text::cat2(head.as_str(), lines.as_str())
    }
}

} // verus!
