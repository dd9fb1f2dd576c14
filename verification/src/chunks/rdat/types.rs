//! Runtime data structures.
use vstd::prelude::*;

verus! {

/// RDAT version constant (version 1.0).
pub const RDAT_VERSION_10: u32 = 0x10;

/// Known RDAT part types.
#[derive(Debug, Clone, Copy, PartialEq, Eq, Structural)]
pub enum PartType {
    /// Invalid or sentinel.
    Invalid,
    /// Shared null-terminated string buffer.
    StringBuffer,
    /// Index arrays (offset to count and indices).
    IndexArrays,
    /// Resource binding table.
    ResourceTable,
    /// Function (entry point) table.
    FunctionTable,
    /// Raw bytes blob.
    RawBytes,
    /// DXR or pipeline subobject table.
    SubobjectTable,
    /// Work-graph node ID table.
    NodeIDTable,
    /// Work-graph node shader I/O attribute table.
    NodeShaderIOAttribTable,
    /// Work-graph node shader function attribute table.
    NodeShaderFuncAttribTable,
    /// Work-graph I/O node table.
    IONodeTable,
    /// Work-graph node shader info table.
    NodeShaderInfoTable,
}

impl PartType {
    /// The part type of a stored value, where it is a known one.
    pub open spec fn of(v: u32) -> Option<PartType> {
        if v == 0 { Some(PartType::Invalid) }
        else if v == 1 { Some(PartType::StringBuffer) }
        else if v == 2 { Some(PartType::IndexArrays) }
        else if v == 3 { Some(PartType::ResourceTable) }
        else if v == 4 { Some(PartType::FunctionTable) }
        else if v == 5 { Some(PartType::RawBytes) }
        else if v == 6 { Some(PartType::SubobjectTable) }
        else if v == 7 { Some(PartType::NodeIDTable) }
        else if v == 8 { Some(PartType::NodeShaderIOAttribTable) }
        else if v == 9 { Some(PartType::NodeShaderFuncAttribTable) }
        else if v == 10 { Some(PartType::IONodeTable) }
        else if v == 11 { Some(PartType::NodeShaderInfoTable) }
        else { None }
    }

    /// The value a part type is stored as.
    pub open spec fn raw(self) -> u32 {
        match self {
            PartType::Invalid => 0,
            PartType::StringBuffer => 1,
            PartType::IndexArrays => 2,
            PartType::ResourceTable => 3,
            PartType::FunctionTable => 4,
            PartType::RawBytes => 5,
            PartType::SubobjectTable => 6,
            PartType::NodeIDTable => 7,
            PartType::NodeShaderIOAttribTable => 8,
            PartType::NodeShaderFuncAttribTable => 9,
            PartType::IONodeTable => 10,
            PartType::NodeShaderInfoTable => 11,
        }
    }

    /// A part of this type is a table of records.
    pub open spec fn holds_records(self) -> bool {
        match self {
            PartType::ResourceTable | PartType::FunctionTable | PartType::SubobjectTable | PartType::NodeIDTable | PartType::NodeShaderIOAttribTable | PartType::NodeShaderFuncAttribTable | PartType::IONodeTable | PartType::NodeShaderInfoTable => true,
            _ => false,
        }
    }

    /// What a part type is called.
    pub open spec fn name_text(self) -> Seq<char> {
        match self {
            PartType::Invalid => "Invalid"@,
            PartType::StringBuffer => "StringBuffer"@,
            PartType::IndexArrays => "IndexArrays"@,
            PartType::ResourceTable => "ResourceTable"@,
            PartType::FunctionTable => "FunctionTable"@,
            PartType::RawBytes => "RawBytes"@,
            PartType::SubobjectTable => "SubobjectTable"@,
            PartType::NodeIDTable => "NodeIDTable"@,
            PartType::NodeShaderIOAttribTable => "NodeShaderIOAttribTable"@,
            PartType::NodeShaderFuncAttribTable => "NodeShaderFuncAttribTable"@,
            PartType::IONodeTable => "IONodeTable"@,
            PartType::NodeShaderInfoTable => "NodeShaderInfoTable"@,
        }
    }

    /// Converts a stored part type value to the corresponding variant.
    pub fn from_u32(v: u32) -> (r: Option<Self>)
        ensures
            r == PartType::of(v),
    {
        match v {
            0 => Some(PartType::Invalid),
            1 => Some(PartType::StringBuffer),
            2 => Some(PartType::IndexArrays),
            3 => Some(PartType::ResourceTable),
            4 => Some(PartType::FunctionTable),
            5 => Some(PartType::RawBytes),
            6 => Some(PartType::SubobjectTable),
            7 => Some(PartType::NodeIDTable),
            8 => Some(PartType::NodeShaderIOAttribTable),
            9 => Some(PartType::NodeShaderFuncAttribTable),
            10 => Some(PartType::IONodeTable),
            11 => Some(PartType::NodeShaderInfoTable),
            _ => None,
        }
    }

    /// Whether this part type uses the record-table layout (count and stride followed by records).
    pub fn is_record_table(self) -> (r: bool)
        ensures
            r == self.holds_records(),
    {
        match self {
            PartType::ResourceTable | PartType::FunctionTable | PartType::SubobjectTable | PartType::NodeIDTable | PartType::NodeShaderIOAttribTable | PartType::NodeShaderFuncAttribTable | PartType::IONodeTable | PartType::NodeShaderInfoTable => true,
            _ => false,
        }
    }

    /// The display name of this part type.
    pub fn name(self) -> (r: &'static str)
        ensures
            r@ == self.name_text(),
    {
        match self {
            PartType::Invalid => "Invalid",
            PartType::StringBuffer => "StringBuffer",
            PartType::IndexArrays => "IndexArrays",
            PartType::ResourceTable => "ResourceTable",
            PartType::FunctionTable => "FunctionTable",
            PartType::RawBytes => "RawBytes",
            PartType::SubobjectTable => "SubobjectTable",
            PartType::NodeIDTable => "NodeIDTable",
            PartType::NodeShaderIOAttribTable => "NodeShaderIOAttribTable",
            PartType::NodeShaderFuncAttribTable => "NodeShaderFuncAttribTable",
            PartType::IONodeTable => "IONodeTable",
            PartType::NodeShaderInfoTable => "NodeShaderInfoTable",
        }
    }
}

/// A stored part type keeps its value.
pub proof fn law_part_type_comes_back(t: PartType)
    ensures
        PartType::of(t.raw()) == Some(t),
{
}

/// A parsed RDAT part.
#[derive(Debug, Clone)]
pub enum RdatPart {
    /// Shared string buffer (null-terminated UTF-8 strings).
    StringBuffer(Vec<u8>),
    /// Index arrays. Each row is accessed via an offset; there, the first number is the count, followed by
    /// as many index values.
    IndexArrays(Vec<u32>),
    /// Raw bytes blob used for inline data (root signatures and the like).
    RawBytes(Vec<u8>),
    /// A record table: stride and opaque record blobs.
    RecordTable {
        /// The stored part type.
        part_type: u32,
        /// Byte stride of each record.
        record_stride: u32,
        /// Opaque record blobs (each `record_stride` bytes).
        records: Vec<Vec<u8>>,
    },
    /// Unrecognised part, kept as it is.
    Unknown {
        /// The stored part type.
        part_type: u32,
        /// The part's data.
        data: Vec<u8>,
    },
}

/// Fully parsed RDAT (Runtime Data) chunk.
#[derive(Debug, Clone)]
pub struct RuntimeData {
    /// RDAT version (typically 0x10), nought for the legacy layout.
    pub version: u32,
    /// Parsed parts in order.
    pub parts: Vec<RdatPart>,
}

/// What a part holds.
#[verifier::ext_equal]
pub enum PartModel {
    StringBuffer(Seq<u8>),
    IndexArrays(Seq<u32>),
    RawBytes(Seq<u8>),
    RecordTable { part_type: u32, record_stride: u32, records: Seq<Seq<u8>> },
    Unknown { part_type: u32, data: Seq<u8> },
}

/// What each record of a list holds.
pub open spec fn record_models(records: Seq<Vec<u8>>) -> Seq<Seq<u8>> {
    Seq::new(records.len(), |i: int| records[i]@)
}

impl RdatPart {
    /// What the part holds.
    pub open spec fn view(&self) -> PartModel {
        match *self {
            RdatPart::StringBuffer(buf) => PartModel::StringBuffer(buf@),
            RdatPart::IndexArrays(indices) => PartModel::IndexArrays(indices@),
            RdatPart::RawBytes(buf) => PartModel::RawBytes(buf@),
            RdatPart::RecordTable { part_type, record_stride, records } => PartModel::RecordTable {
                part_type,
                record_stride,
                records: record_models(records@),
            },
            RdatPart::Unknown { part_type, data } => PartModel::Unknown { part_type, data: data@ },
        }
    }
}

/// What each part of a list holds.
pub open spec fn part_models(parts: Seq<RdatPart>) -> Seq<PartModel> {
    Seq::new(parts.len(), |i: int| parts[i]@)
}

} // verus!
