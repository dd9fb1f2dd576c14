//! Input, output and patch-constant signatures (ISGN, OSGN, PCSG, ISG1, OSG1, PSG1, OSG5).
use super::WritableChunk;
use crate::bytes::{
    bytes32, flat, le32, lemma_flat_len, lemma_flat_reads, lemma_read_back32, push32, push_all, push_words, read_u32,
    read_u8,
};
use crate::shex::fmt::mask_text;
use crate::text::{align_left, align_right, cat2, cat3, cat4, cat5, dec, decimal, left_aligned, right_aligned, same};
use crate::util::{
    added_all, cstring, lemma_added_all_place, lemma_added_all_wf, lemma_cstring_null_free, lemma_place_stands,
    lemma_standing_text_reads, null_free, place, read_cstring, stands, utf8_text, StringTable, StringTableWriter,
};
use vstd::prelude::*;
use vstd::utf8::{decode_utf8, valid_utf8};

verus! {

/// A parsed signature chunk under the FourCC it came under.
///
/// Different FourCCs use different binary layouts, so `ISG1` stays `ISG1` when it is written.
#[derive(Debug)]
pub struct Signature {
    /// The FourCC (`ISGN`, `ISG1`, `OSG5`, `OSGN`, `PCSG`, `PSG1`).
    pub fourcc: [u8; 4],
    /// The elements in order.
    pub elements: Vec<SignatureElement>,
}

/// Which binary layout a chunk uses.
#[derive(Debug, Clone, Copy, PartialEq, Eq, Structural)]
pub enum SignatureVersion {
    /// ISGN, OSGN and PCSG: 24 bytes per element.
    V0,
    /// OSG5: 28 bytes per element (prepends `stream`).
    V5,
    /// ISG1, OSG1 and PSG1: 32 bytes per element (prepends `stream`, appends `min_precision`).
    V1,
}

/// Minimum precision hint (ISG1, OSG1 and PSG1 only).
#[derive(Debug, Clone, Copy, PartialEq, Eq, Structural)]
pub enum MinPrecision {
    /// Default (full) precision.
    Default,
    /// 16-bit float minimum precision.
    Float16,
    /// 2.8 fixed-point float minimum precision.
    Float2_8,
    /// Reserved value.
    Reserved,
    /// 16-bit signed integer minimum precision.
    SInt16,
    /// 16-bit unsigned integer minimum precision.
    UInt16,
    /// Any 16-bit precision.
    Any16,
    /// Any 10-bit precision.
    Any10,
    /// Unrecognised minimum precision (raw value preserved).
    Unknown(u32),
}

/// Component data type for signature elements.
#[derive(Debug, Clone, Copy, PartialEq, Eq, Structural)]
pub enum ComponentType {
    /// Unknown or unspecified.
    Unknown,
    /// 32-bit unsigned integer.
    UInt,
    /// 32-bit signed integer.
    Int,
    /// 32-bit IEEE float.
    Float,
    /// 16-bit unsigned integer.
    UInt16,
    /// 16-bit signed integer.
    Int16,
    /// 16-bit IEEE float (half).
    Float16,
    /// 64-bit unsigned integer.
    UInt64,
    /// 64-bit signed integer.
    Int64,
    /// 64-bit double-precision float.
    Float64,
}

/// A parsed input or output signature element.
#[derive(Debug)]
pub struct SignatureElement {
    /// Semantic name (`POSITION`, `TEXCOORD`).
    pub semantic_name: String,
    /// Semantic index (`1` for `TEXCOORD1`).
    pub semantic_index: u32,
    /// System-value semantic (0 for none).
    pub system_value: u32,
    /// Component data type as it is stored.
    pub component_type: u32,
    /// Register number (`v#` for inputs, `o#` for outputs).
    pub register: u32,
    /// Write mask: which `.xyzw` components are written.
    pub mask: u8,
    /// Read/write mask: which components are actually read or written.
    pub rw_mask: u8,
    /// Output stream index (OSG5, ISG1, OSG1 and PSG1 only).
    pub stream: Option<u32>,
    /// Minimum precision hint (ISG1, OSG1 and PSG1 only).
    pub min_precision: Option<MinPrecision>,
}

/// What a signature element holds.
pub struct ElementModel {
    pub semantic_name: Seq<char>,
    pub semantic_index: u32,
    pub system_value: u32,
    pub component_type: u32,
    pub register: u32,
    pub mask: u8,
    pub rw_mask: u8,
    pub stream: Option<u32>,
    pub min_precision: Option<MinPrecision>,
}

impl SignatureElement {
    /// What the element holds.
    pub open spec fn view(&self) -> ElementModel {
        ElementModel {
            semantic_name: self.semantic_name@,
            semantic_index: self.semantic_index,
            system_value: self.system_value,
            component_type: self.component_type,
            register: self.register,
            mask: self.mask,
            rw_mask: self.rw_mask,
            stream: self.stream,
            min_precision: self.min_precision,
        }
    }
}

/// What each element of a list holds.
pub open spec fn element_models(elements: Seq<SignatureElement>) -> Seq<ElementModel> {
    Seq::new(elements.len(), |i: int| elements[i]@)
}

impl SignatureVersion {
    /// The version of a FourCC.
    pub open spec fn of(fourcc: Seq<char>) -> SignatureVersion {
        if fourcc == "OSG5"@ {
            SignatureVersion::V5
        } else if fourcc == "ISG1"@ || fourcc == "OSG1"@ || fourcc == "PSG1"@ {
            SignatureVersion::V1
        } else {
            SignatureVersion::V0
        }
    }

    /// How many bytes an element takes.
    pub open spec fn width(self) -> nat {
        match self {
            SignatureVersion::V0 => 24,
            SignatureVersion::V5 => 28,
            SignatureVersion::V1 => 32,
        }
    }

    /// How many bytes stand before an element's name.
    pub open spec fn lead(self) -> nat {
        if self == SignatureVersion::V0 {
            0
        } else {
            4
        }
    }

    /// Derive the version from a FourCC string.
    pub fn from_fourcc(fourcc: &str) -> (r: Self)
        ensures
            r == SignatureVersion::of(fourcc@),
    {
        if same(fourcc, "OSG5") {
            SignatureVersion::V5
        } else if same(fourcc, "ISG1") || same(fourcc, "OSG1") || same(fourcc, "PSG1") {
            SignatureVersion::V1
        } else {
            SignatureVersion::V0
        }
    }

    fn stride(self) -> (r: usize)
        ensures
            r == self.width(),
    {
        match self {
            SignatureVersion::V0 => 24,
            SignatureVersion::V5 => 28,
            SignatureVersion::V1 => 32,
        }
    }

    fn has_stream(self) -> (r: bool)
        ensures
            r == (self != SignatureVersion::V0),
    {
        self != SignatureVersion::V0
    }

    fn has_min_precision(self) -> (r: bool)
        ensures
            r == (self == SignatureVersion::V1),
    {
        self == SignatureVersion::V1
    }
}

impl MinPrecision {
    /// The precision of a stored value.
    pub open spec fn of(v: u32) -> MinPrecision {
        if v == 0 { MinPrecision::Default }
        else if v == 1 { MinPrecision::Float16 }
        else if v == 2 { MinPrecision::Float2_8 }
        else if v == 3 { MinPrecision::Reserved }
        else if v == 4 { MinPrecision::SInt16 }
        else if v == 5 { MinPrecision::UInt16 }
        else if v == 0xf0 { MinPrecision::Any16 }
        else if v == 0xf1 { MinPrecision::Any10 }
        else { MinPrecision::Unknown(v) }
    }

    /// The value a precision is stored as.
    pub open spec fn raw(self) -> u32 {
        match self {
            MinPrecision::Default => 0,
            MinPrecision::Float16 => 1,
            MinPrecision::Float2_8 => 2,
            MinPrecision::Reserved => 3,
            MinPrecision::SInt16 => 4,
            MinPrecision::UInt16 => 5,
            MinPrecision::Any16 => 0xf0,
            MinPrecision::Any10 => 0xf1,
            MinPrecision::Unknown(x) => x,
        }
    }

    /// The precision of a stored value.
    pub fn from_u32(v: u32) -> (r: Self)
        ensures
            r == MinPrecision::of(v),
    {
        match v {
            0 => MinPrecision::Default,
            1 => MinPrecision::Float16,
            2 => MinPrecision::Float2_8,
            3 => MinPrecision::Reserved,
            4 => MinPrecision::SInt16,
            5 => MinPrecision::UInt16,
            0xf0 => MinPrecision::Any16,
            0xf1 => MinPrecision::Any10,
            x => MinPrecision::Unknown(x),
        }
    }

    /// The value a precision is stored as.
    pub fn to_u32(self) -> (r: u32)
        ensures
            r == self.raw(),
    {
        match self {
            MinPrecision::Default => 0,
            MinPrecision::Float16 => 1,
            MinPrecision::Float2_8 => 2,
            MinPrecision::Reserved => 3,
            MinPrecision::SInt16 => 4,
            MinPrecision::UInt16 => 5,
            MinPrecision::Any16 => 0xf0,
            MinPrecision::Any10 => 0xf1,
            MinPrecision::Unknown(x) => x,
        }
    }

    /// The hint in words.
    pub open spec fn text_spec(self) -> Seq<char> {
        match self {
            MinPrecision::Default => ""@,
            MinPrecision::Float16 => " [min16f]"@,
            MinPrecision::Float2_8 => " [min2_8f]"@,
            MinPrecision::Reserved => " [reserved]"@,
            MinPrecision::SInt16 => " [min16i]"@,
            MinPrecision::UInt16 => " [min16u]"@,
            MinPrecision::Any16 => " [any16]"@,
            MinPrecision::Any10 => " [any10]"@,
            MinPrecision::Unknown(v) => " [minprec="@ + dec(v as nat) + "]"@,
        }
    }

    /// The hint in words.
    pub fn text(&self) -> (r: String)
        ensures
            r@ == self.text_spec(),
    {
        match self {
            MinPrecision::Default => "".to_owned(),
            MinPrecision::Float16 => " [min16f]".to_owned(),
            MinPrecision::Float2_8 => " [min2_8f]".to_owned(),
            MinPrecision::Reserved => " [reserved]".to_owned(),
            MinPrecision::SInt16 => " [min16i]".to_owned(),
            MinPrecision::UInt16 => " [min16u]".to_owned(),
            MinPrecision::Any16 => " [any16]".to_owned(),
            MinPrecision::Any10 => " [any10]".to_owned(),
            MinPrecision::Unknown(v) => {
                let d = decimal(*v as u64);
                cat3(" [minprec=", d.as_str(), "]")
            },
        }
    }
}

/// A stored precision keeps its value.
pub proof fn law_min_precision_keeps_raw(v: u32)
    ensures
        MinPrecision::of(v).raw() == v,
{
}

impl ComponentType {
    /// The component type of a stored value, where it is one.
    pub open spec fn of(v: u32) -> Option<ComponentType> {
        if v == 0 { Some(ComponentType::Unknown) }
        else if v == 1 { Some(ComponentType::UInt) }
        else if v == 2 { Some(ComponentType::Int) }
        else if v == 3 { Some(ComponentType::Float) }
        else if v == 4 { Some(ComponentType::UInt16) }
        else if v == 5 { Some(ComponentType::Int16) }
        else if v == 6 { Some(ComponentType::Float16) }
        else if v == 7 { Some(ComponentType::UInt64) }
        else if v == 8 { Some(ComponentType::Int64) }
        else if v == 9 { Some(ComponentType::Float64) }
        else { None }
    }

    /// The lowercase type name.
    pub open spec fn name_text(self) -> Seq<char> {
        match self {
            ComponentType::Unknown => "unknown"@,
            ComponentType::UInt => "uint"@,
            ComponentType::Int => "int"@,
            ComponentType::Float => "float"@,
            ComponentType::UInt16 => "uint16"@,
            ComponentType::Int16 => "int16"@,
            ComponentType::Float16 => "float16"@,
            ComponentType::UInt64 => "uint64"@,
            ComponentType::Int64 => "int64"@,
            ComponentType::Float64 => "float64"@,
        }
    }

    /// The component type of a stored value, where it is one.
    pub fn from_u32(v: u32) -> (r: Option<Self>)
        ensures
            r == ComponentType::of(v),
    {
        match v {
            0 => Some(ComponentType::Unknown),
            1 => Some(ComponentType::UInt),
            2 => Some(ComponentType::Int),
            3 => Some(ComponentType::Float),
            4 => Some(ComponentType::UInt16),
            5 => Some(ComponentType::Int16),
            6 => Some(ComponentType::Float16),
            7 => Some(ComponentType::UInt64),
            8 => Some(ComponentType::Int64),
            9 => Some(ComponentType::Float64),
            _ => None,
        }
    }

    /// The lowercase type name used in disassembly output.
    pub fn name(self) -> (r: &'static str)
        ensures
            r@ == self.name_text(),
    {
        match self {
            ComponentType::Unknown => "unknown",
            ComponentType::UInt => "uint",
            ComponentType::Int => "int",
            ComponentType::Float => "float",
            ComponentType::UInt16 => "uint16",
            ComponentType::Int16 => "int16",
            ComponentType::Float16 => "float16",
            ComponentType::UInt64 => "uint64",
            ComponentType::Int64 => "int64",
            ComponentType::Float64 => "float64",
        }
    }
}

/// Number of decimal digits.
fn digit_count(n: u32) -> (r: usize)
    ensures
        r == dec(n as nat).len(),
        r <= 10,
{
    let mut left: u32 = n;
    let mut count: usize = 1;
    let ghost mut bound: nat = 10_000_000_000;
    while left >= 10
        invariant
            count + dec(left as nat).len() == 1 + dec(n as nat).len(),
            1 <= count,
            left < bound,
            count <= 10,
            bound == (if count == 1 { 10_000_000_000nat } else if count == 2 { 1_000_000_000 } else if count == 3 {
                100_000_000
            } else if count == 4 { 10_000_000 } else if count == 5 { 1_000_000 } else if count == 6 {
                100_000
            } else if count == 7 { 10_000 } else if count == 8 { 1_000 } else if count == 9 { 100 } else { 10 }),
        decreases left,
    {
        left = left / 10;
        count = count + 1;
        proof {
            bound = bound / 10;
        }
    }
    count
}

impl ElementModel {
    /// The name of the component type.
    pub open spec fn type_text(self) -> Seq<char> {
        match ComponentType::of(self.component_type) {
            Some(t) => t.name_text(),
            None => "unknown"@,
        }
    }

    /// The semantic name with its index behind it, where that is not nought.
    pub open spec fn indexed_name(self) -> Seq<char> {
        self.semantic_name + (if self.semantic_index > 0 {
            dec(self.semantic_index as nat)
        } else {
            ""@
        })
    }

    /// The columns behind the name: type and register with its mask.
    pub open spec fn columns(self) -> Seq<char> {
        right_aligned(self.type_text(), 7) + " v"@ + dec(self.register as nat) + "."@ + mask_text(self.mask)
    }

    /// The element in words, its name filled up to a column of 24.
    pub open spec fn text_spec(self) -> Seq<char> {
        left_aligned(self.indexed_name(), 24) + " "@ + self.columns() + (match self.stream {
            Some(s) => if s != 0 {
                " stream="@ + dec(s as nat)
            } else {
                ""@
            },
            None => ""@,
        }) + (match self.min_precision {
            Some(mp) => mp.text_spec(),
            None => ""@,
        })
    }
}

fn format_mask(mask: u8) -> (r: String)
    ensures
        r@ == mask_text(mask),
{
    let x = if mask % 2 == 1 { "x" } else { "" };
    let y = if (mask / 2) % 2 == 1 { "y" } else { "" };
    let z = if (mask / 4) % 2 == 1 { "z" } else { "" };
    let w = if (mask / 8) % 2 == 1 { "w" } else { "" };
    cat4(x, y, z, w)
}

impl SignatureElement {
    /// The component type name.
    pub fn component_type_name(&self) -> (r: &'static str)
        ensures
            r@ == self@.type_text(),
    {
        match ComponentType::from_u32(self.component_type) {
            Some(ct) => ct.name(),
            None => "unknown",
        }
    }

    /// Length in characters of the name with its index.
    pub fn name_with_index_len(&self) -> (r: usize)
        requires
            self@.indexed_name().len() <= usize::MAX,
        ensures
            r == self@.indexed_name().len(),
    {
        let base: usize = self.semantic_name.as_str().unicode_len();
        if self.semantic_index > 0 {
            base + digit_count(self.semantic_index)
        } else {
            proof {
                reveal_strlit("");
            }
            base
        }
    }

    /// The semantic name with its index behind it.
    pub fn fmt_name_with_index(&self) -> (r: String)
        ensures
            r@ == self@.indexed_name(),
    {
        let index = if self.semantic_index > 0 {
            decimal(self.semantic_index as u64)
        } else {
            "".to_owned()
        };
        cat2(self.semantic_name.as_str(), index.as_str())
    }

    /// The columns behind the name: type and register with its mask.
    pub fn fmt_columns(&self) -> (r: String)
        ensures
            r@ == self@.columns(),
    {
        let kind = align_right(self.component_type_name(), 7);
        let register = decimal(self.register as u64);
        let mask = format_mask(self.mask);
        cat5(kind.as_str(), " v", register.as_str(), ".", mask.as_str())
    }

    /// The element in words.
    pub fn text(&self) -> (r: String)
        ensures
            r@ == self@.text_spec(),
    {
        let name = self.fmt_name_with_index();
        let name = align_left(name.as_str(), 24);
        let columns = self.fmt_columns();
        let stream = match self.stream {
            Some(s) => if s != 0 {
                let d = decimal(s as u64);
                cat2(" stream=", d.as_str())
            } else {
                "".to_owned()
            },
            None => "".to_owned(),
        };
        let precision = match self.min_precision {
            Some(mp) => mp.text(),
            None => "".to_owned(),
        };
        cat5(name.as_str(), " ", columns.as_str(), stream.as_str(), precision.as_str())
    }
}

/// The first `n` elements, a line each.
pub open spec fn element_lines(elements: Seq<ElementModel>, n: nat) -> Seq<char>
    decreases n,
{
    if n == 0 {
        Seq::empty()
    } else {
        element_lines(elements, (n - 1) as nat) + elements[n - 1].text_spec() + "\n"@
    }
}

/// The element that starts at `base`.
pub open spec fn element_at(data: Seq<u8>, ver: SignatureVersion, base: int) -> ElementModel {
    let at = base + ver.lead();
    ElementModel {
        semantic_name: cstring(data, le32(data, at) as int),
        semantic_index: le32(data, at + 4),
        system_value: le32(data, at + 8),
        component_type: le32(data, at + 12),
        register: le32(data, at + 16),
        mask: data[at + 20],
        rw_mask: data[at + 21],
        stream: if ver == SignatureVersion::V0 {
            None
        } else {
            Some(le32(data, base))
        },
        min_precision: if ver == SignatureVersion::V1 {
            Some(MinPrecision::of(le32(data, at + 24)))
        } else {
            None
        },
    }
}

/// How many elements there are: as many as the header counts, as far as the data holds them whole.
pub open spec fn element_count(data: Seq<u8>, ver: SignatureVersion) -> nat {
    if data.len() < 8 {
        0
    } else if le32(data, 0) * ver.width() + 8 <= data.len() {
        le32(data, 0) as nat
    } else {
        ((data.len() - 8) / ver.width() as int) as nat
    }
}

/// The elements that a chunk holds.
pub open spec fn elements_of(data: Seq<u8>, ver: SignatureVersion) -> Seq<ElementModel> {
    Seq::new(element_count(data, ver), |i: int| element_at(data, ver, 8 + i * ver.width()))
}

fn word(data: &[u8], at: u64) -> (r: u32)
    requires
        at + 4 <= data@.len(),
    ensures
        r == le32(data@, at as int),
{
    match read_u32(data, at) {
        Some(v) => v,
        None => 0,
    }
}

fn byte(data: &[u8], at: u64) -> (r: u8)
    requires
        at + 1 <= data@.len(),
    ensures
        r == data@[at as int],
{
    match read_u8(data, at) {
        Some(v) => v,
        None => 0,
    }
}

fn read_element(data: &[u8], ver: SignatureVersion, base: u64) -> (r: SignatureElement)
    requires
        base + ver.width() <= data@.len(),
    ensures
        r@ == element_at(data@, ver, base as int),
{
    assert(data@.len() <= u64::MAX) by {
        assert(data.len() <= u64::MAX);
    }
    let stream: Option<u32> = if ver.has_stream() {
        Some(word(data, base))
    } else {
        None
    };
    let lead: u64 = if ver.has_stream() {
        4
    } else {
        0
    };
    let at: u64 = base + lead;
    let min_precision = if ver.has_min_precision() {
        Some(MinPrecision::from_u32(word(data, at + 24)))
    } else {
        None
    };
    SignatureElement {
        semantic_name: read_cstring(data, word(data, at) as usize).to_owned(),
        semantic_index: word(data, at + 4),
        system_value: word(data, at + 8),
        component_type: word(data, at + 12),
        register: word(data, at + 16),
        mask: byte(data, at + 20),
        rw_mask: byte(data, at + 21),
        stream,
        min_precision,
    }
}

/// Parse a signature chunk. The `fourcc` string determines the element layout:
/// - `"ISGN"`, `"OSGN"`, `"PCSG"`: 24 bytes (base)
/// - `"OSG5"`: 28 bytes (adds `stream`)
/// - `"ISG1"`, `"OSG1"`, `"PSG1"`: 32 bytes (adds `stream` and `min_precision`)
pub fn parse_signature(fourcc: &str, data: &[u8]) -> (r: Vec<SignatureElement>)
    ensures
        element_models(r@) == elements_of(data@, SignatureVersion::of(fourcc@)),
{
    let ver = SignatureVersion::from_fourcc(fourcc);
    let mut elements: Vec<SignatureElement> = Vec::new();
    if data.len() < 8 {
        proof {
            assert(element_models(elements@) =~= elements_of(data@, ver));
        }
        return elements;
    }
    let stride: u64 = ver.stride() as u64;
    let count: u64 = word(data, 0) as u64;
    let room: u64 = (data.len() as u64 - 8) / stride;
    let total: u64 = if count <= room {
        count
    } else {
        room
    };
    proof {
        let w = ver.width() as int;
        let n = data@.len() as int;
        assert((count <= room) == (count * w + 8 <= n) && room * w + 8 <= n) by (nonlinear_arith)
            requires
                room == (n - 8) / w,
                w > 0,
                n >= 8,
        ;
    }
    let mut i: u64 = 0;
    while i < total
        invariant
            i <= total,
            total == element_count(data@, ver),
            total <= 0xFFFF_FFFF,
            stride == ver.width(),
            total * stride + 8 <= data@.len(),
            elements@.len() == i,
            forall|k: int| 0 <= k < i ==> (#[trigger] elements@[k])@ == element_at(data@, ver, 8 + k * ver.width()),
        decreases total - i,
    {
        proof {
            let a = i as int;
            let t = total as int;
            let w = stride as int;
            assert(a * w + w <= t * w && 0 <= a * w <= 0xFFFF_FFFF * 32) by (nonlinear_arith)
                requires
                    0 <= a < t,
                    t <= 0xFFFF_FFFF,
                    0 < w <= 32,
            ;
        }
        let base: u64 = 8 + i * stride;
        let one = read_element(data, ver, base);
        elements.push(one);
        i = i + 1;
    }
    proof {
        assert(element_models(elements@) =~= elements_of(data@, ver));
    }
    elements
}

/// The names of the elements.
pub open spec fn names_of(elements: Seq<ElementModel>) -> Seq<Seq<char>> {
    Seq::new(elements.len(), |i: int| elements[i].semantic_name)
}

/// Where the string table starts.
pub open spec fn table_start(count: nat, ver: SignatureVersion) -> nat {
    8 + count * ver.width()
}

/// The string table after the first `n` names were added.
pub open spec fn table_after(elements: Seq<ElementModel>, ver: SignatureVersion, n: nat) -> StringTable {
    added_all(StringTable::empty(table_start(elements.len(), ver)), names_of(elements).take(n as int))
}

/// Where an element's name stands.
pub open spec fn name_place(elements: Seq<ElementModel>, ver: SignatureVersion, at: nat) -> nat {
    table_after(elements, ver, at).offset_of(elements[at as int].semantic_name)
}

/// The offset that an element's name gets.
pub open spec fn name_offset(elements: Seq<ElementModel>, ver: SignatureVersion, at: nat) -> u32 {
    name_place(elements, ver, at) as u32
}

/// The offsets reach every name.
pub open spec fn names_reached(elements: Seq<ElementModel>, ver: SignatureVersion) -> bool {
    forall|i: nat| i < elements.len() ==> #[trigger] name_place(elements, ver, i) <= u32::MAX
}

/// A number that counts as nought where it is missing.
pub open spec fn or_zero(v: Option<u32>) -> u32 {
    match v {
        Some(n) => n,
        None => 0,
    }
}

/// The value that a precision is stored as, nought where there is none.
pub open spec fn precision_word(v: Option<MinPrecision>) -> u32 {
    match v {
        Some(p) => p.raw(),
        None => 0,
    }
}

/// The words at the start of an element.
pub open spec fn element_words(e: ElementModel, ver: SignatureVersion, offset: u32) -> Seq<u32> {
    (if ver == SignatureVersion::V0 {
        Seq::<u32>::empty()
    } else {
        seq![or_zero(e.stream)]
    }) + seq![offset, e.semantic_index, e.system_value, e.component_type, e.register]
}

/// The bytes of an element.
pub open spec fn element_bytes(e: ElementModel, ver: SignatureVersion, offset: u32) -> Seq<u8> {
    flat(element_words(e, ver, offset)) + seq![e.mask, e.rw_mask, 0u8, 0u8] + (if ver == SignatureVersion::V1 {
        bytes32(precision_word(e.min_precision))
    } else {
        Seq::<u8>::empty()
    })
}

/// The bytes of the first `n` elements.
pub open spec fn elements_bytes(elements: Seq<ElementModel>, ver: SignatureVersion, n: nat) -> Seq<u8>
    decreases n,
{
    if n == 0 {
        Seq::empty()
    } else {
        let at = (n - 1) as nat;
        elements_bytes(elements, ver, at) + element_bytes(elements[n - 1], ver, name_offset(elements, ver, at))
    }
}

/// The payload: the header, the elements and the table of their names.
pub open spec fn signature_bytes(elements: Seq<ElementModel>, ver: SignatureVersion) -> Seq<u8> {
    flat(seq![elements.len() as u32, 8u32]) + elements_bytes(elements, ver, elements.len()) + table_after(
        elements,
        ver,
        elements.len(),
    ).buf
}

/// The bytes before the names can be counted.
pub open spec fn countable(elements: Seq<ElementModel>, ver: SignatureVersion) -> bool {
    table_start(elements.len(), ver) <= usize::MAX
}

/// The FourCC as text, where it is any.
pub open spec fn fourcc_text(fourcc: [u8; 4]) -> Seq<char> {
    if valid_utf8(fourcc@) {
        decode_utf8(fourcc@)
    } else {
        "ISGN"@
    }
}

proof fn lemma_table_step(elements: Seq<ElementModel>, ver: SignatureVersion, n: nat)
    requires
        n < elements.len(),
    ensures
        table_after(elements, ver, n + 1) == table_after(elements, ver, n).added(elements[n as int].semantic_name),
{
    let names = names_of(elements);
    assert(names.take(n as int + 1).drop_last() =~= names.take(n as int));
    assert(names.take(n as int + 1).last() == elements[n as int].semantic_name);
}

fn push_element(out: &mut Vec<u8>, e: &SignatureElement, ver: SignatureVersion, offset: u32)
    ensures
        final(out)@ == old(out)@ + element_bytes(e@, ver, offset),
{
    let ghost start = out@;
    let ghost words = element_words(e@, ver, offset);
    if ver.has_stream() {
        let stream: u32 = match e.stream {
            Some(s) => s,
            None => 0,
        };
        let head: [u32; 6] = [stream, offset, e.semantic_index, e.system_value, e.component_type, e.register];
        push_words(out, &head);
        proof {
            assert(head@ =~= words);
        }
    } else {
        let head: [u32; 5] = [offset, e.semantic_index, e.system_value, e.component_type, e.register];
        push_words(out, &head);
        proof {
            assert(head@ =~= words);
        }
    }
    out.push(e.mask);
    out.push(e.rw_mask);
    out.push(0);
    out.push(0);
    if ver.has_min_precision() {
        let precision: u32 = match e.min_precision {
            Some(mp) => mp.to_u32(),
            None => 0,
        };
        push32(out, precision);
    }
    proof {
        assert(out@ =~= start + element_bytes(e@, ver, offset));
    }
}

/// Serialize a signature chunk under a FourCC, which determines the layout.
pub fn write_signature(fourcc: [u8; 4], elements: &[SignatureElement]) -> (r: WritableChunk)
    requires
        countable(element_models(elements@), SignatureVersion::of(fourcc_text(fourcc))),
    ensures
        r.fourcc == fourcc,
        r.data@ == signature_bytes(element_models(elements@), SignatureVersion::of(fourcc_text(fourcc))),
{
    let ver = match utf8_text(&fourcc) {
        Some(s) => SignatureVersion::from_fourcc(s),
        None => SignatureVersion::from_fourcc("ISGN"),
    };
    let stride: usize = ver.stride();
    let ghost all = element_models(elements@);
    let count: usize = elements.len();
    proof {
        assert(8 + count * stride <= usize::MAX);
    }
    let start: usize = 8 + count * stride;
    let mut strings = StringTableWriter::new(start);
    let mut offsets: Vec<u32> = Vec::new();
    let mut i: usize = 0;
    proof {
        assert(names_of(all).take(0) =~= Seq::empty());
    }
    while i < elements.len()
        invariant
            i <= elements@.len(),
            all == element_models(elements@),
            countable(all, ver),
            strings@ == table_after(all, ver, i as nat),
            strings@.wf(),
            strings@.base == table_start(all.len(), ver),
            offsets@.len() == i,
            forall|k: int| 0 <= k < i ==> #[trigger] offsets@[k] == name_offset(all, ver, k as nat),
        decreases elements@.len() - i,
    {
        proof {
            lemma_table_step(all, ver, i as nat);
        }
        let offset: u32 = strings.add(elements[i].semantic_name.as_str());
        offsets.push(offset);
        i = i + 1;
    }
    let mut out: Vec<u8> = Vec::new();
    let head: [u32; 2] = [count as u32, 8];
    push_words(&mut out, &head);
    let ghost lead = flat(seq![all.len() as u32, 8u32]);
    proof {
        assert(head@ =~= seq![all.len() as u32, 8u32]);
        assert(out@ =~= lead + elements_bytes(all, ver, 0));
    }
    let mut j: usize = 0;
    while j < elements.len()
        invariant
            j <= elements@.len(),
            all == element_models(elements@),
            offsets@.len() == elements@.len(),
            forall|k: int| 0 <= k < offsets@.len() ==> #[trigger] offsets@[k] == name_offset(all, ver, k as nat),
            out@ == lead + elements_bytes(all, ver, j as nat),
        decreases elements@.len() - j,
    {
        push_element(&mut out, &elements[j], ver, offsets[j]);
        j = j + 1;
        proof {
            assert(out@ =~= lead + elements_bytes(all, ver, j as nat));
        }
    }
    let table = strings.finish();
    push_all(&mut out, table.as_slice());
    WritableChunk { fourcc, data: out }
}

impl Signature {
    /// The tag the chunk goes under.
    pub fn fourcc(&self) -> (r: [u8; 4])
        ensures
            r == self.fourcc,
    {
        self.fourcc
    }

    /// The payload in the layout that the FourCC determines.
    pub fn write_payload(&self) -> (r: Vec<u8>)
        requires
            countable(element_models(self.elements@), SignatureVersion::of(fourcc_text(self.fourcc))),
        ensures
            r@ == signature_bytes(element_models(self.elements@), SignatureVersion::of(fourcc_text(self.fourcc))),
    {
        write_signature(self.fourcc, self.elements.as_slice()).data
    }

    /// The elements in words, a line each.
    pub fn text(&self) -> (r: String)
        ensures
            r@ == element_lines(element_models(self.elements@), self.elements@.len()),
    {
        let ghost all = element_models(self.elements@);
        let mut out = String::new();
        let mut i: usize = 0;
        proof {
            assert(out@ =~= Seq::empty());
        }
        while i < self.elements.len()
            invariant
                i <= self.elements@.len(),
                all == element_models(self.elements@),
                out@ == element_lines(all, i as nat),
            decreases self.elements@.len() - i,
        {
            let line = self.elements[i].text();
            out.push_str(line.as_str());
            out.push_str("\n");
            i = i + 1;
        }
        out
    }
}

/// A layout has room for all that an element holds: the fields that it lacks are missing, those that it has
/// are there, the precision is one that a stored value stands for, and the name can be terminated.
pub open spec fn element_fits(e: ElementModel, ver: SignatureVersion) -> bool {
    &&& e.stream is Some <==> ver != SignatureVersion::V0
    &&& e.min_precision is Some <==> ver == SignatureVersion::V1
    &&& e.min_precision matches Some(p) ==> MinPrecision::of(p.raw()) == p
    &&& null_free(e.semantic_name)
}

proof fn lemma_element_len(e: ElementModel, ver: SignatureVersion, offset: u32)
    ensures
        element_bytes(e, ver, offset).len() == ver.width(),
{
    lemma_flat_len(element_words(e, ver, offset));
}

proof fn lemma_elements_stand(elements: Seq<ElementModel>, ver: SignatureVersion, n: nat)
    requires
        n <= elements.len(),
    ensures
        elements_bytes(elements, ver, n).len() == n * ver.width(),
        forall|i: int|
            0 <= i < n ==> elements_bytes(elements, ver, n).subrange(i * ver.width(), i * ver.width() + ver.width())
                == element_bytes(#[trigger] elements[i], ver, name_offset(elements, ver, i as nat)),
    decreases n,
{
    let w = ver.width() as int;
    if n == 0 {
        assert(0 * w == 0) by (nonlinear_arith);
    } else {
        let m = (n - 1) as nat;
        lemma_elements_stand(elements, ver, m);
        let before = elements_bytes(elements, ver, m);
        let last = element_bytes(elements[m as int], ver, name_offset(elements, ver, m));
        lemma_element_len(elements[m as int], ver, name_offset(elements, ver, m));
        let all = elements_bytes(elements, ver, n);
        assert(all == before + last);
        assert(m * w + w == n * w) by (nonlinear_arith)
            requires
                n == m + 1,
        ;
        assert forall|i: int| 0 <= i < n implies all.subrange(i * w, i * w + w) == element_bytes(
            #[trigger] elements[i],
            ver,
            name_offset(elements, ver, i as nat),
        ) by {
            if i < m {
                assert(0 <= i * w && i * w + w <= m * w) by (nonlinear_arith)
                    requires
                        0 <= i < m,
                        w > 0,
                ;
                assert(all.subrange(i * w, i * w + w) =~= before.subrange(i * w, i * w + w));
            } else {
                assert(all.subrange(i * w, i * w + w) =~= last);
            }
        }
    }
}

/// An element is read where its bytes stand.
#[verifier::rlimit(60)]
#[verifier::spinoff_prover]
proof fn lemma_element_reads(data: Seq<u8>, e: ElementModel, ver: SignatureVersion, offset: u32, base: int)
    requires
        0 <= base,
        base + ver.width() <= data.len(),
        data.subrange(base, base + ver.width()) == element_bytes(e, ver, offset),
        element_fits(e, ver),
        cstring(data, offset as int) == e.semantic_name,
    ensures
        element_at(data, ver, base) == e,
{
    let words = element_words(e, ver, offset);
    let w = ver.width() as int;
    let part = data.subrange(base, base + w);
    lemma_flat_len(words);
    let prefix = data.subrange(0, base);
    let rest = data.subrange(base + 4 * words.len(), data.len() as int);
    assert(part.subrange(0, 4 * words.len() as int) =~= flat(words));
    assert(data =~= prefix + flat(words) + rest) by {
        assert forall|i: int| base <= i < base + 4 * words.len() implies data[i] == flat(words)[i - base] by {
            assert(part[i - base] == data[i]);
            assert(part[i - base] == part.subrange(0, 4 * words.len() as int)[i - base]);
        }
    }
    lemma_flat_reads(prefix, words, rest);
    let lead = ver.lead() as int;
    if ver == SignatureVersion::V0 {
        assert(words[0] == offset && words[1] == e.semantic_index && words[2] == e.system_value && words[3]
            == e.component_type && words[4] == e.register);
        assert(le32(data, base + 4 * 0) == words[0]);
        assert(le32(data, base + 4 * 1) == words[1]);
        assert(le32(data, base + 4 * 2) == words[2]);
        assert(le32(data, base + 4 * 3) == words[3]);
        assert(le32(data, base + 4 * 4) == words[4]);
    } else {
        assert(words[0] == or_zero(e.stream) && words[1] == offset && words[2] == e.semantic_index && words[3]
            == e.system_value && words[4] == e.component_type && words[5] == e.register);
        assert(le32(data, base + 4 * 0) == words[0]);
        assert(le32(data, base + 4 * 1) == words[1]);
        assert(le32(data, base + 4 * 2) == words[2]);
        assert(le32(data, base + 4 * 3) == words[3]);
        assert(le32(data, base + 4 * 4) == words[4]);
        assert(le32(data, base + 4 * 5) == words[5]);
    }
    assert(data[base + lead + 20] == part[lead + 20]);
    assert(data[base + lead + 21] == part[lead + 21]);
    if ver == SignatureVersion::V1 {
        assert(data.subrange(base + 28, base + 32) =~= part.subrange(28, 32));
        assert(part.subrange(28, 32) =~= bytes32(precision_word(e.min_precision)));
        lemma_read_back32(data, base + 28, precision_word(e.min_precision));
    }
    let got = element_at(data, ver, base);
    assert(got.stream == e.stream);
    assert(got.min_precision == e.min_precision);
}

/// A name stands in the table at the offset that it got.
proof fn lemma_name_stands(elements: Seq<ElementModel>, ver: SignatureVersion, i: nat)
    requires
        i < elements.len(),
    ensures
        ({
            let s = elements[i as int].semantic_name;
            let end = table_after(elements, ver, elements.len());
            &&& place(end.entries, s) is Some
            &&& stands(s, place(end.entries, s)->0, end.buf)
            &&& table_after(elements, ver, i).offset_of(s) == table_start(elements.len(), ver) + place(
                end.entries,
                s,
            )->0
        }),
{
    let names = names_of(elements);
    let s = elements[i as int].semantic_name;
    let t = table_after(elements, ver, i);
    let start = StringTable::empty(table_start(elements.len(), ver));
    let n = elements.len();
    let first = names.take(i as int + 1);
    let later = names.subrange(i as int + 1, n as int);
    lemma_added_all_wf(start, names.take(i as int));
    lemma_table_step(elements, ver, i);
    lemma_added_all_wf(start, first);
    crate::util::lemma_added_all_joined(start, first, later);
    assert(first + later =~= names.take(n as int));
    crate::util::lemma_added_place(t, s);
    lemma_added_all_place(t.added(s), later, s);
    lemma_added_all_wf(t.added(s), later);
    lemma_place_stands(table_after(elements, ver, n), s);
    crate::util::lemma_added_all_base(start, names.take(i as int));
}

/// The header and the elements of a payload.
pub open spec fn front_bytes(elements: Seq<ElementModel>, ver: SignatureVersion) -> Seq<u8> {
    flat(seq![elements.len() as u32, 8u32]) + elements_bytes(elements, ver, elements.len())
}

proof fn lemma_front_len(elements: Seq<ElementModel>, ver: SignatureVersion)
    ensures
        front_bytes(elements, ver).len() == table_start(elements.len(), ver),
        signature_bytes(elements, ver) == front_bytes(elements, ver) + table_after(elements, ver, elements.len()).buf,
{
    lemma_elements_stand(elements, ver, elements.len());
    lemma_flat_len(seq![elements.len() as u32, 8u32]);
}

/// A name is read at the offset that it got.
proof fn lemma_name_reads(elements: Seq<ElementModel>, ver: SignatureVersion, i: nat)
    requires
        i < elements.len(),
        name_place(elements, ver, i) <= u32::MAX,
        null_free(elements[i as int].semantic_name),
    ensures
        cstring(signature_bytes(elements, ver), name_offset(elements, ver, i) as int)
            == elements[i as int].semantic_name,
{
    let s = elements[i as int].semantic_name;
    let end = table_after(elements, ver, elements.len());
    let at = place(end.entries, s)->0;
    lemma_name_stands(elements, ver, i);
    lemma_front_len(elements, ver);
    crate::util::lemma_stands_behind(front_bytes(elements, ver), s, at, end.buf);
    lemma_standing_text_reads(s, front_bytes(elements, ver).len() + at, signature_bytes(elements, ver));
}

/// The count in the header of a payload.
proof fn lemma_header_reads(elements: Seq<ElementModel>, ver: SignatureVersion)
    requires
        names_reached(elements, ver),
    ensures
        le32(signature_bytes(elements, ver), 0) == elements.len(),
        element_count(signature_bytes(elements, ver), ver) == elements.len(),
{
    let n = elements.len();
    let w = ver.width() as int;
    let head = seq![n as u32, 8u32];
    let rest = elements_bytes(elements, ver, n) + table_after(elements, ver, n).buf;
    let data = signature_bytes(elements, ver);
    lemma_front_len(elements, ver);
    assert(data =~= Seq::<u8>::empty() + flat(head) + rest);
    lemma_flat_reads(Seq::empty(), head, rest);
    assert(n <= n * w) by (nonlinear_arith)
        requires
            w >= 1,
            n >= 0,
    ;
    if n > 0 {
        lemma_name_stands(elements, ver, 0);
        assert(name_place(elements, ver, 0) <= u32::MAX);
    }
    assert(le32(data, 4int * 0) == head[0]);
}

/// Parsing what was written gives the elements back, where the layout has room for all that they hold and
/// the offsets reach every name.
pub proof fn law_signature_comes_back(elements: Seq<ElementModel>, ver: SignatureVersion)
    requires
        forall|i: int| 0 <= i < elements.len() ==> element_fits(#[trigger] elements[i], ver),
        names_reached(elements, ver),
    ensures
        elements_of(signature_bytes(elements, ver), ver) == elements,
{
    let data = signature_bytes(elements, ver);
    let n = elements.len();
    let w = ver.width() as int;
    lemma_header_reads(elements, ver);
    let got = elements_of(data, ver);
    assert forall|i: int| 0 <= i < n implies got[i] == #[trigger] elements[i] by {
        assert(name_place(elements, ver, i as nat) <= u32::MAX);
        lemma_element_comes_back(elements, ver, i);
    }
    assert(got =~= elements);
}

#[verifier::rlimit(60)]
#[verifier::spinoff_prover]
proof fn lemma_element_comes_back(elements: Seq<ElementModel>, ver: SignatureVersion, i: int)
    requires
        0 <= i < elements.len(),
        element_fits(elements[i], ver),
        name_place(elements, ver, i as nat) <= u32::MAX,
    ensures
        element_at(signature_bytes(elements, ver), ver, 8 + i * ver.width()) == elements[i],
{
    let data = signature_bytes(elements, ver);
    let w = ver.width() as int;
    let offset = name_offset(elements, ver, i as nat);
    lemma_element_stands(elements, ver, i);
    lemma_name_reads(elements, ver, i as nat);
    assert(0 <= i * w) by (nonlinear_arith)
        requires
            0 <= i,
            w > 0,
    ;
    lemma_element_reads(data, elements[i], ver, offset, 8 + i * w);
}

proof fn lemma_middle(a: Seq<u8>, b: Seq<u8>, c: Seq<u8>, from: int, to: int)
    requires
        0 <= from <= to <= b.len(),
    ensures
        (a + b + c).subrange(a.len() + from, a.len() + to) == b.subrange(from, to),
{
    assert((a + b + c).subrange(a.len() + from, a.len() + to) =~= b.subrange(from, to));
}

/// The bytes of an element stand among those of the elements.
proof fn lemma_element_among(elements: Seq<ElementModel>, ver: SignatureVersion, i: int)
    requires
        0 <= i < elements.len(),
    ensures
        elements_bytes(elements, ver, elements.len()).len() == elements.len() * ver.width(),
        elements_bytes(elements, ver, elements.len()).subrange(i * ver.width(), i * ver.width() + ver.width())
            == element_bytes(elements[i], ver, name_offset(elements, ver, i as nat)),
{
    lemma_elements_stand(elements, ver, elements.len());
    assert(elements[i] == elements[i]);
}

/// The bytes of an element stand in the payload.
#[verifier::rlimit(60)]
#[verifier::spinoff_prover]
proof fn lemma_element_stands(elements: Seq<ElementModel>, ver: SignatureVersion, i: int)
    requires
        0 <= i < elements.len(),
    ensures
        8 + i * ver.width() + ver.width() <= signature_bytes(elements, ver).len(),
        signature_bytes(elements, ver).subrange(8 + i * ver.width(), 8 + i * ver.width() + ver.width())
            == element_bytes(elements[i], ver, name_offset(elements, ver, i as nat)),
{
    let n = elements.len();
    let w = ver.width();
    let body = elements_bytes(elements, ver, n);
    let head = flat(seq![n as u32, 8u32]);
    let table = table_after(elements, ver, n).buf;
    assert(0 <= i * w && i * w + w <= n * w) by (nonlinear_arith)
        requires
            0 <= i < n,
            w > 0,
    ;
    lemma_element_among(elements, ver, i);
    lemma_flat_len(seq![n as u32, 8u32]);
    lemma_middle(head, body, table, i * w, i * w + w);
    assert(signature_bytes(elements, ver) == head + body + table);
}

/// Whatever is read from a chunk can be written in the layout that it was read in, where the offsets reach every name,
/// and reading what was written gives it back.
pub proof fn law_parsed_signature_comes_back(data: Seq<u8>, ver: SignatureVersion)
    requires
        names_reached(elements_of(data, ver), ver),
    ensures
        forall|i: int| 0 <= i < elements_of(data, ver).len() ==> element_fits(#[trigger] elements_of(data, ver)[i], ver),
        elements_of(signature_bytes(elements_of(data, ver), ver), ver) == elements_of(data, ver),
{
    let elements = elements_of(data, ver);
    assert forall|i: int| 0 <= i < elements.len() implies element_fits(#[trigger] elements[i], ver) by {
        let at = 8 + i * ver.width() + ver.lead();
        assert(0 <= i * ver.width()) by (nonlinear_arith)
            requires
                0 <= i,
                ver.width() >= 0,
        ;
        lemma_cstring_null_free(data, le32(data, at) as int);
        law_min_precision_keeps_raw(le32(data, at + 24));
    }
    law_signature_comes_back(elements, ver);
}

} // verus!
