//! The container a shader comes in: a header, a table of offsets, and the chunks they lead to.
use crate::bytes::{copied_span, le32, read32, read_u32};
use crate::chunks::dxil::{self, parse_dxil, DxilData};
use crate::chunks::ildb::{parse_ildb, DebugData};
use crate::chunks::ildn::{self, parse_ildn, DebugName};
use crate::chunks::lfs0::{parse_lfs0, LibraryFunctionSignatures};
use crate::chunks::libf::{parse_libf, LibraryFunction};
use crate::chunks::libh::{parse_libh, LibraryHeader};
use crate::chunks::priv_::{parse_priv, PrivateData};
use crate::chunks::psv0::parse::{parse_psv0, psv_of};
use crate::chunks::psv0::types::PipelineStateValidation;
use crate::chunks::rdat::parse::{parse_rdat, rdat_of};
use crate::chunks::rdat::types::{part_models, RuntimeData};
use crate::chunks::rdef::parse::{parse_rdef, rdef_of};
use crate::chunks::rdef::ResourceDef;
use crate::chunks::rts0::{parse_rts0, root_of, RootSignature};
use crate::chunks::sfi0::{flags_of, parse_sfi0, ShaderFeatureInfo};
use crate::chunks::signature::{element_models, elements_of, parse_signature, Signature, SignatureVersion};
use crate::chunks::stat::{parse_stat, stats_of, ShaderStats};
use crate::shex::decode::{decode_with_fourcc, program_of};
use crate::shex::ir::Program;
use vstd::prelude::*;

verus! {

/// A chunk as it stands in the container: its tag and its payload.
#[derive(Debug)]
pub struct RawChunk {
    pub fourcc: [u8; 4],
    pub data: Vec<u8>,
}

/// A container found in a file.
#[derive(Debug)]
pub struct DxbcContainer {
    /// Byte offset of the container in the file.
    pub offset_in_file: usize,
    /// Size of the container in bytes, its header included.
    pub total_size: u32,
    /// The chunks in the order of the table.
    pub chunks: Vec<RawChunk>,
}

/// What a container holds.
#[verifier::ext_equal]
pub struct ContainerModel {
    pub offset: nat,
    pub size: u32,
    pub chunks: Seq<(Seq<u8>, Seq<u8>)>,
}

/// The tag and the payload of each chunk of a list.
pub open spec fn chunk_models(chunks: Seq<RawChunk>) -> Seq<(Seq<u8>, Seq<u8>)> {
    Seq::new(chunks.len(), |i: int| (chunks[i].fourcc@, chunks[i].data@))
}

impl DxbcContainer {
    /// What the container holds.
    pub open spec fn view(&self) -> ContainerModel {
        ContainerModel {
            offset: self.offset_in_file as nat,
            size: self.total_size,
            chunks: chunk_models(self.chunks@),
        }
    }
}

/// What each container of a list holds.
pub open spec fn container_models(list: Seq<DxbcContainer>) -> Seq<ContainerModel> {
    Seq::new(list.len(), |i: int| list[i]@)
}

/// Bytes of a header before its table of offsets.
pub const HEADER: u64 = 32;

/// The tag of a container stands at a place.
pub open spec fn tagged(data: Seq<u8>, at: int) -> bool {
    data[at] == 0x44 && data[at + 1] == 0x58 && data[at + 2] == 0x42 && data[at + 3] == 0x43
}

/// Where a chunk of the container at a place starts, counted from the container.
pub open spec fn chunk_start(data: Seq<u8>, at: int, i: int) -> int {
    le32(data, at + 32 + 4 * i) as int
}

/// The bytes of a chunk's payload.
pub open spec fn chunk_size(data: Seq<u8>, at: int, i: int) -> int {
    le32(data, at + chunk_start(data, at, i) + 4) as int
}

/// A chunk lies within its container.
pub open spec fn chunk_fits(data: Seq<u8>, at: int, total: int, i: int) -> bool {
    chunk_start(data, at, i) + 8 <= total && chunk_start(data, at, i) + 8 + chunk_size(data, at, i) <= total
}

/// A chunk of the container at a place.
pub open spec fn chunk_of(data: Seq<u8>, at: int, i: int) -> (Seq<u8>, Seq<u8>) {
    let from = at + chunk_start(data, at, i);
    (data.subrange(from, from + 4), data.subrange(from + 8, from + 8 + chunk_size(data, at, i)))
}

/// The container that stands at a place: a header whose size lies within the file, a table of offsets that lies within
/// the container, and chunks that all do. Nothing where one of these fails.
pub open spec fn container_at(data: Seq<u8>, at: int) -> Option<ContainerModel> {
    if at < 0 || at + 32 > data.len() || !tagged(data, at) {
        None
    } else {
        let total = le32(data, at + 24) as int;
        let count = le32(data, at + 28) as int;
        if 32 + 4 * count > total || at + total > data.len() || !(forall|i: int|
            0 <= i < count ==> #[trigger] chunk_fits(data, at, total, i)) {
            None
        } else {
            Some(
                ContainerModel {
                    offset: at as nat,
                    size: total as u32,
                    chunks: Seq::new(count as nat, |i: int| chunk_of(data, at, i)),
                },
            )
        }
    }
}

/// The containers of a file from a place on, each searched for behind the one before it.
pub open spec fn containers_from(data: Seq<u8>, at: int) -> Seq<ContainerModel>
    decreases data.len() - at,
{
    if at < 0 || at >= data.len() {
        Seq::empty()
    } else {
        match container_at(data, at) {
            Some(held) => if held.size == 0 || at + held.size > data.len() {
                Seq::empty()
            } else {
                seq![held] + containers_from(data, at + held.size)
            },
            None => containers_from(data, at + 1),
        }
    }
}

fn word(data: &[u8], at: u64) -> (r: u32)
    requires
        at + 4 <= data@.len(),
    ensures
        r == le32(data@, at as int),
{
    match read_u32(data, at) {
        Some(v) => v,
        None => 0,
    }
}

fn tag_at(data: &[u8], at: usize) -> (r: [u8; 4])
    requires
        at + 4 <= data@.len(),
    ensures
        r@ == data@.subrange(at as int, at + 4),
{
    let a: u8 = data[at];
    let b: u8 = data[at + 1];
    let c: u8 = data[at + 2];
    let d: u8 = data[at + 3];
    let r = [a, b, c, d];
    proof {
        assert(r@ =~= data@.subrange(at as int, at + 4));
    }
    r
}

/// The container that stands at a place, where one does.
pub fn parse_container(data: &[u8], at: usize) -> (r: Option<DxbcContainer>)
    requires
        at <= data@.len(),
    ensures
        match r {
            Some(held) => container_at(data@, at as int) == Some(held@),
            None => container_at(data@, at as int) is None,
        },
{
    let len: u64 = data.len() as u64;
    let base: u64 = at as u64;
    if len - base < HEADER {
        return None;
    }
    if data[at] != 0x44 || data[at + 1] != 0x58 || data[at + 2] != 0x42 || data[at + 3] != 0x43 {
        return None;
    }
    let total_size: u32 = word(data, base + 24);
    let total: u64 = total_size as u64;
    let count: u64 = word(data, base + 28) as u64;
    if HEADER + 4 * count > total || total > len - base {
        return None;
    }
    let ghost d = data@;
    let ghost p = at as int;
    let mut chunks: Vec<RawChunk> = Vec::new();
    let mut i: u64 = 0;
    while i < count
        invariant
            i <= count,
            d == data@,
            p == at,
            base == at,
            len == data@.len(),
            len <= usize::MAX,
            HEADER == 32,
            total == le32(d, p + 24),
            count == le32(d, p + 28),
            tagged(d, p),
            p + 32 <= d.len(),
            HEADER + 4 * count <= total,
            total <= u32::MAX,
            base + total <= len,
            chunks@.len() == i,
            forall|k: int| 0 <= k < i ==> #[trigger] chunk_fits(d, p, total as int, k),
            forall|k: int|
                0 <= k < i ==> ((#[trigger] chunks@[k]).fourcc@, chunks@[k].data@) == chunk_of(d, p, k),
        decreases count - i,
    {
        let start: u64 = word(data, base + 32 + 4 * i) as u64;
        if start + 8 > total {
            assert(!chunk_fits(d, p, total as int, i as int));
            return None;
        }
        let size: u64 = word(data, base + start + 4) as u64;
        if start + 8 + size > total {
            assert(!chunk_fits(d, p, total as int, i as int));
            return None;
        }
        assert(chunk_fits(d, p, total as int, i as int));
        let from: usize = (base + start) as usize;
        let to: usize = (base + start + 8 + size) as usize;
        chunks.push(RawChunk { fourcc: tag_at(data, from), data: copied_span(data, from + 8, to) });
        i = i + 1;
    }
    let held = DxbcContainer { offset_in_file: at, total_size, chunks };
    proof {
        assert(chunk_models(held.chunks@) =~= Seq::new(count as nat, |i: int| chunk_of(d, p, i)));
    }
    Some(held)
}

/// The containers of a file, in order.
pub fn scan_dxbc(data: &[u8]) -> (r: Vec<DxbcContainer>)
    ensures
        container_models(r@) == containers_from(data@, 0),
{
    let ghost want = containers_from(data@, 0);
    let len: usize = data.len();
    let mut found: Vec<DxbcContainer> = Vec::new();
    let mut at: usize = 0;
    proof {
        assert(container_models(found@) + want =~= want);
    }
    while at < len
        invariant
            at <= len,
            len == data@.len(),
            container_models(found@) + containers_from(data@, at as int) == want,
        decreases len - at,
    {
        let ghost before = container_models(found@);
        match parse_container(data, at) {
            Some(held) => {
                let size: usize = held.total_size as usize;
                let ghost m = held@;
                let ghost rest = containers_from(data@, at + size);
                found.push(held);
                proof {
                    assert(container_models(found@) =~= before.push(m));
                    assert(before + (seq![m] + rest) =~= before.push(m) + rest);
                }
                at = at + size;
            },
            None => {
                at = at + 1;
            },
        }
    }
    proof {
        assert(containers_from(data@, at as int) =~= Seq::empty());
        assert(container_models(found@) + Seq::empty() =~= container_models(found@));
    }
    found
}

/// Containers lie between two places, one behind the other, and none overlaps another.
pub open spec fn lie_apart(list: Seq<ContainerModel>, from: int, to: int) -> bool {
    &&& forall|i: int| 0 <= i < list.len() ==> from <= (#[trigger] list[i]).offset && list[i].offset + list[i].size <= to
    &&& forall|i: int, j: int|
        0 <= i < j < list.len() ==> (#[trigger] list[i]).offset + list[i].size <= (#[trigger] list[j]).offset
}

/// The containers found in a file lie within it, one behind the other, and none overlaps another.
pub proof fn law_containers_lie_apart(data: Seq<u8>, at: int)
    requires
        0 <= at,
    ensures
        lie_apart(containers_from(data, at), at, data.len() as int),
    decreases data.len() - at,
{
    if at < data.len() {
        match container_at(data, at) {
            Some(held) => {
                if held.size != 0 && at + held.size <= data.len() {
                    let rest = containers_from(data, at + held.size);
                    let all = seq![held] + rest;
                    law_containers_lie_apart(data, at + held.size);
                    assert(all[0] == held);
                    assert forall|i: int| 1 <= i < all.len() implies #[trigger] all[i] == rest[i - 1] by {}
                    assert(lie_apart(all, at, data.len() as int));
                }
            },
            None => {
                law_containers_lie_apart(data, at + 1);
            },
        }
    }
}

/// What a tag says a chunk is.
#[derive(Debug, Clone, Copy, PartialEq, Eq, Structural)]
pub enum ChunkKind {
    Shader,
    Rdef,
    InputSignature,
    OutputSignature,
    PatchConstantSignature,
    Stats,
    RootSignature,
    FeatureInfo,
    DebugName,
    Dxil,
    PipelineStateValidation,
    RuntimeData,
    DebugData,
    PrivateData,
    LibraryHeader,
    LibraryFunction,
    LibraryFunctionSignatures,
    Other,
}

/// What a tag says a chunk is.
pub open spec fn kind_of(tag: Seq<u8>) -> ChunkKind {
    match (tag[0], tag[1], tag[2], tag[3]) {
        // `SHEX`
        (0x53, 0x48, 0x45, 0x58) => ChunkKind::Shader,
        // `SHDR`
        (0x53, 0x48, 0x44, 0x52) => ChunkKind::Shader,
        // `RDEF`
        (0x52, 0x44, 0x45, 0x46) => ChunkKind::Rdef,
        // `ISGN`
        (0x49, 0x53, 0x47, 0x4E) => ChunkKind::InputSignature,
        // `ISG1`
        (0x49, 0x53, 0x47, 0x31) => ChunkKind::InputSignature,
        // `OSGN`
        (0x4F, 0x53, 0x47, 0x4E) => ChunkKind::OutputSignature,
        // `OSG1`
        (0x4F, 0x53, 0x47, 0x31) => ChunkKind::OutputSignature,
        // `OSG5`
        (0x4F, 0x53, 0x47, 0x35) => ChunkKind::OutputSignature,
        // `PCSG`
        (0x50, 0x43, 0x53, 0x47) => ChunkKind::PatchConstantSignature,
        // `PSG1`
        (0x50, 0x53, 0x47, 0x31) => ChunkKind::PatchConstantSignature,
        // `STAT`
        (0x53, 0x54, 0x41, 0x54) => ChunkKind::Stats,
        // `RTS0`
        (0x52, 0x54, 0x53, 0x30) => ChunkKind::RootSignature,
        // `SFI0`
        (0x53, 0x46, 0x49, 0x30) => ChunkKind::FeatureInfo,
        // `ILDN`
        (0x49, 0x4C, 0x44, 0x4E) => ChunkKind::DebugName,
        // `DXIL`
        (0x44, 0x58, 0x49, 0x4C) => ChunkKind::Dxil,
        // `PSV0`
        (0x50, 0x53, 0x56, 0x30) => ChunkKind::PipelineStateValidation,
        // `RDAT`
        (0x52, 0x44, 0x41, 0x54) => ChunkKind::RuntimeData,
        // `ILDB`
        (0x49, 0x4C, 0x44, 0x42) => ChunkKind::DebugData,
        // `PRIV`
        (0x50, 0x52, 0x49, 0x56) => ChunkKind::PrivateData,
        // `LIBH`
        (0x4C, 0x49, 0x42, 0x48) => ChunkKind::LibraryHeader,
        // `LIBF`
        (0x4C, 0x49, 0x42, 0x46) => ChunkKind::LibraryFunction,
        // `LFS0`
        (0x4C, 0x46, 0x53, 0x30) => ChunkKind::LibraryFunctionSignatures,
        _ => ChunkKind::Other,
    }
}

/// What a tag says a chunk is.
pub fn kind(tag: [u8; 4]) -> (r: ChunkKind)
    ensures
        r == kind_of(tag@),
{
    match (tag[0], tag[1], tag[2], tag[3]) {
        // `SHEX`
        (0x53, 0x48, 0x45, 0x58) => ChunkKind::Shader,
        // `SHDR`
        (0x53, 0x48, 0x44, 0x52) => ChunkKind::Shader,
        // `RDEF`
        (0x52, 0x44, 0x45, 0x46) => ChunkKind::Rdef,
        // `ISGN`
        (0x49, 0x53, 0x47, 0x4E) => ChunkKind::InputSignature,
        // `ISG1`
        (0x49, 0x53, 0x47, 0x31) => ChunkKind::InputSignature,
        // `OSGN`
        (0x4F, 0x53, 0x47, 0x4E) => ChunkKind::OutputSignature,
        // `OSG1`
        (0x4F, 0x53, 0x47, 0x31) => ChunkKind::OutputSignature,
        // `OSG5`
        (0x4F, 0x53, 0x47, 0x35) => ChunkKind::OutputSignature,
        // `PCSG`
        (0x50, 0x43, 0x53, 0x47) => ChunkKind::PatchConstantSignature,
        // `PSG1`
        (0x50, 0x53, 0x47, 0x31) => ChunkKind::PatchConstantSignature,
        // `STAT`
        (0x53, 0x54, 0x41, 0x54) => ChunkKind::Stats,
        // `RTS0`
        (0x52, 0x54, 0x53, 0x30) => ChunkKind::RootSignature,
        // `SFI0`
        (0x53, 0x46, 0x49, 0x30) => ChunkKind::FeatureInfo,
        // `ILDN`
        (0x49, 0x4C, 0x44, 0x4E) => ChunkKind::DebugName,
        // `DXIL`
        (0x44, 0x58, 0x49, 0x4C) => ChunkKind::Dxil,
        // `PSV0`
        (0x50, 0x53, 0x56, 0x30) => ChunkKind::PipelineStateValidation,
        // `RDAT`
        (0x52, 0x44, 0x41, 0x54) => ChunkKind::RuntimeData,
        // `ILDB`
        (0x49, 0x4C, 0x44, 0x42) => ChunkKind::DebugData,
        // `PRIV`
        (0x50, 0x52, 0x49, 0x56) => ChunkKind::PrivateData,
        // `LIBH`
        (0x4C, 0x49, 0x42, 0x48) => ChunkKind::LibraryHeader,
        // `LIBF`
        (0x4C, 0x49, 0x42, 0x46) => ChunkKind::LibraryFunction,
        // `LFS0`
        (0x4C, 0x46, 0x53, 0x30) => ChunkKind::LibraryFunctionSignatures,
        _ => ChunkKind::Other,
    }
}

/// A parsed chunk.
pub enum ChunkData {
    Shader(Program),
    Rdef(ResourceDef),
    InputSignature(Signature),
    OutputSignature(Signature),
    PatchConstantSignature(Signature),
    Stats(ShaderStats),
    RootSignature(RootSignature),
    FeatureInfo(ShaderFeatureInfo),
    DebugName(DebugName),
    Dxil(DxilData),
    PipelineStateValidation(PipelineStateValidation),
    RuntimeData(RuntimeData),
    DebugData(DebugData),
    PrivateData(PrivateData),
    LibraryHeader(LibraryHeader),
    LibraryFunction(LibraryFunction),
    LibraryFunctionSignatures(LibraryFunctionSignatures),
    /// A chunk whose tag says nothing, or whose payload is not what its tag says.
    Unknown,
}

/// A signature is what a payload under a tag holds.
pub open spec fn signature_reads(s: Signature, tag: Seq<u8>, data: Seq<u8>) -> bool {
    s.fourcc@ == tag && element_models(s.elements@) == elements_of(data, SignatureVersion::of(tag_text(tag)))
}

/// A tag as text.
pub open spec fn tag_text(tag: Seq<u8>) -> Seq<char> {
    Seq::new(tag.len(), |i: int| tag[i] as char)
}

/// A parsed chunk is what a payload under a tag holds.
pub open spec fn reads_as(tag: Seq<u8>, fourcc: [u8; 4], data: Seq<u8>, chunk: ChunkData) -> bool {
    match (kind_of(tag), chunk) {
        (ChunkKind::Shader, ChunkData::Shader(p)) => data.len() >= 8 && p@ == program_of(data, fourcc),
        (ChunkKind::Shader, ChunkData::Unknown) => data.len() < 8,
        (ChunkKind::Rdef, ChunkData::Rdef(v)) => data.len() >= 28 && v@ == rdef_of(data),
        (ChunkKind::Rdef, ChunkData::Unknown) => data.len() < 28,
        (ChunkKind::InputSignature, ChunkData::InputSignature(s)) => signature_reads(s, tag, data),
        (ChunkKind::OutputSignature, ChunkData::OutputSignature(s)) => signature_reads(s, tag, data),
        (ChunkKind::PatchConstantSignature, ChunkData::PatchConstantSignature(s)) => signature_reads(s, tag, data),
        (ChunkKind::Stats, ChunkData::Stats(s)) => data.len() >= 116 && s == stats_of(data),
        (ChunkKind::Stats, ChunkData::Unknown) => data.len() < 116,
        (ChunkKind::RootSignature, ChunkData::RootSignature(v)) => root_of(data) == Some(v@),
        (ChunkKind::RootSignature, ChunkData::Unknown) => root_of(data) is None,
        (ChunkKind::FeatureInfo, ChunkData::FeatureInfo(v)) => v == (ShaderFeatureInfo { flags: flags_of(data) }),
        (ChunkKind::DebugName, ChunkData::DebugName(v)) => ildn::name_of(data) == Some(v.name@),
        (ChunkKind::DebugName, ChunkData::Unknown) => ildn::name_of(data) is None,
        (ChunkKind::Dxil, ChunkData::Dxil(v)) => dxil::is_dxil(data) && dxil::holds(v, data),
        (ChunkKind::Dxil, ChunkData::Unknown) => !dxil::is_dxil(data),
        (ChunkKind::PipelineStateValidation, ChunkData::PipelineStateValidation(v)) => psv_of(data) == Some(v@),
        (ChunkKind::PipelineStateValidation, ChunkData::Unknown) => psv_of(data) is None,
        (ChunkKind::RuntimeData, ChunkData::RuntimeData(v)) => rdat_of(data) == Some((v.version, part_models(v.parts@))),
        (ChunkKind::RuntimeData, ChunkData::Unknown) => rdat_of(data) is None,
        (ChunkKind::DebugData, ChunkData::DebugData(v)) => v.raw@ == data,
        (ChunkKind::PrivateData, ChunkData::PrivateData(v)) => v.raw@ == data && match v.guid {
            Some(g) => data.len() >= 16 && g@ == data.take(16),
            None => data.len() < 16,
        },
        (ChunkKind::LibraryHeader, ChunkData::LibraryHeader(v)) => v.size == data.len() && v.raw@ == data,
        (ChunkKind::LibraryFunction, ChunkData::LibraryFunction(v)) => v.function_count == read32(data, 0) && v.size
            == data.len() && v.raw@ == data,
        (ChunkKind::LibraryFunctionSignatures, ChunkData::LibraryFunctionSignatures(v)) => v.signature_count == read32(
            data,
            0,
        ) && v.size == data.len() && v.raw@ == data,
        (ChunkKind::Other, ChunkData::Unknown) => true,
        _ => false,
    }
}

impl RawChunk {
    /// The tag says what the parsed chunk is.
    pub open spec fn holds(self, chunk: ChunkData) -> bool {
        reads_as(self.fourcc@, self.fourcc, self.data@, chunk)
    }

    fn signature(&self) -> (r: Signature)
        requires
            kind_of(self.fourcc@) is InputSignature || kind_of(self.fourcc@) is OutputSignature || kind_of(
                self.fourcc@,
            ) is PatchConstantSignature,
        ensures
            signature_reads(r, self.fourcc@, self.data@),
    {
        let name = tag_name(self.fourcc);
        let elements = parse_signature(name.as_str(), self.data.as_slice());
        Signature { fourcc: self.fourcc, elements }
    }

    /// The chunk as what its tag says it is.
    pub fn parse(&self) -> (r: ChunkData)
        ensures
            self.holds(r),
    {
        let data = self.data.as_slice();
        match kind(self.fourcc) {
            ChunkKind::Shader => match decode_with_fourcc(data, self.fourcc) {
                Ok(p) => ChunkData::Shader(p),
                Err(_) => ChunkData::Unknown,
            },
            ChunkKind::Rdef => match parse_rdef(data) {
                Some(v) => ChunkData::Rdef(v),
                None => ChunkData::Unknown,
            },
            ChunkKind::InputSignature => ChunkData::InputSignature(self.signature()),
            ChunkKind::OutputSignature => ChunkData::OutputSignature(self.signature()),
            ChunkKind::PatchConstantSignature => ChunkData::PatchConstantSignature(self.signature()),
            ChunkKind::Stats => match parse_stat(data) {
                Some(v) => ChunkData::Stats(v),
                None => ChunkData::Unknown,
            },
            ChunkKind::RootSignature => match parse_rts0(data) {
                Some(v) => ChunkData::RootSignature(v),
                None => ChunkData::Unknown,
            },
            ChunkKind::FeatureInfo => match parse_sfi0(data) {
                Some(v) => ChunkData::FeatureInfo(v),
                None => ChunkData::Unknown,
            },
            ChunkKind::DebugName => match parse_ildn(data) {
                Some(v) => ChunkData::DebugName(v),
                None => ChunkData::Unknown,
            },
            ChunkKind::Dxil => match parse_dxil(data) {
                Some(v) => ChunkData::Dxil(v),
                None => ChunkData::Unknown,
            },
            ChunkKind::PipelineStateValidation => match parse_psv0(data) {
                Some(v) => ChunkData::PipelineStateValidation(v),
                None => ChunkData::Unknown,
            },
            ChunkKind::RuntimeData => match parse_rdat(data) {
                Some(v) => ChunkData::RuntimeData(v),
                None => ChunkData::Unknown,
            },
            ChunkKind::DebugData => match parse_ildb(data) {
                Some(v) => ChunkData::DebugData(v),
                None => ChunkData::Unknown,
            },
            ChunkKind::PrivateData => match parse_priv(data) {
                Some(v) => ChunkData::PrivateData(v),
                None => ChunkData::Unknown,
            },
            ChunkKind::LibraryHeader => match parse_libh(data) {
                Some(v) => ChunkData::LibraryHeader(v),
                None => ChunkData::Unknown,
            },
            ChunkKind::LibraryFunction => match parse_libf(data) {
                Some(v) => ChunkData::LibraryFunction(v),
                None => ChunkData::Unknown,
            },
            ChunkKind::LibraryFunctionSignatures => match parse_lfs0(data) {
                Some(v) => ChunkData::LibraryFunctionSignatures(v),
                None => ChunkData::Unknown,
            },
            ChunkKind::Other => ChunkData::Unknown,
        }
    }
}

fn tag_name(tag: [u8; 4]) -> (r: String)
    ensures
        r@ == tag_text(tag@),
{
    let mut out = String::new();
    out.push(tag[0] as char);
    out.push(tag[1] as char);
    out.push(tag[2] as char);
    out.push(tag[3] as char);
    proof {
        assert(out@ =~= tag_text(tag@));
    }
    out
}

} // verus!
