//! SFI0 chunk: the optional features that a shader requires, as a mask of 64 bits.
use crate::bytes::{flat, lemma_flat_len, lemma_flat_reads, push_words, read32, read_u32};
use crate::text::{cat3, hex_fixed_upper, hexadecimal_fixed_upper};
use vstd::prelude::*;

verus! {

/// Shader uses double-precision floating point.
pub const DOUBLES: u64 = 0x0001;

/// CS uses raw and/or structured buffers.
pub const CS_RAW_STRUCTURED_BUFS: u64 = 0x0002;

/// UAVs bound at every shader stage.
pub const UAVS_AT_EVERY_STAGE: u64 = 0x0004;

/// Shader uses 64 or more UAV slots.
pub const _64_UAVS: u64 = 0x0008;

/// Shader uses minimum-precision types.
pub const MINIMUM_PRECISION: u64 = 0x0010;

/// Shader uses DX11.1 double-precision extensions.
pub const _11_1_DOUBLE_EXTENSIONS: u64 = 0x0020;

/// Shader uses DX11.1 shader extensions.
pub const _11_1_SHADER_EXTENSIONS: u64 = 0x0040;

/// Shader requires Level-9 comparison filtering.
pub const LEVEL_9_COMPARISON_FILTERING: u64 = 0x0080;

/// Shader uses tiled resources.
pub const TILED_RESOURCES: u64 = 0x0100;

/// Shader outputs a stencil reference value.
pub const STENCIL_REF: u64 = 0x0200;

/// Shader uses inner coverage (conservative rasterization).
pub const INNER_COVERAGE: u64 = 0x0400;

/// Shader uses typed UAV loads with additional formats.
pub const TYPED_UAV_LOAD_ADDITIONAL_FORMATS: u64 = 0x0800;

/// Shader uses rasterizer-ordered views (ROVs).
pub const ROVS: u64 = 0x1000;

/// Shader uses `SV_RenderTargetArrayIndex` / `SV_ViewportArrayIndex` from any stage.
pub const VP_RT_ARRAY_INDEX_ANY_SHADER: u64 = 0x2000;

/// Shader uses SM6.0 wave intrinsics.
pub const WAVE_OPS: u64 = 0x4000;

/// Shader uses 64-bit integer operations.
pub const INT64_OPS: u64 = 0x8000;

/// Shader uses `SV_ViewID`.
pub const VIEW_ID: u64 = 0x0001_0000;

/// Shader uses barycentric coordinates.
pub const BARYCENTRICS: u64 = 0x0002_0000;

/// Shader uses native 16-bit (low-precision) types.
pub const NATIVE_LOW_PRECISION: u64 = 0x0004_0000;

/// Shader uses variable-rate shading.
pub const SHADING_RATE: u64 = 0x0008_0000;

/// Shader uses DXR tier 1.1 features.
pub const RAYTRACING_TIER_1_1: u64 = 0x0010_0000;

/// Shader uses sampler feedback.
pub const SAMPLER_FEEDBACK: u64 = 0x0020_0000;

/// Shader uses 64-bit atomics on typed resources.
pub const ATOMIC_INT64_ON_TYPED_RESOURCE: u64 = 0x0040_0000;

/// Shader uses 64-bit atomics on group-shared memory.
pub const ATOMIC_INT64_ON_GROUP_SHARED: u64 = 0x0080_0000;

/// Shader uses derivatives in mesh/amplification shaders.
pub const DERIVS_IN_MESH_AMP_SHADERS: u64 = 0x0100_0000;

/// Shader uses resource descriptor heap indexing.
pub const RESOURCE_DESC_HEAP_INDEXING: u64 = 0x0200_0000;

/// Shader uses sampler descriptor heap indexing.
pub const SAMPLER_DESC_HEAP_INDEXING: u64 = 0x0400_0000;

/// Shader uses 64-bit atomics on descriptor heap resources.
pub const ATOMIC_INT64_ON_DESC_HEAP: u64 = 0x0800_0000;

/// Parsed SFI0 chunk.
#[derive(Debug, Clone, Copy)]
pub struct ShaderFeatureInfo {
    /// Raw flags value (two words in one).
    pub flags: u64,
}

impl Default for ShaderFeatureInfo {
    fn default() -> (r: Self)
        ensures
            r.flags == 0,
    {
        ShaderFeatureInfo { flags: 0 }
    }
}

/// A word that counts as nought where the data does not reach that far.
pub open spec fn word_or_zero(data: Seq<u8>, at: int) -> u32 {
    match read32(data, at) {
        Some(v) => v,
        None => 0,
    }
}

/// The flags that a chunk holds: its first word, and above it its second.
pub open spec fn flags_of(data: Seq<u8>) -> u64 {
    (word_or_zero(data, 0) + word_or_zero(data, 4) * 0x1_0000_0000) as u64
}

/// Parse an SFI0 chunk. A word that is missing counts as nought.
pub fn parse_sfi0(data: &[u8]) -> (r: Option<ShaderFeatureInfo>)
    ensures
        r == Some(ShaderFeatureInfo { flags: flags_of(data@) }),
{
    let lo: u64 = match read_u32(data, 0) {
        Some(v) => v as u64,
        None => 0,
    };
    let hi: u64 = match read_u32(data, 4) {
        Some(v) => v as u64,
        None => 0,
    };
    Some(ShaderFeatureInfo { flags: lo + hi * 0x1_0000_0000 })
}

/// The bit of a known flag, counted in bit order.
pub open spec fn flag_bit(at: int) -> u64 {
    if at == 0 { DOUBLES }
    else if at == 1 { CS_RAW_STRUCTURED_BUFS }
    else if at == 2 { UAVS_AT_EVERY_STAGE }
    else if at == 3 { _64_UAVS }
    else if at == 4 { MINIMUM_PRECISION }
    else if at == 5 { _11_1_DOUBLE_EXTENSIONS }
    else if at == 6 { _11_1_SHADER_EXTENSIONS }
    else if at == 7 { LEVEL_9_COMPARISON_FILTERING }
    else if at == 8 { TILED_RESOURCES }
    else if at == 9 { STENCIL_REF }
    else if at == 10 { INNER_COVERAGE }
    else if at == 11 { TYPED_UAV_LOAD_ADDITIONAL_FORMATS }
    else if at == 12 { ROVS }
    else if at == 13 { VP_RT_ARRAY_INDEX_ANY_SHADER }
    else if at == 14 { WAVE_OPS }
    else if at == 15 { INT64_OPS }
    else if at == 16 { VIEW_ID }
    else if at == 17 { BARYCENTRICS }
    else if at == 18 { NATIVE_LOW_PRECISION }
    else if at == 19 { SHADING_RATE }
    else if at == 20 { RAYTRACING_TIER_1_1 }
    else if at == 21 { SAMPLER_FEEDBACK }
    else if at == 22 { ATOMIC_INT64_ON_TYPED_RESOURCE }
    else if at == 23 { ATOMIC_INT64_ON_GROUP_SHARED }
    else if at == 24 { DERIVS_IN_MESH_AMP_SHADERS }
    else if at == 25 { RESOURCE_DESC_HEAP_INDEXING }
    else if at == 26 { SAMPLER_DESC_HEAP_INDEXING }
    else if at == 27 { ATOMIC_INT64_ON_DESC_HEAP }
    else { 0 }
}

/// The name of a known flag, counted in bit order.
pub open spec fn flag_name(at: int) -> Seq<char> {
    if at == 0 { "Doubles"@ }
    else if at == 1 { "CS+Raw/StructuredBuffers"@ }
    else if at == 2 { "UAVsAtEveryStage"@ }
    else if at == 3 { "64UAVs"@ }
    else if at == 4 { "MinimumPrecision"@ }
    else if at == 5 { "11.1DoubleExtensions"@ }
    else if at == 6 { "11.1ShaderExtensions"@ }
    else if at == 7 { "Level9ComparisonFiltering"@ }
    else if at == 8 { "TiledResources"@ }
    else if at == 9 { "StencilRef"@ }
    else if at == 10 { "InnerCoverage"@ }
    else if at == 11 { "TypedUAVLoadAdditionalFormats"@ }
    else if at == 12 { "ROVs"@ }
    else if at == 13 { "VPAndRTArrayIndexFromAnyShader"@ }
    else if at == 14 { "WaveOps"@ }
    else if at == 15 { "Int64Ops"@ }
    else if at == 16 { "ViewID"@ }
    else if at == 17 { "Barycentrics"@ }
    else if at == 18 { "NativeLowPrecision"@ }
    else if at == 19 { "ShadingRate"@ }
    else if at == 20 { "RaytracingTier1_1"@ }
    else if at == 21 { "SamplerFeedback"@ }
    else if at == 22 { "AtomicInt64OnTypedResource"@ }
    else if at == 23 { "AtomicInt64OnGroupShared"@ }
    else if at == 24 { "DerivativesInMeshAndAmpShaders"@ }
    else if at == 25 { "ResourceDescriptorHeapIndexing"@ }
    else if at == 26 { "SamplerDescriptorHeapIndexing"@ }
    else if at == 27 { "AtomicInt64OnDescriptorHeap"@ }
    else { ""@ }
}

/// How many flags are known.
pub const KNOWN: usize = 28;

fn known_flag(at: usize) -> (r: (u64, &'static str))
    ensures
        r.0 == flag_bit(at as int),
        r.1@ == flag_name(at as int),
{
    match at {
        0 => (DOUBLES, "Doubles"),
        1 => (CS_RAW_STRUCTURED_BUFS, "CS+Raw/StructuredBuffers"),
        2 => (UAVS_AT_EVERY_STAGE, "UAVsAtEveryStage"),
        3 => (_64_UAVS, "64UAVs"),
        4 => (MINIMUM_PRECISION, "MinimumPrecision"),
        5 => (_11_1_DOUBLE_EXTENSIONS, "11.1DoubleExtensions"),
        6 => (_11_1_SHADER_EXTENSIONS, "11.1ShaderExtensions"),
        7 => (LEVEL_9_COMPARISON_FILTERING, "Level9ComparisonFiltering"),
        8 => (TILED_RESOURCES, "TiledResources"),
        9 => (STENCIL_REF, "StencilRef"),
        10 => (INNER_COVERAGE, "InnerCoverage"),
        11 => (TYPED_UAV_LOAD_ADDITIONAL_FORMATS, "TypedUAVLoadAdditionalFormats"),
        12 => (ROVS, "ROVs"),
        13 => (VP_RT_ARRAY_INDEX_ANY_SHADER, "VPAndRTArrayIndexFromAnyShader"),
        14 => (WAVE_OPS, "WaveOps"),
        15 => (INT64_OPS, "Int64Ops"),
        16 => (VIEW_ID, "ViewID"),
        17 => (BARYCENTRICS, "Barycentrics"),
        18 => (NATIVE_LOW_PRECISION, "NativeLowPrecision"),
        19 => (SHADING_RATE, "ShadingRate"),
        20 => (RAYTRACING_TIER_1_1, "RaytracingTier1_1"),
        21 => (SAMPLER_FEEDBACK, "SamplerFeedback"),
        22 => (ATOMIC_INT64_ON_TYPED_RESOURCE, "AtomicInt64OnTypedResource"),
        23 => (ATOMIC_INT64_ON_GROUP_SHARED, "AtomicInt64OnGroupShared"),
        24 => (DERIVS_IN_MESH_AMP_SHADERS, "DerivativesInMeshAndAmpShaders"),
        25 => (RESOURCE_DESC_HEAP_INDEXING, "ResourceDescriptorHeapIndexing"),
        26 => (SAMPLER_DESC_HEAP_INDEXING, "SamplerDescriptorHeapIndexing"),
        27 => (ATOMIC_INT64_ON_DESC_HEAP, "AtomicInt64OnDescriptorHeap"),
        _ => (0, ""),
    }
}

/// The names of those among the first `n` known flags that are set, a line each.
pub open spec fn flag_lines(flags: u64, n: nat) -> Seq<char>
    decreases n,
{
    if n == 0 {
        Seq::empty()
    } else if flags & flag_bit(n - 1) != 0 {
        flag_lines(flags, (n - 1) as nat) + ("//   "@ + flag_name(n - 1) + "\n"@)
    } else {
        flag_lines(flags, (n - 1) as nat)
    }
}

impl ShaderFeatureInfo {
    /// The payload: the low and the high word.
    pub open spec fn payload(self) -> Seq<u8> {
        flat(seq![(self.flags % 0x1_0000_0000) as u32, (self.flags / 0x1_0000_0000) as u32])
    }

    /// The tag the chunk goes under.
    pub fn fourcc(&self) -> (r: [u8; 4])
        ensures
            r == [0x53u8, 0x46, 0x49, 0x30],
    {
        [0x53u8, 0x46, 0x49, 0x30]
    }

    /// The payload: the low and the high word.
    pub fn write_payload(&self) -> (r: Vec<u8>)
        ensures
            r@ == self.payload(),
    {
        let words: [u32; 2] = [(self.flags % 0x1_0000_0000) as u32, (self.flags / 0x1_0000_0000) as u32];
        let mut out: Vec<u8> = Vec::new();
        push_words(&mut out, &words);
        proof {
            assert(words@ =~= seq![(self.flags % 0x1_0000_0000) as u32, (self.flags / 0x1_0000_0000) as u32]);
            assert(out@ =~= self.payload());
        }
        out
    }

    /// Whether any of the given flag bits is set.
    pub fn has(&self, flag: u64) -> (r: bool)
        ensures
            r == (self.flags & flag != 0),
    {
        self.flags & flag != 0
    }

    /// The chunk in words.
    pub open spec fn text_spec(self) -> Seq<char> {
        if self.flags == 0 {
            "// Shader Feature Info: (none)\n"@
        } else {
            "// Shader Feature Info: 0x"@ + hex_fixed_upper(self.flags as nat, 16) + "\n"@ + flag_lines(self.flags, 28)
        }
    }

    /// The chunk in words: the flags and the names of those that are known.
    pub fn text(&self) -> (r: String)
        ensures
            r@ == self.text_spec(),
    {
        if self.flags == 0 {
            return "// Shader Feature Info: (none)\n".to_owned();
        }
        let h = hexadecimal_fixed_upper(self.flags, 16);
        let head = cat3("// Shader Feature Info: 0x", h.as_str(), "\n");
        let mut lines = String::new();
        let mut i: usize = 0;
        proof {
            assert(lines@ =~= flag_lines(self.flags, 0));
        }
        while i < KNOWN
            invariant
                i <= KNOWN,
                lines@ == flag_lines(self.flags, i as nat),
            decreases KNOWN - i,
        {
            let (bit, name) = known_flag(i);
            if self.has(bit) {
                let line = cat3("//   ", name, "\n");
                lines.push_str(line.as_str());
            }
            i = i + 1;
        }
        crate::text::cat2(head.as_str(), lines.as_str())
    }
}

/// Parsing what was written gives the flags back.
pub proof fn law_feature_info_comes_back(v: ShaderFeatureInfo)
    ensures
        flags_of(v.payload()) == v.flags,
{
    let words = seq![(v.flags % 0x1_0000_0000) as u32, (v.flags / 0x1_0000_0000) as u32];
    let data = v.payload();
    lemma_flat_len(words);
    lemma_flat_reads(Seq::empty(), words, Seq::empty());
    assert(Seq::<u8>::empty() + flat(words) + Seq::<u8>::empty() =~= data);
    assert(crate::bytes::le32(data, 4int * 0) == words[0]);
    assert(crate::bytes::le32(data, 4int * 1) == words[1]);
}

} // verus!
