//! RTS0 chunk: a serialized root signature.
use crate::bytes::{fitting, fitting_count, flat, le32, lemma_flat_len, lemma_stands_words, push_words, read_u32};
use crate::float::{display32, display_single};
use crate::text::{
    align_right, cat2, cat3, cat4, cat5, cat6, cat7, dec, decimal, hex_upper, hexadecimal_upper, right_aligned,
};
use vstd::prelude::*;

verus! {

/// Parsed RTS0 (root signature) chunk.
#[derive(Debug)]
pub struct RootSignature {
    /// Root signature version (1 = v1.0, 2 = v1.1).
    pub version: u32,
    /// Root signature flags (e.g. ALLOW_INPUT_ASSEMBLER, DENY_*_SHADER_ROOT_ACCESS).
    pub flags: u32,
    /// Root parameters (descriptor tables, constants, root descriptors).
    pub parameters: Vec<RootParameter>,
    /// Static sampler definitions baked into the root signature.
    pub static_samplers: Vec<StaticSampler>,
}

/// A single root parameter entry.
#[derive(Debug)]
pub struct RootParameter {
    /// The parameter payload (table, constants, or inline descriptor).
    pub param_type: RootParameterType,
    /// Which shader stage(s) can see this parameter.
    pub visibility: ShaderVisibility,
}

/// Root parameter payload variants.
#[derive(Debug)]
pub enum RootParameterType {
    /// A descriptor table containing one or more descriptor ranges.
    DescriptorTable {
        /// Ordered list of descriptor ranges in this table.
        ranges: Vec<DescriptorRange>,
    },
    /// Inline 32-bit root constants.
    Constants32Bit {
        /// Base shader register (`b` register).
        register: u32,
        /// Register space.
        space: u32,
        /// Number of 32-bit values.
        num_values: u32,
    },
    /// Inline CBV root descriptor.
    Cbv {
        /// Shader register (`b` register).
        register: u32,
        /// Register space.
        space: u32,
    },
    /// Inline SRV root descriptor.
    Srv {
        /// Shader register (`t` register).
        register: u32,
        /// Register space.
        space: u32,
    },
    /// Inline UAV root descriptor.
    Uav {
        /// Shader register (`u` register).
        register: u32,
        /// Register space.
        space: u32,
    },
}

/// A descriptor range within a descriptor table.
#[derive(Debug, Clone, Copy)]
pub struct DescriptorRange {
    /// SRV, UAV, CBV, or Sampler.
    pub range_type: DescriptorRangeType,
    /// Number of descriptors (0xFFFFFFFF = unbounded).
    pub num_descriptors: u32,
    /// First shader register in this range.
    pub base_shader_register: u32,
    /// Register space.
    pub register_space: u32,
    /// Offset from the start of the table (0xFFFFFFFF = append).
    pub offset_in_descriptors_from_table_start: u32,
}

/// Descriptor range type.
#[derive(Debug, Clone, Copy, PartialEq, Eq, Structural)]
pub enum DescriptorRangeType {
    /// Shader resource view range.
    Srv,
    /// Unordered access view range.
    Uav,
    /// Constant buffer view range.
    Cbv,
    /// Sampler state range.
    Sampler,
}

/// Which shader stage(s) a root parameter or static sampler is visible to.
#[derive(Debug, Clone, Copy, PartialEq, Eq, Structural)]
pub enum ShaderVisibility {
    /// Visible to all shader stages.
    All,
    /// Visible only to the vertex shader.
    Vertex,
    /// Visible only to the hull shader.
    Hull,
    /// Visible only to the domain shader.
    Domain,
    /// Visible only to the geometry shader.
    Geometry,
    /// Visible only to the pixel shader.
    Pixel,
}

/// A static sampler baked into the root signature.
#[derive(Debug, Clone, Copy)]
pub struct StaticSampler {
    /// D3D12 filter mode (raw `D3D12_FILTER` value).
    pub filter: u32,
    /// Texture address mode for U axis (raw `D3D12_TEXTURE_ADDRESS_MODE`).
    pub address_u: u32,
    /// Texture address mode for V axis.
    pub address_v: u32,
    /// Texture address mode for W axis.
    pub address_w: u32,
    /// Mip LOD bias (the bits of a float).
    pub mip_lod_bias: u32,
    /// Maximum anisotropy (1 to 16).
    pub max_anisotropy: u32,
    /// Comparison function (raw `D3D12_COMPARISON_FUNC`).
    pub comparison_func: u32,
    /// Border color (raw `D3D12_STATIC_BORDER_COLOR`).
    pub border_color: u32,
    /// Minimum LOD clamp (the bits of a float).
    pub min_lod: u32,
    /// Maximum LOD clamp (the bits of a float).
    pub max_lod: u32,
    /// Sampler shader register (`s` register).
    pub shader_register: u32,
    /// Register space.
    pub register_space: u32,
    /// Which shader stage(s) can see this sampler.
    pub visibility: ShaderVisibility,
}

impl ShaderVisibility {
    /// The variant of a stored value.
    pub open spec fn of(v: u32) -> ShaderVisibility {
        if v == 1 { ShaderVisibility::Vertex }
        else if v == 2 { ShaderVisibility::Hull }
        else if v == 3 { ShaderVisibility::Domain }
        else if v == 4 { ShaderVisibility::Geometry }
        else if v == 5 { ShaderVisibility::Pixel }
        else { ShaderVisibility::All }
    }

    /// The value a variant is stored as.
    pub open spec fn raw(self) -> u32 {
        match self {
            ShaderVisibility::All => 0,
            ShaderVisibility::Vertex => 1,
            ShaderVisibility::Hull => 2,
            ShaderVisibility::Domain => 3,
            ShaderVisibility::Geometry => 4,
            ShaderVisibility::Pixel => 5,
        }
    }

    /// What a variant is called.
    pub open spec fn name_text(self) -> Seq<char> {
        match self {
            ShaderVisibility::All => "ALL"@,
            ShaderVisibility::Vertex => "VS"@,
            ShaderVisibility::Hull => "HS"@,
            ShaderVisibility::Domain => "DS"@,
            ShaderVisibility::Geometry => "GS"@,
            ShaderVisibility::Pixel => "PS"@,
        }
    }

    /// The variant of a stored value.
    pub fn from_u32(v: u32) -> (r: Self)
        ensures
            r == ShaderVisibility::of(v),
    {
        match v {
            1 => ShaderVisibility::Vertex,
            2 => ShaderVisibility::Hull,
            3 => ShaderVisibility::Domain,
            4 => ShaderVisibility::Geometry,
            5 => ShaderVisibility::Pixel,
            _ => ShaderVisibility::All,
        }
    }

    /// The value a variant is stored as.
    pub fn to_u32(self) -> (r: u32)
        ensures
            r == self.raw(),
    {
        match self {
            ShaderVisibility::All => 0,
            ShaderVisibility::Vertex => 1,
            ShaderVisibility::Hull => 2,
            ShaderVisibility::Domain => 3,
            ShaderVisibility::Geometry => 4,
            ShaderVisibility::Pixel => 5,
        }
    }

    /// What a variant is called.
    pub fn name(self) -> (r: &'static str)
        ensures
            r@ == self.name_text(),
    {
        match self {
            ShaderVisibility::All => "ALL",
            ShaderVisibility::Vertex => "VS",
            ShaderVisibility::Hull => "HS",
            ShaderVisibility::Domain => "DS",
            ShaderVisibility::Geometry => "GS",
            ShaderVisibility::Pixel => "PS",
        }
    }
}

impl DescriptorRangeType {
    /// The variant of a stored value.
    pub open spec fn of(v: u32) -> DescriptorRangeType {
        if v == 1 { DescriptorRangeType::Uav }
        else if v == 2 { DescriptorRangeType::Cbv }
        else if v == 3 { DescriptorRangeType::Sampler }
        else { DescriptorRangeType::Srv }
    }

    /// The value a variant is stored as.
    pub open spec fn raw(self) -> u32 {
        match self {
            DescriptorRangeType::Srv => 0,
            DescriptorRangeType::Uav => 1,
            DescriptorRangeType::Cbv => 2,
            DescriptorRangeType::Sampler => 3,
        }
    }

    /// What a variant is called.
    pub open spec fn name_text(self) -> Seq<char> {
        match self {
            DescriptorRangeType::Srv => "SRV"@,
            DescriptorRangeType::Uav => "UAV"@,
            DescriptorRangeType::Cbv => "CBV"@,
            DescriptorRangeType::Sampler => "SAMPLER"@,
        }
    }

    /// The variant of a stored value.
    pub fn from_u32(v: u32) -> (r: Self)
        ensures
            r == DescriptorRangeType::of(v),
    {
        match v {
            1 => DescriptorRangeType::Uav,
            2 => DescriptorRangeType::Cbv,
            3 => DescriptorRangeType::Sampler,
            _ => DescriptorRangeType::Srv,
        }
    }

    /// The value a variant is stored as.
    pub fn to_u32(self) -> (r: u32)
        ensures
            r == self.raw(),
    {
        match self {
            DescriptorRangeType::Srv => 0,
            DescriptorRangeType::Uav => 1,
            DescriptorRangeType::Cbv => 2,
            DescriptorRangeType::Sampler => 3,
        }
    }

    /// What a variant is called.
    pub fn name(self) -> (r: &'static str)
        ensures
            r@ == self.name_text(),
    {
        match self {
            DescriptorRangeType::Srv => "SRV",
            DescriptorRangeType::Uav => "UAV",
            DescriptorRangeType::Cbv => "CBV",
            DescriptorRangeType::Sampler => "SAMPLER",
        }
    }
}

/// A visibility comes back from the value that it is stored as.
pub proof fn law_visibility_comes_back(v: ShaderVisibility)
    ensures
        ShaderVisibility::of(v.raw()) == v,
{
}

/// A range type comes back from the value that it is stored as.
pub proof fn law_range_type_comes_back(v: DescriptorRangeType)
    ensures
        DescriptorRangeType::of(v.raw()) == v,
{
}

impl DescriptorRangeType {
    /// The register prefix of a range type.
    pub open spec fn prefix_char(self) -> char {
        match self {
            DescriptorRangeType::Srv => 't',
            DescriptorRangeType::Uav => 'u',
            DescriptorRangeType::Cbv => 'b',
            DescriptorRangeType::Sampler => 's',
        }
    }

    /// Returns the HLSL register prefix character for this range type.
    pub fn prefix(&self) -> (r: char)
        ensures
            r == self.prefix_char(),
    {
        match self {
            DescriptorRangeType::Srv => 't',
            DescriptorRangeType::Uav => 'u',
            DescriptorRangeType::Cbv => 'b',
            DescriptorRangeType::Sampler => 's',
        }
    }
}

/// What a root parameter's payload holds.
#[verifier::ext_equal]
pub enum PayloadModel {
    DescriptorTable { ranges: Seq<DescriptorRange> },
    Constants32Bit { register: u32, space: u32, num_values: u32 },
    Cbv { register: u32, space: u32 },
    Srv { register: u32, space: u32 },
    Uav { register: u32, space: u32 },
}

/// What a root parameter holds.
pub struct ParameterModel {
    pub param_type: PayloadModel,
    pub visibility: ShaderVisibility,
}

/// What a root signature holds.
pub struct RootModel {
    pub version: u32,
    pub flags: u32,
    pub parameters: Seq<ParameterModel>,
    pub static_samplers: Seq<StaticSampler>,
}

impl RootParameter {
    /// What the parameter holds.
    pub open spec fn view(&self) -> ParameterModel {
        ParameterModel {
            param_type: match self.param_type {
                RootParameterType::DescriptorTable { ranges } => PayloadModel::DescriptorTable { ranges: ranges@ },
                RootParameterType::Constants32Bit { register, space, num_values } => PayloadModel::Constants32Bit {
                    register,
                    space,
                    num_values,
                },
                RootParameterType::Cbv { register, space } => PayloadModel::Cbv { register, space },
                RootParameterType::Srv { register, space } => PayloadModel::Srv { register, space },
                RootParameterType::Uav { register, space } => PayloadModel::Uav { register, space },
            },
            visibility: self.visibility,
        }
    }
}

/// What each parameter of a list holds.
pub open spec fn parameter_models(parameters: Seq<RootParameter>) -> Seq<ParameterModel> {
    Seq::new(parameters.len(), |i: int| parameters[i]@)
}

impl RootSignature {
    /// What the root signature holds.
    pub open spec fn view(&self) -> RootModel {
        RootModel {
            version: self.version,
            flags: self.flags,
            parameters: parameter_models(self.parameters@),
            static_samplers: self.static_samplers@,
        }
    }
}

/// The descriptor range at a place.
pub open spec fn range_of(data: Seq<u8>, at: int) -> DescriptorRange {
    DescriptorRange {
        range_type: DescriptorRangeType::of(le32(data, at)),
        num_descriptors: le32(data, at + 4),
        base_shader_register: le32(data, at + 8),
        register_space: le32(data, at + 12),
        offset_in_descriptors_from_table_start: le32(data, at + 16),
    }
}

/// The descriptor ranges of a table whose count and offset stand at a place, as far as the data holds them
/// whole.
pub open spec fn ranges_of(data: Seq<u8>, at: int) -> Seq<DescriptorRange> {
    let offset = le32(data, at + 4);
    Seq::new(
        fitting(data.len(), offset as nat, 20, le32(data, at) as nat),
        |i: int| range_of(data, offset + i * 20),
    )
}

/// The payload of a parameter of a stored type at a place, where the data reaches that far.
pub open spec fn payload_of(data: Seq<u8>, kind: u32, at: int) -> Option<PayloadModel> {
    if at + 8 > data.len() || (kind == 1 && at + 12 > data.len()) {
        None
    } else if kind == 0 {
        Some(PayloadModel::DescriptorTable { ranges: ranges_of(data, at) })
    } else if kind == 1 {
        Some(
            PayloadModel::Constants32Bit {
                register: le32(data, at),
                space: le32(data, at + 4),
                num_values: le32(data, at + 8),
            },
        )
    } else if kind == 2 {
        Some(PayloadModel::Cbv { register: le32(data, at), space: le32(data, at + 4) })
    } else if kind == 3 {
        Some(PayloadModel::Srv { register: le32(data, at), space: le32(data, at + 4) })
    } else {
        Some(PayloadModel::Uav { register: le32(data, at), space: le32(data, at + 4) })
    }
}

/// The parameter whose entry stands at a place.
pub open spec fn parameter_of(data: Seq<u8>, at: int) -> Option<ParameterModel> {
    match payload_of(data, le32(data, at), le32(data, at + 8) as int) {
        None => None,
        Some(param_type) => Some(
            ParameterModel { param_type, visibility: ShaderVisibility::of(le32(data, at + 4)) },
        ),
    }
}

/// The first `n` parameters, the entries starting at an offset.
pub open spec fn parameters_of(data: Seq<u8>, offset: int, n: nat) -> Option<Seq<ParameterModel>>
    decreases n,
{
    if n == 0 {
        Some(Seq::empty())
    } else {
        match parameters_of(data, offset, (n - 1) as nat) {
            None => None,
            Some(list) => match parameter_of(data, offset + (n - 1) * 12) {
                None => None,
                Some(one) => Some(list.push(one)),
            },
        }
    }
}

/// The static sampler at a place.
pub open spec fn sampler_of(data: Seq<u8>, at: int) -> StaticSampler {
    StaticSampler {
        filter: le32(data, at),
        address_u: le32(data, at + 4),
        address_v: le32(data, at + 8),
        address_w: le32(data, at + 12),
        mip_lod_bias: le32(data, at + 16),
        max_anisotropy: le32(data, at + 20),
        comparison_func: le32(data, at + 24),
        border_color: le32(data, at + 28),
        min_lod: le32(data, at + 32),
        max_lod: le32(data, at + 36),
        shader_register: le32(data, at + 40),
        register_space: le32(data, at + 44),
        visibility: ShaderVisibility::of(le32(data, at + 48)),
    }
}

/// The static samplers, as far as the data holds them whole.
pub open spec fn samplers_of(data: Seq<u8>, offset: u32, count: u32) -> Seq<StaticSampler> {
    Seq::new(fitting(data.len(), offset as nat, 52, count as nat), |i: int| sampler_of(data, offset + i * 52))
}

/// What a chunk holds, where its header is there and each parameter's payload lies within the data.
pub open spec fn root_of(data: Seq<u8>) -> Option<RootModel> {
    if data.len() < 24 {
        None
    } else {
        match parameters_of(
            data,
            le32(data, 8) as int,
            fitting(data.len(), le32(data, 8) as nat, 12, le32(data, 4) as nat),
        ) {
            None => None,
            Some(parameters) => Some(
                RootModel {
                    version: le32(data, 0),
                    flags: le32(data, 20),
                    parameters,
                    static_samplers: samplers_of(data, le32(data, 16), le32(data, 12)),
                },
            ),
        }
    }
}

fn word(data: &[u8], at: u64) -> (r: u32)
    requires
        at + 4 <= data@.len(),
    ensures
        r == le32(data@, at as int),
{
    match read_u32(data, at) {
        Some(v) => v,
        None => 0,
    }
}

fn read_range(data: &[u8], at: u64) -> (r: DescriptorRange)
    requires
        at + 20 <= data@.len(),
        at <= 0xFFFF_FFFF_FFFF,
    ensures
        r == range_of(data@, at as int),
{
    DescriptorRange {
        range_type: DescriptorRangeType::from_u32(word(data, at)),
        num_descriptors: word(data, at + 4),
        base_shader_register: word(data, at + 8),
        register_space: word(data, at + 12),
        offset_in_descriptors_from_table_start: word(data, at + 16),
    }
}

fn read_ranges(data: &[u8], at: u64) -> (r: Vec<DescriptorRange>)
    requires
        at + 8 <= data@.len(),
        at <= 0xFFFF_FFFF,
    ensures
        r@ == ranges_of(data@, at as int),
{
    let count: u32 = word(data, at);
    let offset: u32 = word(data, at + 4);
    let total: u64 = fitting_count(data.len(), offset, 20, count);
    let mut out: Vec<DescriptorRange> = Vec::new();
    let mut i: u64 = 0;
    while i < total
        invariant
            i <= total <= 0xFFFF_FFFF,
            total > 0 ==> offset + total * 20 <= data@.len(),
            total == ranges_of(data@, at as int).len(),
            offset == le32(data@, at + 4),
            out@ == ranges_of(data@, at as int).take(i as int),
        decreases total - i,
    {
        let one = read_range(data, offset as u64 + i * 20);
        out.push(one);
        i = i + 1;
        proof {
            assert(out@ =~= ranges_of(data@, at as int).take(i as int));
        }
    }
    proof {
        assert(ranges_of(data@, at as int).take(i as int) =~= ranges_of(data@, at as int));
    }
    out
}

fn read_parameter(data: &[u8], at: u64) -> (r: Option<RootParameter>)
    requires
        at + 12 <= data@.len(),
        at <= 0xFFFF_FFFF_FFFF,
    ensures
        match r {
            Some(p) => parameter_of(data@, at as int) == Some(p@),
            None => parameter_of(data@, at as int) is None,
        },
{
    let kind: u32 = word(data, at);
    let visibility = ShaderVisibility::from_u32(word(data, at + 4));
    let place: u64 = word(data, at + 8) as u64;
    let len: u64 = data.len() as u64;
    if place + 8 > len || (kind == 1 && place + 12 > len) {
        return None;
    }
    let param_type = match kind {
        0 => RootParameterType::DescriptorTable { ranges: read_ranges(data, place) },
        1 => RootParameterType::Constants32Bit {
            register: word(data, place),
            space: word(data, place + 4),
            num_values: word(data, place + 8),
        },
        2 => RootParameterType::Cbv { register: word(data, place), space: word(data, place + 4) },
        3 => RootParameterType::Srv { register: word(data, place), space: word(data, place + 4) },
        _ => RootParameterType::Uav { register: word(data, place), space: word(data, place + 4) },
    };
    Some(RootParameter { param_type, visibility })
}

proof fn lemma_parameters_fail(data: Seq<u8>, offset: int, m: nat, n: nat)
    requires
        m <= n,
        parameters_of(data, offset, m) is None,
    ensures
        parameters_of(data, offset, n) is None,
    decreases n,
{
    if m < n {
        lemma_parameters_fail(data, offset, m, (n - 1) as nat);
    }
}

fn read_parameters(data: &[u8], offset: u32, count: u32) -> (r: Option<Vec<RootParameter>>)
    ensures
        match r {
            Some(v) => parameters_of(
                data@,
                offset as int,
                fitting(data@.len(), offset as nat, 12, count as nat),
            ) == Some(parameter_models(v@)),
            None => parameters_of(
                data@,
                offset as int,
                fitting(data@.len(), offset as nat, 12, count as nat),
            ) is None,
        },
{
    let total: u64 = fitting_count(data.len(), offset, 12, count);
    let mut out: Vec<RootParameter> = Vec::new();
    let mut i: u64 = 0;
    proof {
        assert(parameter_models(out@) =~= Seq::empty());
    }
    while i < total
        invariant
            i <= total <= 0xFFFF_FFFF,
            total > 0 ==> offset + total * 12 <= data@.len(),
            total == fitting(data@.len(), offset as nat, 12, count as nat),
            parameters_of(data@, offset as int, i as nat) == Some(parameter_models(out@)),
        decreases total - i,
    {
        match read_parameter(data, offset as u64 + i * 12) {
            None => {
                proof {
                    lemma_parameters_fail(data@, offset as int, (i + 1) as nat, total as nat);
                }
                return None;
            },
            Some(one) => {
                let ghost before = parameter_models(out@);
                let ghost m = one@;
                out.push(one);
                proof {
                    assert(parameter_models(out@) =~= before.push(m));
                }
            },
        }
        i = i + 1;
    }
    Some(out)
}

fn read_sampler(data: &[u8], at: u64) -> (r: StaticSampler)
    requires
        at + 52 <= data@.len(),
        at <= 0xFFFF_FFFF_FFFF,
    ensures
        r == sampler_of(data@, at as int),
{
    StaticSampler {
        filter: word(data, at),
        address_u: word(data, at + 4),
        address_v: word(data, at + 8),
        address_w: word(data, at + 12),
        mip_lod_bias: word(data, at + 16),
        max_anisotropy: word(data, at + 20),
        comparison_func: word(data, at + 24),
        border_color: word(data, at + 28),
        min_lod: word(data, at + 32),
        max_lod: word(data, at + 36),
        shader_register: word(data, at + 40),
        register_space: word(data, at + 44),
        visibility: ShaderVisibility::from_u32(word(data, at + 48)),
    }
}

fn read_samplers(data: &[u8], offset: u32, count: u32) -> (r: Vec<StaticSampler>)
    ensures
        r@ == samplers_of(data@, offset, count),
{
    let total: u64 = fitting_count(data.len(), offset, 52, count);
    let mut out: Vec<StaticSampler> = Vec::new();
    let mut i: u64 = 0;
    while i < total
        invariant
            i <= total <= 0xFFFF_FFFF,
            total > 0 ==> offset + total * 52 <= data@.len(),
            total == samplers_of(data@, offset, count).len(),
            out@ == samplers_of(data@, offset, count).take(i as int),
        decreases total - i,
    {
        let one = read_sampler(data, offset as u64 + i * 52);
        out.push(one);
        i = i + 1;
        proof {
            assert(out@ =~= samplers_of(data@, offset, count).take(i as int));
        }
    }
    proof {
        assert(samplers_of(data@, offset, count).take(i as int) =~= samplers_of(data@, offset, count));
    }
    out
}

/// Parse RTS0 chunk data (the bytes behind the tag and the size).
pub fn parse_rts0(data: &[u8]) -> (r: Option<RootSignature>)
    ensures
        match r {
            Some(v) => root_of(data@) == Some(v@),
            None => root_of(data@) is None,
        },
{
    if data.len() < 24 {
        return None;
    }
    let version: u32 = word(data, 0);
    let np: u32 = word(data, 4);
    let p_off: u32 = word(data, 8);
    let ns: u32 = word(data, 12);
    let s_off: u32 = word(data, 16);
    let flags: u32 = word(data, 20);
    match read_parameters(data, p_off, np) {
        None => None,
        Some(parameters) => Some(
            RootSignature { version, flags, parameters, static_samplers: read_samplers(data, s_off, ns) },
        ),
    }
}

/// The words of a descriptor range.
pub open spec fn range_words(r: DescriptorRange) -> Seq<u32> {
    seq![
        r.range_type.raw(),
        r.num_descriptors,
        r.base_shader_register,
        r.register_space,
        r.offset_in_descriptors_from_table_start,
    ]
}

/// The words of the first `n` descriptor ranges.
pub open spec fn ranges_words(ranges: Seq<DescriptorRange>, n: nat) -> Seq<u32>
    decreases n,
{
    if n == 0 {
        Seq::empty()
    } else {
        ranges_words(ranges, (n - 1) as nat) + range_words(ranges[n - 1])
    }
}

/// The words of a parameter's payload that stands at a place. The ranges of a table follow right behind
/// their count and offset.
pub open spec fn payload_words(p: PayloadModel, at: nat) -> Seq<u32> {
    match p {
        PayloadModel::DescriptorTable { ranges } => seq![ranges.len() as u32, (at + 8) as u32] + ranges_words(
            ranges,
            ranges.len(),
        ),
        PayloadModel::Constants32Bit { register, space, num_values } => seq![register, space, num_values],
        PayloadModel::Cbv { register, space } => seq![register, space],
        PayloadModel::Srv { register, space } => seq![register, space],
        PayloadModel::Uav { register, space } => seq![register, space],
    }
}

/// The stored type of a payload.
pub open spec fn payload_kind(p: PayloadModel) -> u32 {
    match p {
        PayloadModel::DescriptorTable { .. } => 0,
        PayloadModel::Constants32Bit { .. } => 1,
        PayloadModel::Cbv { .. } => 2,
        PayloadModel::Srv { .. } => 3,
        PayloadModel::Uav { .. } => 4,
    }
}

/// Where the payloads start.
pub open spec fn payloads_start(count: nat) -> nat {
    24 + 12 * count
}

/// The words of the first `n` payloads.
pub open spec fn payloads_words(parameters: Seq<ParameterModel>, n: nat) -> Seq<u32>
    decreases n,
{
    if n == 0 {
        Seq::empty()
    } else {
        payloads_words(parameters, (n - 1) as nat) + payload_words(
            parameters[n - 1].param_type,
            payload_place(parameters, (n - 1) as nat),
        )
    }
}

/// Where a payload stands.
pub open spec fn payload_place(parameters: Seq<ParameterModel>, at: nat) -> nat
    decreases at, 1nat,
{
    payloads_start(parameters.len()) + 4 * payload_lengths(parameters, at)
}

/// How many words a payload takes.
pub open spec fn payload_length(p: PayloadModel) -> nat {
    match p {
        PayloadModel::DescriptorTable { ranges } => 2 + 5 * ranges.len(),
        PayloadModel::Constants32Bit { .. } => 3,
        _ => 2,
    }
}

/// How many words the first `n` payloads take.
pub open spec fn payload_lengths(parameters: Seq<ParameterModel>, n: nat) -> nat
    decreases n, 0nat,
{
    if n == 0 {
        0
    } else {
        payload_lengths(parameters, (n - 1) as nat) + payload_length(parameters[n - 1].param_type)
    }
}

/// The words of the first `n` parameter entries.
pub open spec fn entries_words(parameters: Seq<ParameterModel>, n: nat) -> Seq<u32>
    decreases n,
{
    if n == 0 {
        Seq::empty()
    } else {
        entries_words(parameters, (n - 1) as nat) + seq![
            payload_kind(parameters[n - 1].param_type),
            parameters[n - 1].visibility.raw(),
            payload_place(parameters, (n - 1) as nat) as u32,
        ]
    }
}

/// The words of a static sampler.
pub open spec fn sampler_words(s: StaticSampler) -> Seq<u32> {
    seq![
        s.filter,
        s.address_u,
        s.address_v,
        s.address_w,
        s.mip_lod_bias,
        s.max_anisotropy,
        s.comparison_func,
        s.border_color,
        s.min_lod,
        s.max_lod,
        s.shader_register,
        s.register_space,
        s.visibility.raw(),
    ]
}

/// The words of the first `n` static samplers.
pub open spec fn samplers_words(samplers: Seq<StaticSampler>, n: nat) -> Seq<u32>
    decreases n,
{
    if n == 0 {
        Seq::empty()
    } else {
        samplers_words(samplers, (n - 1) as nat) + sampler_words(samplers[n - 1])
    }
}

/// Where the static samplers start.
pub open spec fn samplers_start(parameters: Seq<ParameterModel>) -> nat {
    payload_place(parameters, parameters.len())
}

/// The header.
pub open spec fn header_words(r: RootModel) -> Seq<u32> {
    seq![
        r.version,
        r.parameters.len() as u32,
        24u32,
        r.static_samplers.len() as u32,
        samplers_start(r.parameters) as u32,
        r.flags,
    ]
}

/// All the words of a chunk: header, entries, payloads and samplers.
pub open spec fn root_words(r: RootModel) -> Seq<u32> {
    header_words(r) + entries_words(r.parameters, r.parameters.len()) + payloads_words(
        r.parameters,
        r.parameters.len(),
    ) + samplers_words(r.static_samplers, r.static_samplers.len())
}

/// The payload can be counted.
pub open spec fn countable(r: RootModel) -> bool {
    samplers_start(r.parameters) + 52 * r.static_samplers.len() <= usize::MAX
}

fn push_range(words: &mut Vec<u32>, r: &DescriptorRange)
    ensures
        final(words)@ == old(words)@ + range_words(*r),
{
    let ghost start = words@;
    words.push(r.range_type.to_u32());
    words.push(r.num_descriptors);
    words.push(r.base_shader_register);
    words.push(r.register_space);
    words.push(r.offset_in_descriptors_from_table_start);
    proof {
        assert(words@ =~= start + range_words(*r));
    }
}

fn push_payload(words: &mut Vec<u32>, p: &RootParameter, at: usize)
    requires
        at + 8 <= usize::MAX,
    ensures
        final(words)@ == old(words)@ + payload_words(p@.param_type, at as nat),
{
    let ghost start = words@;
    match &p.param_type {
        RootParameterType::DescriptorTable { ranges } => {
            words.push(ranges.len() as u32);
            words.push((at + 8) as u32);
            let ghost lead = start + seq![ranges@.len() as u32, (at + 8) as u32];
            let mut i: usize = 0;
            proof {
                assert(words@ =~= lead + ranges_words(ranges@, 0));
            }
            while i < ranges.len()
                invariant
                    i <= ranges@.len(),
                    words@ == lead + ranges_words(ranges@, i as nat),
                decreases ranges@.len() - i,
            {
                push_range(words, &ranges[i]);
                i = i + 1;
                proof {
                    assert(words@ =~= lead + ranges_words(ranges@, i as nat));
                }
            }
        },
        RootParameterType::Constants32Bit { register, space, num_values } => {
            words.push(*register);
            words.push(*space);
            words.push(*num_values);
        },
        RootParameterType::Cbv { register, space } => {
            words.push(*register);
            words.push(*space);
        },
        RootParameterType::Srv { register, space } => {
            words.push(*register);
            words.push(*space);
        },
        RootParameterType::Uav { register, space } => {
            words.push(*register);
            words.push(*space);
        },
    }
    proof {
        assert(words@ =~= start + payload_words(p@.param_type, at as nat));
    }
}

proof fn lemma_ranges_len(ranges: Seq<DescriptorRange>, n: nat)
    ensures
        ranges_words(ranges, n).len() == 5 * n,
    decreases n,
{
    if n > 0 {
        lemma_ranges_len(ranges, (n - 1) as nat);
    }
}

proof fn lemma_payloads_len(parameters: Seq<ParameterModel>, n: nat)
    ensures
        payloads_words(parameters, n).len() == payload_lengths(parameters, n),
    decreases n,
{
    if n > 0 {
        lemma_payloads_len(parameters, (n - 1) as nat);
        match parameters[n - 1].param_type {
            PayloadModel::DescriptorTable { ranges } => {
                lemma_ranges_len(ranges, ranges.len());
            },
            _ => {},
        }
    }
}

proof fn lemma_lengths_grow(parameters: Seq<ParameterModel>, m: nat, n: nat)
    requires
        m <= n,
    ensures
        payload_lengths(parameters, m) <= payload_lengths(parameters, n),
        m < n ==> payload_lengths(parameters, m) + 2 <= payload_lengths(parameters, n),
    decreases n,
{
    if m < n {
        lemma_lengths_grow(parameters, m, (n - 1) as nat);
    }
}

fn write_payloads(parameters: &Vec<RootParameter>) -> (r: (Vec<u32>, Vec<usize>))
    requires
        samplers_start(parameter_models(parameters@)) <= usize::MAX,
    ensures
        r.0@ == payloads_words(parameter_models(parameters@), parameters@.len()),
        r.1@.len() == parameters@.len(),
        forall|i: int|
            0 <= i < parameters@.len() ==> #[trigger] r.1@[i] == payload_place(
                parameter_models(parameters@),
                i as nat,
            ),
{
    let ghost all = parameter_models(parameters@);
    let count: usize = parameters.len();
    let mut words: Vec<u32> = Vec::new();
    let mut places: Vec<usize> = Vec::new();
    let mut i: usize = 0;
    while i < count
        invariant
            i <= count,
            count == parameters@.len(),
            all == parameter_models(parameters@),
            samplers_start(all) <= usize::MAX,
            words@ == payloads_words(all, i as nat),
            places@.len() == i,
            forall|k: int| 0 <= k < i ==> #[trigger] places@[k] == payload_place(all, k as nat),
        decreases count - i,
    {
        proof {
            lemma_payloads_len(all, i as nat);
            lemma_lengths_grow(all, i as nat, all.len());
        }
        let at: usize = 24 + 12 * count + 4 * words.len();
        places.push(at);
        push_payload(&mut words, &parameters[i], at);
        i = i + 1;
    }
    (words, places)
}

fn push_entries(words: &mut Vec<u32>, parameters: &Vec<RootParameter>, places: &Vec<usize>)
    requires
        places@.len() == parameters@.len(),
        forall|i: int|
            0 <= i < parameters@.len() ==> #[trigger] places@[i] == payload_place(
                parameter_models(parameters@),
                i as nat,
            ),
    ensures
        final(words)@ == old(words)@ + entries_words(parameter_models(parameters@), parameters@.len()),
{
    let ghost start = words@;
    let ghost all = parameter_models(parameters@);
    let mut i: usize = 0;
    proof {
        assert(words@ =~= start + entries_words(all, 0));
    }
    while i < parameters.len()
        invariant
            i <= parameters@.len(),
            places@.len() == parameters@.len(),
            all == parameter_models(parameters@),
            forall|i: int| 0 <= i < parameters@.len() ==> #[trigger] places@[i] == payload_place(all, i as nat),
            words@ == start + entries_words(all, i as nat),
        decreases parameters@.len() - i,
    {
        let kind: u32 = match &parameters[i].param_type {
            RootParameterType::DescriptorTable { .. } => 0,
            RootParameterType::Constants32Bit { .. } => 1,
            RootParameterType::Cbv { .. } => 2,
            RootParameterType::Srv { .. } => 3,
            RootParameterType::Uav { .. } => 4,
        };
        words.push(kind);
        words.push(parameters[i].visibility.to_u32());
        words.push(places[i] as u32);
        i = i + 1;
        proof {
            assert(words@ =~= start + entries_words(all, i as nat));
        }
    }
}

fn push_samplers(words: &mut Vec<u32>, samplers: &Vec<StaticSampler>)
    ensures
        final(words)@ == old(words)@ + samplers_words(samplers@, samplers@.len()),
{
    let ghost start = words@;
    let mut i: usize = 0;
    proof {
        assert(words@ =~= start + samplers_words(samplers@, 0));
    }
    while i < samplers.len()
        invariant
            i <= samplers@.len(),
            words@ == start + samplers_words(samplers@, i as nat),
        decreases samplers@.len() - i,
    {
        let s = &samplers[i];
        words.push(s.filter);
        words.push(s.address_u);
        words.push(s.address_v);
        words.push(s.address_w);
        words.push(s.mip_lod_bias);
        words.push(s.max_anisotropy);
        words.push(s.comparison_func);
        words.push(s.border_color);
        words.push(s.min_lod);
        words.push(s.max_lod);
        words.push(s.shader_register);
        words.push(s.register_space);
        words.push(s.visibility.to_u32());
        i = i + 1;
        proof {
            assert(words@ =~= start + samplers_words(samplers@, i as nat));
        }
    }
}

fn push_list(words: &mut Vec<u32>, more: &Vec<u32>)
    ensures
        final(words)@ == old(words)@ + more@,
{
    let ghost start = words@;
    let mut i: usize = 0;
    while i < more.len()
        invariant
            i <= more@.len(),
            words@ == start + more@.take(i as int),
        decreases more@.len() - i,
    {
        words.push(more[i]);
        i = i + 1;
        proof {
            assert(words@ =~= start + more@.take(i as int));
        }
    }
    proof {
        assert(more@.take(i as int) =~= more@);
    }
}

impl RootSignature {
    /// The tag the chunk goes under.
    pub fn fourcc(&self) -> (r: [u8; 4])
        ensures
            r == [0x52u8, 0x54, 0x53, 0x30],
    {
        [0x52u8, 0x54, 0x53, 0x30]
    }

    /// The payload: header, parameter entries, parameter payloads and static samplers.
    pub fn write_payload(&self) -> (r: Vec<u8>)
        requires
            countable(self@),
        ensures
            r@ == flat(root_words(self@)),
    {
        let np: usize = self.parameters.len();
        let ns: usize = self.static_samplers.len();
        let (payloads, places) = write_payloads(&self.parameters);
        proof {
            lemma_payloads_len(self@.parameters, np as nat);
        }
        let samplers_offset: usize = 24 + 12 * np + 4 * payloads.len();
        let mut words: Vec<u32> = Vec::new();
        words.push(self.version);
        words.push(np as u32);
        words.push(24);
        words.push(ns as u32);
        words.push(samplers_offset as u32);
        words.push(self.flags);
        proof {
            assert(words@ =~= header_words(self@));
        }
        push_entries(&mut words, &self.parameters, &places);
        push_list(&mut words, &payloads);
        push_samplers(&mut words, &self.static_samplers);
        let mut out: Vec<u8> = Vec::new();
        push_words(&mut out, words.as_slice());
        proof {
            assert(words@ =~= root_words(self@));
            assert(out@ =~= flat(root_words(self@)));
        }
        out
    }
}

proof fn lemma_entries_stand(parameters: Seq<ParameterModel>, n: nat)
    requires
        n <= parameters.len(),
    ensures
        entries_words(parameters, n).len() == 3 * n,
        forall|i: int|
            0 <= i < n ==> {
                &&& entries_words(parameters, n)[3 * i] == payload_kind((#[trigger] parameters[i]).param_type)
                &&& entries_words(parameters, n)[3 * i + 1] == parameters[i].visibility.raw()
                &&& entries_words(parameters, n)[3 * i + 2] == payload_place(parameters, i as nat) as u32
            },
    decreases n,
{
    if n > 0 {
        lemma_entries_stand(parameters, (n - 1) as nat);
    }
}

proof fn lemma_payload_stands(parameters: Seq<ParameterModel>, i: nat, n: nat)
    requires
        i < n <= parameters.len(),
    ensures
        ({
            let p = parameters[i as int].param_type;
            let at = payload_lengths(parameters, i);
            let w = payload_words(p, payload_place(parameters, i));
            &&& w.len() == payload_length(p)
            &&& at + w.len() <= payloads_words(parameters, n).len()
            &&& payloads_words(parameters, n).subrange(at as int, (at + w.len()) as int) == w
        }),
    decreases n,
{
    let p = parameters[i as int].param_type;
    let at = payload_lengths(parameters, i) as int;
    let w = payload_words(p, payload_place(parameters, i));
    match p {
        PayloadModel::DescriptorTable { ranges } => {
            lemma_ranges_len(ranges, ranges.len());
        },
        _ => {},
    }
    let m = (n - 1) as nat;
    lemma_payloads_len(parameters, m);
    lemma_payloads_len(parameters, i);
    let before = payloads_words(parameters, m);
    let all = payloads_words(parameters, n);
    if i < m {
        lemma_payload_stands(parameters, i, m);
        assert(all.subrange(at, at + w.len()) =~= before.subrange(at, at + w.len()));
    } else {
        assert(all.subrange(at, at + w.len()) =~= w);
    }
}

proof fn lemma_samplers_stand(samplers: Seq<StaticSampler>, n: nat)
    requires
        n <= samplers.len(),
    ensures
        samplers_words(samplers, n).len() == 13 * n,
        forall|i: int|
            0 <= i < n ==> samplers_words(samplers, n).subrange(13 * i, 13 * i + 13) == sampler_words(
                #[trigger] samplers[i],
            ),
    decreases n,
{
    if n > 0 {
        let m = (n - 1) as nat;
        lemma_samplers_stand(samplers, m);
        let before = samplers_words(samplers, m);
        let all = samplers_words(samplers, n);
        assert forall|i: int| 0 <= i < n implies all.subrange(13 * i, 13 * i + 13) == sampler_words(
            #[trigger] samplers[i],
        ) by {
            if i < m {
                assert(all.subrange(13 * i, 13 * i + 13) =~= before.subrange(13 * i, 13 * i + 13));
            } else {
                assert(all.subrange(13 * i, 13 * i + 13) =~= sampler_words(samplers[i]));
            }
        }
    }
}

proof fn lemma_ranges_stand(ranges: Seq<DescriptorRange>, n: nat)
    requires
        n <= ranges.len(),
    ensures
        ranges_words(ranges, n).len() == 5 * n,
        forall|i: int|
            0 <= i < n ==> ranges_words(ranges, n).subrange(5 * i, 5 * i + 5) == range_words(#[trigger] ranges[i]),
    decreases n,
{
    if n > 0 {
        let m = (n - 1) as nat;
        lemma_ranges_stand(ranges, m);
        let before = ranges_words(ranges, m);
        let all = ranges_words(ranges, n);
        assert forall|i: int| 0 <= i < n implies all.subrange(5 * i, 5 * i + 5) == range_words(
            #[trigger] ranges[i],
        ) by {
            if i < m {
                assert(all.subrange(5 * i, 5 * i + 5) =~= before.subrange(5 * i, 5 * i + 5));
            } else {
                assert(all.subrange(5 * i, 5 * i + 5) =~= range_words(ranges[i]));
            }
        }
    }
}

/// The words that data starts with.
spec fn holds_words(data: Seq<u8>, words: Seq<u32>) -> bool {
    &&& data.len() == 4 * words.len()
    &&& forall|i: int| 0 <= i < words.len() ==> le32(data, 4 * i) == #[trigger] words[i]
}

proof fn lemma_range_reads(data: Seq<u8>, words: Seq<u32>, at: int, r: DescriptorRange)
    requires
        holds_words(data, words),
        0 <= at,
        at + 5 <= words.len(),
        words.subrange(at, at + 5) == range_words(r),
    ensures
        range_of(data, 4 * at) == r,
{
    let w = words.subrange(at, at + 5);
    assert(w[0] == words[at] && w[1] == words[at + 1] && w[2] == words[at + 2] && w[3] == words[at + 3] && w[4]
        == words[at + 4]);
    assert(le32(data, 4 * (at + 1)) == words[at + 1]);
    assert(le32(data, 4 * (at + 2)) == words[at + 2]);
    assert(le32(data, 4 * (at + 3)) == words[at + 3]);
    assert(le32(data, 4 * (at + 4)) == words[at + 4]);
    law_range_type_comes_back(r.range_type);
}

proof fn lemma_sampler_reads(data: Seq<u8>, words: Seq<u32>, at: int, s: StaticSampler)
    requires
        holds_words(data, words),
        0 <= at,
        at + 13 <= words.len(),
        words.subrange(at, at + 13) == sampler_words(s),
    ensures
        sampler_of(data, 4 * at) == s,
{
    let w = words.subrange(at, at + 13);
    assert forall|k: int| 0 <= k < 13 implies le32(data, 4 * at + 4 * k) == #[trigger] w[k] by {
        assert(w[k] == words[at + k]);
        assert(le32(data, 4 * (at + k)) == words[at + k]);
    }
    law_visibility_comes_back(s.visibility);
    assert(w[0] == s.filter && w[1] == s.address_u && w[2] == s.address_v && w[3] == s.address_w && w[4]
        == s.mip_lod_bias && w[5] == s.max_anisotropy && w[6] == s.comparison_func && w[7] == s.border_color && w[8]
        == s.min_lod && w[9] == s.max_lod && w[10] == s.shader_register && w[11] == s.register_space && w[12]
        == s.visibility.raw());
}

proof fn lemma_payload_reads(data: Seq<u8>, words: Seq<u32>, at: int, p: PayloadModel)
    requires
        holds_words(data, words),
        0 <= at,
        at + payload_length(p) <= words.len(),
        data.len() <= u32::MAX,
        words.subrange(at, at + payload_length(p)) == payload_words(p, (4 * at) as nat),
    ensures
        payload_of(data, payload_kind(p), 4 * at) == Some(p),
{
    let len = payload_length(p) as int;
    let w = words.subrange(at, at + len);
    assert(w[0] == words[at] && w[1] == words[at + 1]);
    assert(le32(data, 4 * (at + 1)) == words[at + 1]);
    match p {
        PayloadModel::DescriptorTable { ranges } => {
            let n = ranges.len();
            lemma_ranges_stand(ranges, n);
            let body = ranges_words(ranges, n);
            assert(w == seq![n as u32, (4 * at + 8) as u32] + body);
            let got = ranges_of(data, 4 * at);
            assert(got.len() == n);
            assert forall|i: int| 0 <= i < n implies got[i] == #[trigger] ranges[i] by {
                let here = at + 2 + 5 * i;
                let lead = seq![n as u32, (4 * at + 8) as u32];
                assert forall|k: int| 0 <= k < 5 implies words[here + k] == #[trigger] range_words(ranges[i])[k] by {
                    assert(w[2 + 5 * i + k] == words[at + (2 + 5 * i + k)]);
                    assert((lead + body)[2 + 5 * i + k] == body[5 * i + k]);
                    assert(body.subrange(5 * i, 5 * i + 5)[k] == body[5 * i + k]);
                }
                assert(words.subrange(here, here + 5) =~= range_words(ranges[i]));
                lemma_range_reads(data, words, here, ranges[i]);
            }
            assert(got =~= ranges);
        },
        PayloadModel::Constants32Bit { register, space, num_values } => {
            assert(w[2] == words[at + 2]);
            assert(le32(data, 4 * (at + 2)) == words[at + 2]);
        },
        _ => {},
    }
}

proof fn lemma_root_len(r: RootModel)
    ensures
        root_words(r).len() == 6 + 3 * r.parameters.len() + payload_lengths(r.parameters, r.parameters.len()) + 13
            * r.static_samplers.len(),
{
    lemma_entries_stand(r.parameters, r.parameters.len());
    lemma_payloads_len(r.parameters, r.parameters.len());
    lemma_samplers_stand(r.static_samplers, r.static_samplers.len());
}

proof fn lemma_entry_stands(parameters: Seq<ParameterModel>, i: int, n: nat)
    requires
        0 <= i < n <= parameters.len(),
    ensures
        entries_words(parameters, n).len() == 3 * n,
        entries_words(parameters, n)[3 * i] == payload_kind(parameters[i].param_type),
        entries_words(parameters, n)[3 * i + 1] == parameters[i].visibility.raw(),
        entries_words(parameters, n)[3 * i + 2] == payload_place(parameters, i as nat) as u32,
{
    lemma_entries_stand(parameters, n);
    assert(parameters[i] == parameters[i]);
}

proof fn lemma_entry_word(data: Seq<u8>, r: RootModel, k: int)
    requires
        holds_words(data, root_words(r)),
        0 <= k < entries_words(r.parameters, r.parameters.len()).len(),
    ensures
        le32(data, 24 + 4 * k) == entries_words(r.parameters, r.parameters.len())[k],
{
    let words = root_words(r);
    assert(words[6 + k] == entries_words(r.parameters, r.parameters.len())[k]);
    assert(le32(data, 4 * (6 + k)) == words[6 + k]);
}

proof fn lemma_entry_reads(data: Seq<u8>, r: RootModel, i: int)
    requires
        holds_words(data, root_words(r)),
        0 <= i < r.parameters.len(),
    ensures
        le32(data, 24 + i * 12) == payload_kind(r.parameters[i].param_type),
        le32(data, 24 + i * 12 + 4) == r.parameters[i].visibility.raw(),
        le32(data, 24 + i * 12 + 8) == payload_place(r.parameters, i as nat) as u32,
{
    lemma_entry_stands(r.parameters, i, r.parameters.len());
    lemma_entry_word(data, r, 3 * i);
    lemma_entry_word(data, r, 3 * i + 1);
    lemma_entry_word(data, r, 3 * i + 2);
}

#[verifier::rlimit(60)]
#[verifier::spinoff_prover]
proof fn lemma_payload_in_place(r: RootModel, i: int)
    requires
        0 <= i < r.parameters.len(),
    ensures
        ({
            let p = r.parameters[i].param_type;
            let at = 6 + 3 * r.parameters.len() + payload_lengths(r.parameters, i as nat);
            &&& at + payload_length(p) <= root_words(r).len()
            &&& payload_place(r.parameters, i as nat) == 4 * at
            &&& root_words(r).subrange(at as int, (at + payload_length(p)) as int) == payload_words(p, 4 * at)
        }),
{
    let n = r.parameters.len();
    let p = r.parameters[i].param_type;
    let words = root_words(r);
    let payloads = payloads_words(r.parameters, n);
    lemma_root_len(r);
    lemma_entries_stand(r.parameters, n);
    lemma_payloads_len(r.parameters, n);
    lemma_payload_stands(r.parameters, i as nat, n);
    let off = payload_lengths(r.parameters, i as nat) as int;
    let at = 6 + 3 * n + off;
    let len = payload_length(p) as int;
    assert(words.subrange(at, at + len) =~= payloads.subrange(off, off + len));
}

proof fn lemma_parameter_comes_back(data: Seq<u8>, r: RootModel, i: int)
    requires
        holds_words(data, root_words(r)),
        data.len() <= u32::MAX,
        0 <= i < r.parameters.len(),
    ensures
        parameter_of(data, 24 + i * 12) == Some(r.parameters[i]),
{
    let p = r.parameters[i];
    let at = 6 + 3 * r.parameters.len() + payload_lengths(r.parameters, i as nat);
    lemma_entry_reads(data, r, i);
    lemma_payload_in_place(r, i);
    lemma_payload_reads(data, root_words(r), at as int, p.param_type);
    law_visibility_comes_back(p.visibility);
}

proof fn lemma_parameters_come_back(data: Seq<u8>, r: RootModel, n: nat)
    requires
        holds_words(data, root_words(r)),
        data.len() <= u32::MAX,
        n <= r.parameters.len(),
    ensures
        parameters_of(data, 24, n) == Some(r.parameters.take(n as int)),
    decreases n,
{
    if n == 0 {
        assert(r.parameters.take(0) =~= Seq::empty());
    } else {
        lemma_parameters_come_back(data, r, (n - 1) as nat);
        lemma_parameter_comes_back(data, r, n - 1);
        assert(r.parameters.take(n as int) =~= r.parameters.take(n - 1).push(r.parameters[n - 1]));
    }
}

proof fn lemma_samplers_come_back(data: Seq<u8>, r: RootModel)
    requires
        holds_words(data, root_words(r)),
        data.len() <= u32::MAX,
    ensures
        samplers_of(data, samplers_start(r.parameters) as u32, r.static_samplers.len() as u32) == r.static_samplers,
{
    let np = r.parameters.len();
    let n = r.static_samplers.len();
    let words = root_words(r);
    let body = samplers_words(r.static_samplers, n);
    lemma_root_len(r);
    lemma_entries_stand(r.parameters, np);
    lemma_payloads_len(r.parameters, np);
    lemma_samplers_stand(r.static_samplers, n);
    let start = 6 + 3 * np + payload_lengths(r.parameters, np);
    let got = samplers_of(data, samplers_start(r.parameters) as u32, n as u32);
    assert(samplers_start(r.parameters) == 4 * start);
    assert(got.len() == n);
    assert forall|i: int| 0 <= i < n implies got[i] == #[trigger] r.static_samplers[i] by {
        let at = start + 13 * i;
        assert(words.subrange(at, at + 13) =~= body.subrange(13 * i, 13 * i + 13));
        lemma_sampler_reads(data, words, at, r.static_samplers[i]);
    }
    assert(got =~= r.static_samplers);
}

/// Parsing what was written gives the root signature back, where the payload is no longer than its offsets
/// can reach.
pub proof fn law_root_signature_comes_back(r: RootModel)
    requires
        flat(root_words(r)).len() <= u32::MAX,
    ensures
        root_of(flat(root_words(r))) == Some(r),
{
    let words = root_words(r);
    let data = flat(words);
    lemma_flat_len(words);
    assert(data.subrange(0, data.len() as int) =~= data);
    lemma_stands_words(data, 0, words);
    assert forall|i: int| 0 <= i < words.len() implies le32(data, 4 * i) == #[trigger] words[i] by {
        assert(le32(data, 0 + 4 * i) == words[i]);
    }
    assert(holds_words(data, words));
    lemma_root_len(r);
    assert(words[0] == r.version && words[1] == r.parameters.len() && words[2] == 24 && words[3]
        == r.static_samplers.len() && words[4] == samplers_start(r.parameters) as u32 && words[5] == r.flags) by {
        let head = header_words(r);
        assert(words[0] == head[0] && words[1] == head[1] && words[2] == head[2] && words[3] == head[3] && words[4]
            == head[4] && words[5] == head[5]);
    }
    assert(le32(data, 4int * 0) == words[0]);
    assert(le32(data, 4int * 1) == words[1]);
    assert(le32(data, 4int * 2) == words[2]);
    assert(le32(data, 4int * 3) == words[3]);
    assert(le32(data, 4int * 4) == words[4]);
    assert(le32(data, 4int * 5) == words[5]);
    lemma_parameters_come_back(data, r, r.parameters.len());
    assert(r.parameters.take(r.parameters.len() as int) =~= r.parameters);
    lemma_samplers_come_back(data, r);
}

/// A count of descriptors.
pub open spec fn count_text(n: u32, all: Seq<char>) -> Seq<char> {
    if n == 0xFFFF_FFFF {
        all
    } else {
        dec(n as nat)
    }
}

fn format_count(n: u32, all: &str) -> (r: String)
    ensures
        r@ == count_text(n, all@),
{
    if n == 0xFFFF_FFFF {
        all.to_owned()
    } else {
        decimal(n as u64)
    }
}

/// A descriptor range in words.
pub open spec fn range_text(r: DescriptorRange) -> Seq<char> {
    r.range_type.name_text() + "("@ + count_text(r.num_descriptors, "unbounded"@) + ") "@ + ""@.push(
        r.range_type.prefix_char(),
    ) + dec(r.base_shader_register as nat) + " space="@ + dec(r.register_space as nat) + " offset="@ + count_text(
        r.offset_in_descriptors_from_table_start,
        "APPEND"@,
    )
}

impl DescriptorRange {
    /// The range in words.
    pub fn text(&self) -> (r: String)
        ensures
            r@ == range_text(*self),
    {
        let count = format_count(self.num_descriptors, "unbounded");
        let offset = format_count(self.offset_in_descriptors_from_table_start, "APPEND");
        let base = decimal(self.base_shader_register as u64);
        let space = decimal(self.register_space as u64);
        let mut prefix = "".to_owned();
        prefix.push(self.range_type.prefix());
        let head = cat6(self.range_type.name(), "(", count.as_str(), ") ", prefix.as_str(), base.as_str());
        cat5(head.as_str(), " space=", space.as_str(), " offset=", offset.as_str())
    }
}

/// The register and space of an inline parameter.
pub open spec fn slot_text(prefix: Seq<char>, register: u32, space: u32) -> Seq<char> {
    prefix + dec(register as nat) + " space="@ + dec(space as nat)
}

fn format_slot(prefix: &str, register: u32, space: u32) -> (r: String)
    ensures
        r@ == slot_text(prefix@, register, space),
{
    let reg = decimal(register as u64);
    let sp = decimal(space as u64);
    cat4(prefix, reg.as_str(), " space=", sp.as_str())
}

/// The first `n` ranges, each behind a lead and before an end.
pub open spec fn ranges_text(ranges: Seq<DescriptorRange>, lead: Seq<char>, end: Seq<char>, n: nat) -> Seq<char>
    decreases n,
{
    if n == 0 {
        Seq::empty()
    } else {
        ranges_text(ranges, lead, end, (n - 1) as nat) + lead + range_text(ranges[n - 1]) + end
    }
}

fn format_ranges(ranges: &Vec<DescriptorRange>, lead: &str, end: &str) -> (r: String)
    ensures
        r@ == ranges_text(ranges@, lead@, end@, ranges@.len()),
{
    let mut out = String::new();
    let mut i: usize = 0;
    proof {
        assert(out@ =~= Seq::empty());
    }
    while i < ranges.len()
        invariant
            i <= ranges@.len(),
            out@ == ranges_text(ranges@, lead@, end@, i as nat),
        decreases ranges@.len() - i,
    {
        let one = ranges[i].text();
        out.push_str(lead);
        out.push_str(one.as_str());
        out.push_str(end);
        i = i + 1;
    }
    out
}

/// A parameter in words.
pub open spec fn parameter_text(p: ParameterModel) -> Seq<char> {
    let vis = p.visibility.name_text();
    match p.param_type {
        PayloadModel::DescriptorTable { ranges } => "DescriptorTable vis="@ + vis + ranges_text(
            ranges,
            "\n  "@,
            ""@,
            ranges.len(),
        ),
        PayloadModel::Constants32Bit { register, space, num_values } => "32BitConstants vis="@ + vis + slot_text(
            " b"@,
            register,
            space,
        ) + " num32BitValues="@ + dec(num_values as nat),
        PayloadModel::Cbv { register, space } => "CBV vis="@ + vis + slot_text(" b"@, register, space),
        PayloadModel::Srv { register, space } => "SRV vis="@ + vis + slot_text(" t"@, register, space),
        PayloadModel::Uav { register, space } => "UAV vis="@ + vis + slot_text(" u"@, register, space),
    }
}

impl RootParameter {
    /// The parameter in words.
    pub fn text(&self) -> (r: String)
        ensures
            r@ == parameter_text(self@),
    {
        let vis = self.visibility.name();
        match &self.param_type {
            RootParameterType::DescriptorTable { ranges } => {
                let list = format_ranges(ranges, "\n  ", "");
                cat3("DescriptorTable vis=", vis, list.as_str())
            },
            RootParameterType::Constants32Bit { register, space, num_values } => {
                let slot = format_slot(" b", *register, *space);
                let n = decimal(*num_values as u64);
                cat5("32BitConstants vis=", vis, slot.as_str(), " num32BitValues=", n.as_str())
            },
            RootParameterType::Cbv { register, space } => {
                let slot = format_slot(" b", *register, *space);
                cat3("CBV vis=", vis, slot.as_str())
            },
            RootParameterType::Srv { register, space } => {
                let slot = format_slot(" t", *register, *space);
                cat3("SRV vis=", vis, slot.as_str())
            },
            RootParameterType::Uav { register, space } => {
                let slot = format_slot(" u", *register, *space);
                cat3("UAV vis=", vis, slot.as_str())
            },
        }
    }
}

/// What a static sampler does, in words.
pub open spec fn sampler_body(s: StaticSampler) -> Seq<char> {
    dec(s.shader_register as nat) + " space="@ + dec(s.register_space as nat) + " vis="@ + s.visibility.name_text()
        + " filter="@ + dec(s.filter as nat) + " addr=("@ + dec(s.address_u as nat) + ","@ + dec(s.address_v as nat)
        + ","@ + dec(s.address_w as nat) + ") lod=["@ + display32(s.min_lod) + ","@ + display32(s.max_lod) + "]"@
}

fn format_sampler(s: &StaticSampler) -> (r: String)
    ensures
        r@ == sampler_body(*s),
{
    let register = decimal(s.shader_register as u64);
    let space = decimal(s.register_space as u64);
    let filter = decimal(s.filter as u64);
    let u = decimal(s.address_u as u64);
    let v = decimal(s.address_v as u64);
    let w = decimal(s.address_w as u64);
    let low = display_single(s.min_lod);
    let high = display_single(s.max_lod);
    let head = cat7(
        register.as_str(),
        " space=",
        space.as_str(),
        " vis=",
        s.visibility.name(),
        " filter=",
        filter.as_str(),
    );
    let mid = cat7(head.as_str(), " addr=(", u.as_str(), ",", v.as_str(), ",", w.as_str());
    cat6(mid.as_str(), ") lod=[", low.as_str(), ",", high.as_str(), "]")
}

impl StaticSampler {
    /// The sampler in words.
    pub fn text(&self) -> (r: String)
        ensures
            r@ == "StaticSampler s"@ + sampler_body(*self),
    {
        let body = format_sampler(self);
        cat2("StaticSampler s", body.as_str())
    }
}

/// A parameter in a listing, with its number.
pub open spec fn parameter_line(at: nat, p: ParameterModel) -> Seq<char> {
    let vis = p.visibility.name_text();
    "//   ["@ + right_aligned(dec(at), 2) + (match p.param_type {
        PayloadModel::DescriptorTable { ranges } => "] DescriptorTable  vis="@ + vis + "\n"@ + ranges_text(
            ranges,
            "//        "@,
            "\n"@,
            ranges.len(),
        ),
        PayloadModel::Constants32Bit { register, space, num_values } => "] 32BitConstants   vis="@ + vis + slot_text(
            "  b"@,
            register,
            space,
        ) + " num32BitValues="@ + dec(num_values as nat) + "\n"@,
        PayloadModel::Cbv { register, space } => "] CBV              vis="@ + vis + slot_text("  b"@, register, space)
            + "\n"@,
        PayloadModel::Srv { register, space } => "] SRV              vis="@ + vis + slot_text("  t"@, register, space)
            + "\n"@,
        PayloadModel::Uav { register, space } => "] UAV              vis="@ + vis + slot_text("  u"@, register, space)
            + "\n"@,
    })
}

fn format_parameter(at: usize, p: &RootParameter) -> (r: String)
    ensures
        r@ == parameter_line(at as nat, p@),
{
    let vis = p.visibility.name();
    let number = decimal(at as u64);
    let index = align_right(number.as_str(), 2);
    let body = match &p.param_type {
        RootParameterType::DescriptorTable { ranges } => {
            let list = format_ranges(ranges, "//        ", "\n");
            cat4("] DescriptorTable  vis=", vis, "\n", list.as_str())
        },
        RootParameterType::Constants32Bit { register, space, num_values } => {
            let slot = format_slot("  b", *register, *space);
            let n = decimal(*num_values as u64);
            cat6("] 32BitConstants   vis=", vis, slot.as_str(), " num32BitValues=", n.as_str(), "\n")
        },
        RootParameterType::Cbv { register, space } => {
            let slot = format_slot("  b", *register, *space);
            cat4("] CBV              vis=", vis, slot.as_str(), "\n")
        },
        RootParameterType::Srv { register, space } => {
            let slot = format_slot("  t", *register, *space);
            cat4("] SRV              vis=", vis, slot.as_str(), "\n")
        },
        RootParameterType::Uav { register, space } => {
            let slot = format_slot("  u", *register, *space);
            cat4("] UAV              vis=", vis, slot.as_str(), "\n")
        },
    };
    cat3("//   [", index.as_str(), body.as_str())
}

/// The first `n` parameters in a listing.
pub open spec fn parameter_lines(parameters: Seq<ParameterModel>, n: nat) -> Seq<char>
    decreases n,
{
    if n == 0 {
        Seq::empty()
    } else {
        parameter_lines(parameters, (n - 1) as nat) + parameter_line((n - 1) as nat, parameters[n - 1])
    }
}

/// The first `n` static samplers in a listing.
pub open spec fn sampler_lines(samplers: Seq<StaticSampler>, n: nat) -> Seq<char>
    decreases n,
{
    if n == 0 {
        Seq::empty()
    } else {
        sampler_lines(samplers, (n - 1) as nat) + "//   StaticSampler["@ + dec((n - 1) as nat) + "] s"@ + sampler_body(
            samplers[n - 1],
        ) + "\n"@
    }
}

/// The root signature in words.
pub open spec fn root_text(r: RootModel) -> Seq<char> {
    "// Root Signature v1."@ + (if r.version >= 2 {
        "1"@
    } else {
        "0"@
    }) + " \u{2014} "@ + dec(r.parameters.len()) + " parameter(s), "@ + dec(r.static_samplers.len())
        + " static sampler(s), flags=0x"@ + hex_upper(r.flags as nat) + "\n"@ + parameter_lines(
        r.parameters,
        r.parameters.len(),
    ) + sampler_lines(r.static_samplers, r.static_samplers.len())
}

impl RootSignature {
    /// The root signature in words: its parameters and its static samplers.
    pub fn text(&self) -> (r: String)
        ensures
            r@ == root_text(self@),
    {
        let minor = if self.version >= 2 {
            "1"
        } else {
            "0"
        };
        let np = decimal(self.parameters.len() as u64);
        let ns = decimal(self.static_samplers.len() as u64);
        let flags = hexadecimal_upper(self.flags as u64);
        let head = cat7(
            "// Root Signature v1.",
            minor,
            " \u{2014} ",
            np.as_str(),
            " parameter(s), ",
            ns.as_str(),
            " static sampler(s), flags=0x",
        );
        let ghost all = self@.parameters;
        let mut lines = String::new();
        let mut i: usize = 0;
        proof {
            assert(lines@ =~= parameter_lines(all, 0));
        }
        while i < self.parameters.len()
            invariant
                i <= self.parameters@.len(),
                all == self@.parameters,
                lines@ == parameter_lines(all, i as nat),
            decreases self.parameters@.len() - i,
        {
            let line = format_parameter(i, &self.parameters[i]);
            lines.push_str(line.as_str());
            i = i + 1;
        }
        let mut more = String::new();
        let mut j: usize = 0;
        proof {
            assert(more@ =~= sampler_lines(self.static_samplers@, 0));
        }
        while j < self.static_samplers.len()
            invariant
                j <= self.static_samplers@.len(),
                more@ == sampler_lines(self.static_samplers@, j as nat),
            decreases self.static_samplers@.len() - j,
        {
            let number = decimal(j as u64);
            let body = format_sampler(&self.static_samplers[j]);
            more.push_str("//   StaticSampler[");
            more.push_str(number.as_str());
            more.push_str("] s");
            more.push_str(body.as_str());
            more.push_str("\n");
            j = j + 1;
        }
        cat5(head.as_str(), flags.as_str(), "\n", lines.as_str(), more.as_str())
    }
}

} // verus!
